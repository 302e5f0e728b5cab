//! The arithmetic of settlement: who loses and who wins a closed vote, and
//! how credits and collateral move between members.
use crate::store::Store;
use crate::types::{AccountId, Balance, Proposal, Transfer, Vote, VoterBalance};
use vstd::prelude::*;

verus! {

/// `c` credits after `amount` more were granted, capped at `max`.
pub open spec fn grant(c: u8, amount: int, max: u8) -> u8 {
    if c + amount >= max {
        max
    } else {
        (c + amount) as u8
    }
}

/// The cost in credits of a vote of weight `w`.
pub open spec fn cost(w: u8) -> int {
    (w as int) * (w as int)
}

/// No member in `m` holds more than `max` credits.
pub open spec fn within_cap(m: Map<AccountId, VoterBalance>, max: u8) -> bool {
    forall|a: AccountId| #[trigger] m.contains_key(a) ==> m[a].voting_tokens <= max
}

/// The accounts of the votes, in order.
pub open spec fn voters(votes: Seq<(AccountId, u8, Vote)>) -> Seq<AccountId> {
    votes.map_values(|v: (AccountId, u8, Vote)| v.0)
}

/// The accounts of the votes for `c`, in order.
pub open spec fn chosen(votes: Seq<(AccountId, u8, Vote)>, c: Vote) -> Seq<AccountId>
    decreases votes.len(),
{
    if votes.len() == 0 {
        Seq::empty()
    } else {
        let rest = chosen(votes.drop_last(), c);
        if votes.last().2 == c {
            rest.push(votes.last().0)
        } else {
            rest
        }
    }
}

/// The voters who are slashed: the side that lost, or every voter on a tie.
pub open spec fn losers(p: Proposal) -> Seq<AccountId> {
    if p.ayes > p.nays {
        chosen(p.votes@, Vote::No)
    } else if p.ayes < p.nays {
        chosen(p.votes@, Vote::Yes)
    } else {
        voters(p.votes@)
    }
}

/// The accounts rewarded: the side that won, or the proposer alone on a tie.
pub open spec fn winners(p: Proposal) -> Seq<AccountId> {
    if p.ayes > p.nays {
        chosen(p.votes@, Vote::Yes)
    } else if p.ayes < p.nays {
        chosen(p.votes@, Vote::No)
    } else {
        seq![p.proposer]
    }
}

/// The collateral recorded for `a` in `m`, zero for one who is no member.
pub open spec fn stake_in(m: Map<AccountId, VoterBalance>, a: AccountId) -> Balance {
    if m.contains_key(a) {
        m[a].reserved_balance
    } else {
        0
    }
}

/// The members after every voter got the cost of their vote back, capped.
pub open spec fn refund_all(
    m: Map<AccountId, VoterBalance>,
    votes: Seq<(AccountId, u8, Vote)>,
    max: u8,
) -> Map<AccountId, VoterBalance>
    decreases votes.len(),
{
    if votes.len() == 0 {
        m
    } else {
        let m1 = refund_all(m, votes.drop_last(), max);
        let a = votes.last().0;
        if m1.contains_key(a) {
            m1.insert(
                a,
                VoterBalance {
                    voting_tokens: grant(m1[a].voting_tokens, cost(votes.last().1), max),
                    ..m1[a]
                },
            )
        } else {
            m1
        }
    }
}

/// `a - b`, or zero where `b` is larger.
pub open spec fn sat_sub(a: Balance, b: Balance) -> Balance {
    if a >= b {
        (a - b) as u128
    } else {
        0
    }
}

/// `a + b`, or the largest balance where that would overflow.
pub open spec fn sat_add(a: Balance, b: Balance) -> Balance {
    if a + b > u128::MAX {
        u128::MAX
    } else {
        (a + b) as u128
    }
}

/// What a slash asks of the ledger: a tenth of the recorded collateral,
/// rounded down.
pub open spec fn slash_ask(m: Map<AccountId, VoterBalance>, a: AccountId) -> Balance {
    (stake_in(m, a) / 10) as u128
}

/// The part of a transfer that the ledger moved, given what was asked and
/// what it reported as not moved.
pub open spec fn moved_of(asked: Balance, lost: Balance) -> Balance {
    sat_sub(asked, lost)
}

/// What the ledger reported as not moved; nothing for a refusal.
pub open spec fn lost_of(t: Transfer) -> Balance {
    match t.3 {
        Ok(lost) => lost,
        Err(_) => 0,
    }
}

/// The ledger answered every transfer without refusing.
pub open spec fn all_answered(t: Seq<Transfer>) -> bool {
    forall|i: int| 0 <= i < t.len() ==> (#[trigger] t[i]).3 is Ok
}

/// The transfers `after` holds beyond those of `before`.
pub open spec fn new_calls(before: Seq<Transfer>, after: Seq<Transfer>) -> Seq<Transfer> {
    after.skip(before.len() as int)
}

/// `after` is `before` with more transfers at its end.
pub open spec fn extends(before: Seq<Transfer>, after: Seq<Transfer>) -> bool {
    &&& before.len() <= after.len()
    &&& forall|i: int| 0 <= i < before.len() ==> after[i] == #[trigger] before[i]
}

/// The ledger refused the last of the transfers and answered the others.
pub open spec fn refused_last(t: Seq<Transfer>) -> bool {
    &&& t.len() > 0
    &&& all_answered(t.drop_last())
    &&& t.last().3 is Err
}

/// `m` with `moved` taken off the collateral of `a`, if a member.
pub open spec fn slash_one(m: Map<AccountId, VoterBalance>, a: AccountId, moved: Balance) -> Map<AccountId, VoterBalance> {
    if m.contains_key(a) {
        m.insert(a, VoterBalance { reserved_balance: sat_sub(m[a].reserved_balance, moved), ..m[a] })
    } else {
        m
    }
}

/// `m` with `moved` added to the collateral of `a`, if a member.
pub open spec fn credit_one(m: Map<AccountId, VoterBalance>, a: AccountId, moved: Balance) -> Map<AccountId, VoterBalance> {
    if m.contains_key(a) {
        m.insert(a, VoterBalance { reserved_balance: sat_add(m[a].reserved_balance, moved), ..m[a] })
    } else {
        m
    }
}

/// The members once the first `t.len()` of `voters` were slashed in turn,
/// the ledger having given the answers in `t`.
pub open spec fn slash_state(m: Map<AccountId, VoterBalance>, voters: Seq<AccountId>, t: Seq<Transfer>) -> Map<
    AccountId,
    VoterBalance,
>
    decreases t.len(),
{
    if t.len() == 0 {
        m
    } else {
        let m1 = slash_state(m, voters, t.drop_last());
        let a = voters[t.len() - 1];
        slash_one(m1, a, moved_of(slash_ask(m1, a), lost_of(t.last())))
    }
}

/// The total those slashes moved into the pot, saturating.
pub open spec fn slash_total(m: Map<AccountId, VoterBalance>, voters: Seq<AccountId>, t: Seq<Transfer>) -> Balance
    decreases t.len(),
{
    if t.len() == 0 {
        0
    } else {
        let m1 = slash_state(m, voters, t.drop_last());
        let a = voters[t.len() - 1];
        sat_add(slash_total(m, voters, t.drop_last()), moved_of(slash_ask(m1, a), lost_of(t.last())))
    }
}

/// `t` are the transfers a slash of `voters` from `m` asks of the ledger, in
/// order: from each voter to the pot, a tenth of the collateral recorded for
/// the voter at its turn.
pub open spec fn slash_calls(m: Map<AccountId, VoterBalance>, voters: Seq<AccountId>, pot: AccountId, t: Seq<Transfer>) -> bool
    decreases t.len(),
{
    &&& t.len() <= voters.len()
    &&& t.len() > 0 ==> {
        &&& slash_calls(m, voters, pot, t.drop_last())
        &&& t.last().0 == voters[t.len() - 1]
        &&& t.last().1 == pot
        &&& t.last().2 == slash_ask(slash_state(m, voters, t.drop_last()), voters[t.len() - 1])
    }
}

/// The members once the first `t.len()` of `voters` were handed `share`
/// from the pot in turn, the ledger having given the answers in `t`.
pub open spec fn reward_state(
    m: Map<AccountId, VoterBalance>,
    voters: Seq<AccountId>,
    share: Balance,
    t: Seq<Transfer>,
) -> Map<AccountId, VoterBalance>
    decreases t.len(),
{
    if t.len() == 0 {
        m
    } else {
        credit_one(reward_state(m, voters, share, t.drop_last()), voters[t.len() - 1], moved_of(share, lost_of(t.last())))
    }
}

/// `t` are the transfers a reward of `voters` asks of the ledger, in order:
/// `share` from the pot to each voter.
pub open spec fn reward_calls(voters: Seq<AccountId>, pot: AccountId, share: Balance, t: Seq<Transfer>) -> bool {
    &&& t.len() <= voters.len()
    &&& forall|i: int|
        0 <= i < t.len() ==> (#[trigger] t[i]).0 == pot && t[i].1 == voters[i] && t[i].2 == share
}

/// The even share of `total` among `n` accounts, rounded down; the rest
/// stays in the pot.
pub open spec fn share_of(total: Balance, n: nat) -> Balance {
    if n == 0 {
        0
    } else {
        (total as nat / n) as u128
    }
}

/// The summed weight of the votes for `c`.
pub open spec fn weight_of(votes: Seq<(AccountId, u8, Vote)>, c: Vote) -> int
    decreases votes.len(),
{
    if votes.len() == 0 {
        0
    } else {
        weight_of(votes.drop_last(), c) + (if votes.last().2 == c { votes.last().1 as int } else { 0 })
    }
}

/// Where the votes for `c` weigh something, someone voted for `c`.
pub proof fn lemma_weight_has_voter(votes: Seq<(AccountId, u8, Vote)>, c: Vote)
    requires
        weight_of(votes, c) > 0,
    ensures
        chosen(votes, c).len() > 0,
    decreases votes.len(),
{
    if votes.last().2 != c {
        lemma_weight_has_voter(votes.drop_last(), c);
    }
}

/// Refunds keep every member within the cap.
pub proof fn lemma_refund_within_cap(m: Map<AccountId, VoterBalance>, votes: Seq<(AccountId, u8, Vote)>, max: u8)
    requires
        within_cap(m, max),
    ensures
        within_cap(refund_all(m, votes, max), max),
    decreases votes.len(),
{
    if votes.len() > 0 {
        lemma_refund_within_cap(m, votes.drop_last(), max);
        let m1 = refund_all(m, votes.drop_last(), max);
        let r = refund_all(m, votes, max);
        assert forall|a: AccountId| #[trigger] r.contains_key(a) implies r[a].voting_tokens <= max by {
            if a != votes.last().0 {
                assert(m1.contains_key(a));
            }
        }
    }
}

/// The accounts of the votes for `c`, in order.
pub fn chosen_voters(votes: &Vec<(AccountId, u8, Vote)>, c: Vote) -> (r: Vec<AccountId>)
    ensures
        r@ == chosen(votes@, c),
{
    let mut r: Vec<AccountId> = Vec::new();
    let mut i: usize = 0;
    while i < votes.len()
        invariant
            0 <= i <= votes@.len(),
            r@ == chosen(votes@.subrange(0, i as int), c),
        decreases votes@.len() - i,
    {
        proof {
            assert(votes@.subrange(0, i as int + 1).drop_last() =~= votes@.subrange(0, i as int));
        }
        if votes[i].2 == c {
            r.push(votes[i].0);
        }
        i = i + 1;
    }
    proof {
        assert(votes@.subrange(0, votes@.len() as int) =~= votes@);
    }
    r
}

/// The accounts of all the votes, in order.
pub fn all_voters(votes: &Vec<(AccountId, u8, Vote)>) -> (r: Vec<AccountId>)
    ensures
        r@ == voters(votes@),
{
    let mut r: Vec<AccountId> = Vec::new();
    let mut i: usize = 0;
    while i < votes.len()
        invariant
            0 <= i <= votes@.len(),
            r@ == voters(votes@.subrange(0, i as int)),
        decreases votes@.len() - i,
    {
        r.push(votes[i].0);
        proof {
            assert(r@ =~= voters(votes@.subrange(0, i as int + 1)));
        }
        i = i + 1;
    }
    proof {
        assert(votes@.subrange(0, votes@.len() as int) =~= votes@);
    }
    r
}

/// The voters slashed when `p` is settled.
pub fn losing_side(p: &Proposal) -> (r: Vec<AccountId>)
    ensures
        r@ == losers(*p),
{
    if p.ayes > p.nays {
        chosen_voters(&p.votes, Vote::No)
    } else if p.ayes < p.nays {
        chosen_voters(&p.votes, Vote::Yes)
    } else {
        all_voters(&p.votes)
    }
}

/// The accounts rewarded when `p` is settled.
pub fn winning_side(p: &Proposal) -> (r: Vec<AccountId>)
    ensures
        r@ == winners(*p),
{
    if p.ayes > p.nays {
        chosen_voters(&p.votes, Vote::Yes)
    } else if p.ayes < p.nays {
        chosen_voters(&p.votes, Vote::No)
    } else {
        let mut r: Vec<AccountId> = Vec::new();
        r.push(p.proposer);
        proof {
            assert(r@ =~= seq![p.proposer]);
        }
        r
    }
}

/// What a slash asks of the ledger for recorded collateral `stake`.
pub fn slash_request(stake: Balance) -> (r: Balance)
    ensures
        r == stake / 10,
{
    stake / 10
}

/// The even share of `total` among `n` winners, rounded down.
pub fn reward_share(total: Balance, n: usize) -> (r: Balance)
    ensures
        r == share_of(total, n as nat),
{
    if n == 0 {
        0
    } else {
        total / (n as u128)
    }
}

/// What the ledger moved of `asked`, having reported `lost` as not moved.
pub fn moved_amount(asked: Balance, lost: Balance) -> (r: Balance)
    ensures
        r == moved_of(asked, lost),
{
    asked.saturating_sub(lost)
}

/// A member's record once `moved` was slashed from it.
pub fn after_slash(b: VoterBalance, moved: Balance) -> (r: VoterBalance)
    ensures
        r == (VoterBalance { reserved_balance: sat_sub(b.reserved_balance, moved), ..b }),
{
    VoterBalance { voting_tokens: b.voting_tokens, reserved_balance: b.reserved_balance.saturating_sub(moved) }
}

/// A member's record once `moved` was handed to it.
pub fn after_reward(b: VoterBalance, moved: Balance) -> (r: VoterBalance)
    ensures
        r == (VoterBalance { reserved_balance: sat_add(b.reserved_balance, moved), ..b }),
{
    VoterBalance { voting_tokens: b.voting_tokens, reserved_balance: b.reserved_balance.saturating_add(moved) }
}

/// Gives every voter the cost of their vote back, capped at `max`.
pub fn refund_votes(members: &mut Store<AccountId, VoterBalance>, votes: &Vec<(AccountId, u8, Vote)>, max: u8)
    requires
        old(members).wf(),
        forall|i: int| 0 <= i < votes@.len() ==> cost(#[trigger] votes@[i].1) <= max,
    ensures
        final(members).wf(),
        final(members)@ == refund_all(old(members)@, votes@, max),
        within_cap(old(members)@, max) ==> within_cap(final(members)@, max),
{
    proof {
        if within_cap(old(members)@, max) {
            lemma_refund_within_cap(old(members)@, votes@, max);
        }
    }
    let mut i: usize = 0;
    while i < votes.len()
        invariant
            0 <= i <= votes@.len(),
            members.wf(),
            members@ == refund_all(old(members)@, votes@.subrange(0, i as int), max),
            forall|j: int| 0 <= j < votes@.len() ==> cost(#[trigger] votes@[j].1) <= max,
        decreases votes@.len() - i,
    {
        let a: AccountId = votes[i].0;
        let w: u8 = votes[i].1;
        proof {
            assert(votes@.subrange(0, i as int + 1).drop_last() =~= votes@.subrange(0, i as int));
            assert(cost(votes@[i as int].1) <= max);
            assert((w as u16) * (w as u16) <= 255) by (nonlinear_arith)
                requires
                    (w as int) * (w as int) <= max,
                    max <= 255,
            ;
        }
        let price: u16 = w as u16 * w as u16;
        match members.get(&a) {
            Some(b) => {
                let total: u16 = b.voting_tokens as u16 + price;
                let capped: u8 = if total >= max as u16 {
                    max
                } else {
                    total as u8
                };
                let nb = VoterBalance { voting_tokens: capped, reserved_balance: b.reserved_balance };
                members.insert(a, nb);
            },
            None => {},
        }
        i = i + 1;
    }
    proof {
        assert(votes@.subrange(0, votes@.len() as int) =~= votes@);
    }
}

} // verus!
