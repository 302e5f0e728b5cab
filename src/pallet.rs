//! The committee: membership, proposals, the commit and reveal of votes, and
//! the settlement that closes a proposal.
use crate::external::{
    blake2_256, blake2_256_of, compact_len, encode_bytes, encode_choice_salt, le_bytes_u32, sr25519_signs,
    verify_sr25519,
};
use crate::store::{Key, Store};
use crate::tally::{
    lost_of, moved_of, sat_sub,
    after_reward, after_slash, all_answered, cost, extends, grant, losers, losing_side, moved_amount,
    new_calls, refund_all, refund_votes, refused_last, reward_calls, reward_share, reward_state, share_of,
    slash_calls, slash_request, slash_state, slash_total, voters, weight_of, winners, winning_side,
    within_cap, lemma_weight_has_voter,
};
use crate::types::{
    AccountId, Balance, BlockNumber, Commit, Config, Data, Error, IdentityProvider, Proposal,
    ProposalHash, ReservableCurrency, Transfer, Vote, VoteToken, VoterBalance,
};
use vstd::prelude::*;

verus! {

/// `Ok(())` where no error is given, the error otherwise.
pub open spec fn outcome(e: Option<Error>) -> Result<(), Error> {
    match e {
        Some(e) => Err(e),
        None => Ok(()),
    }
}

/// The bytes a proposal's title is hashed from: the tag of `Data::Raw`, then
/// the SCALE encoding of the title bytes.
pub open spec fn encoded_title(bytes: Seq<u8>) -> Seq<u8> {
    seq![0u8] + compact_len(bytes.len()) + bytes
}

/// The identifier of a proposal with the given title bytes.
pub open spec fn title_hash(bytes: Seq<u8>) -> Seq<u8> {
    blake2_256_of(encoded_title(bytes))
}

/// A proposal's tallies are the summed weights of its votes for each side,
/// its revealed votes are one per voter, `revealed` lists their voters, and
/// every weight is one a member could pay for.
pub open spec fn proposal_consistent(p: Proposal, max: u8) -> bool {
    &&& p.ayes == weight_of(p.votes@, Vote::Yes)
    &&& p.nays == weight_of(p.votes@, Vote::No)
    &&& p.revealed@ == voters(p.votes@)
    &&& voters(p.votes@).no_duplicates()
    &&& forall|i: int| 0 <= i < p.votes@.len() ==> cost(#[trigger] p.votes@[i].1) <= max
}

/// A commitment carries a weight of at least one that a member could pay for.
pub open spec fn commit_consistent(c: Commit, max: u8) -> bool {
    &&& c.number >= 1
    &&& cost(c.number) <= max
}

/// `len` blocks after `now`, or the last block where that would overflow.
pub open spec fn block_after(now: BlockNumber, len: BlockNumber) -> BlockNumber {
    if now + len > u64::MAX {
        u64::MAX
    } else {
        (now + len) as u64
    }
}

/// A proposal as it is made: no votes, no reveal phase, not closed.
pub open spec fn fresh_proposal(p: Proposal, title: Data, proposer: AccountId, poll_end: BlockNumber) -> bool {
    &&& p.title == title
    &&& p.proposer == proposer
    &&& p.ayes == 0
    &&& p.nays == 0
    &&& p.poll_end == poll_end
    &&& p.reveal_end is None
    &&& p.votes@.len() == 0
    &&& p.revealed@.len() == 0
    &&& p.payout == 0
    &&& !p.closed
}

/// Two arrays with the same bytes are the same array.
proof fn lemma_same_bytes(a: [u8; 32], b: [u8; 32])
    requires
        a@ == b@,
    ensures
        a == b,
{
    broadcast use vstd::array::group_array_axioms, vstd::array::lemma_array_index;
    assert(a =~= b);
}

/// The bytes a voter signs when committing: the choice, then the salt.
pub open spec fn reveal_payload(vote: Vote, salt: u32) -> Seq<u8> {
    seq![vote.index()] + le_bytes_u32(salt)
}

/// Whether counting a vote of weight `w` for `vote` keeps the tally in range.
pub open spec fn tally_fits(p: Proposal, vote: Vote, w: u8) -> bool {
    match vote {
        Vote::Yes => p.ayes + w <= u32::MAX,
        Vote::No => p.nays + w <= u32::MAX,
    }
}

/// `q` is `p` with the vote of `who`, of weight `w` for `vote`, counted.
pub open spec fn counted(q: Proposal, p: Proposal, who: AccountId, w: u8, vote: Vote) -> bool {
    &&& q.ayes == (if vote == Vote::Yes { p.ayes + w } else { p.ayes as int })
    &&& q.nays == (if vote == Vote::No { p.nays + w } else { p.nays as int })
    &&& q.votes@ == p.votes@.push((who, w, vote))
    &&& q.revealed@ == p.revealed@.push(who)
    &&& q.title == p.title
    &&& q.proposer == p.proposer
    &&& q.poll_end == p.poll_end
    &&& q.reveal_end == p.reveal_end
    &&& q.payout == p.payout
    &&& q.closed == p.closed
}

/// Setting one member's balance within the cap keeps every balance within it.
proof fn lemma_insert_within_cap(m: Map<AccountId, VoterBalance>, who: AccountId, b: VoterBalance, max: u8)
    requires
        within_cap(m, max),
        b.voting_tokens <= max,
    ensures
        within_cap(m.insert(who, b), max),
{
    assert forall|a: AccountId| #[trigger] m.insert(who, b).contains_key(a) implies m.insert(who, b)[a].voting_tokens <= max by {
        if a != who {
            assert(m.contains_key(a));
        }
    }
}

/// The setup of a committee's ledger before its first request.
pub struct GenesisConfig;

impl GenesisConfig {
    /// Makes sure the pot account of `pallet` exists on the ledger: tops its
    /// free balance up to the minimum where it holds less. Returns whether it
    /// did.
    pub fn build<C: ReservableCurrency>(&self, pallet: &Pallet, currency: &mut C) -> (r: bool) {
        let pot = pallet.account_id();
        let min = currency.minimum_balance();
        if currency.free_balance(&pot) < min {
            currency.make_free_balance_be(&pot, min);
            true
        } else {
            false
        }
    }
}

/// The committee's state.
pub struct Pallet {
    config: Config,
    proposals: Vec<ProposalHash>,
    proposal_data: Store<ProposalHash, Proposal>,
    members: Store<AccountId, VoterBalance>,
    commits: Store<(AccountId, ProposalHash), Commit>,
    log: Ghost<Seq<Transfer>>,
}

impl Pallet {
    /// The constants the committee was set up with.
    pub closed spec fn settings(&self) -> Config {
        self.config
    }

    /// The members and their balances.
    pub closed spec fn member_map(&self) -> Map<AccountId, VoterBalance> {
        self.members@
    }

    /// The proposals by identifier.
    pub closed spec fn proposal_map(&self) -> Map<ProposalHash, Proposal> {
        self.proposal_data@
    }

    /// The outstanding commitments by voter and proposal.
    pub closed spec fn commit_map(&self) -> Map<(AccountId, ProposalHash), Commit> {
        self.commits@
    }

    /// The identifiers of the proposals, in the order they were made.
    pub closed spec fn proposal_list(&self) -> Seq<ProposalHash> {
        self.proposals@
    }

    /// The transfers between reserves this committee asked of the ledger,
    /// with the ledger's answers, in order.
    pub closed spec fn ledger_log(&self) -> Seq<Transfer> {
        self.log@
    }

    /// No member holds more credits than the maximum.
    pub open spec fn credits_bounded(&self) -> bool {
        within_cap(self.member_map(), self.settings().max_voting_tokens)
    }

    /// The rules every state of the committee keeps.
    pub open spec fn consistent(&self) -> bool {
        &&& self.credits_bounded()
        &&& forall|h: ProposalHash|
            #[trigger] self.proposal_map().contains_key(h) ==> proposal_consistent(
                self.proposal_map()[h],
                self.settings().max_voting_tokens,
            )
        &&& forall|k: (AccountId, ProposalHash)|
            #[trigger] self.commit_map().contains_key(k) ==> commit_consistent(
                self.commit_map()[k],
                self.settings().max_voting_tokens,
            )
        &&& forall|h: ProposalHash|
            #[trigger] self.proposal_map().contains_key(h) <==> self.proposal_list().contains(h)
    }

    pub closed spec fn wf(&self) -> bool {
        &&& self.members.wf()
        &&& self.proposal_data.wf()
        &&& self.commits.wf()
        &&& self.consistent()
    }

    /// Everything but the members is as in `other`.
    pub open spec fn same_but_members(&self, other: &Pallet) -> bool {
        &&& self.settings() == other.settings()
        &&& self.proposal_list() == other.proposal_list()
        &&& self.proposal_map() == other.proposal_map()
        &&& self.commit_map() == other.commit_map()
    }

    /// The same committee as `other`, seen through its maps.
    pub open spec fn same_state(&self, other: &Pallet) -> bool {
        &&& self.same_but_members(other)
        &&& self.member_map() == other.member_map()
    }

    pub open spec fn join_error(&self, who: AccountId, has_identity: bool, can_reserve: bool) -> Option<Error> {
        if self.member_map().contains_key(who) {
            Some(Error::AlreadyMember)
        } else if !has_identity {
            Some(Error::NoIdentity)
        } else if !can_reserve {
            Some(Error::NotEnoughFunds)
        } else {
            None
        }
    }

    pub open spec fn leave_error(&self, who: AccountId, has_identity: bool) -> Option<Error> {
        if !has_identity {
            Some(Error::NoIdentity)
        } else if exists|h: ProposalHash| self.commit_map().contains_key((who, h)) {
            Some(Error::InMotion)
        } else {
            None
        }
    }

    pub open spec fn create_error(&self, who: AccountId, hash: Seq<u8>, duration: BlockNumber) -> Option<Error> {
        if !self.member_map().contains_key(who) {
            Some(Error::NotMember)
        } else if duration < self.settings().min_length {
            Some(Error::WrongProposalLength)
        } else if self.proposal_list().len() >= self.settings().max_proposals {
            Some(Error::TooManyProposals)
        } else if exists|i: int| 0 <= i < self.proposal_list().len() && self.proposal_list()[i]@ == hash {
            Some(Error::DuplicateProposal)
        } else {
            None
        }
    }

    pub open spec fn commit_error(
        &self,
        who: AccountId,
        h: ProposalHash,
        number: u8,
        now: BlockNumber,
    ) -> Option<Error> {
        if !self.member_map().contains_key(who) {
            Some(Error::NotMember)
        } else if number == 0 {
            Some(Error::InvalidArgument)
        } else if self.commit_map().contains_key((who, h)) {
            Some(Error::DuplicateVote)
        } else if !self.proposal_map().contains_key(h) {
            Some(Error::ProposalMissing)
        } else if self.proposal_map()[h].reveal_end is Some || now >= self.proposal_map()[h].poll_end {
            Some(Error::VoteEnded)
        } else if cost(number) > self.member_map()[who].voting_tokens {
            Some(Error::NotEnoughVotingTokens)
        } else {
            None
        }
    }

    pub open spec fn close_vote_error(&self, who: AccountId, h: ProposalHash, now: BlockNumber) -> Option<Error> {
        if !self.member_map().contains_key(who) {
            Some(Error::NotMember)
        } else if !self.proposal_map().contains_key(h) {
            Some(Error::ProposalMissing)
        } else if self.proposal_map()[h].reveal_end is Some {
            Some(Error::VoteAlreadyEnded)
        } else if now < self.proposal_map()[h].poll_end {
            Some(Error::TooEarly)
        } else {
            None
        }
    }

    /// A change to the members alone that keeps credits within the cap keeps
    /// the committee well formed.
    proof fn lemma_members_only(&self, before: &Pallet)
        requires
            before.wf(),
            self.members.wf(),
            self.proposal_data.wf(),
            self.commits.wf(),
            self.credits_bounded(),
            self.same_but_members(before),
        ensures
            self.wf(),
    {
    }

    /// A change to the proposals alone, to one that keeps the rules, keeps
    /// the committee well formed.
    proof fn lemma_proposal_only(&self, before: &Pallet, h: ProposalHash, p: Proposal)
        requires
            before.wf(),
            self.proposal_data.wf(),
            before.proposal_map().contains_key(h),
            self.proposal_map() == before.proposal_map().insert(h, p),
            proposal_consistent(p, before.settings().max_voting_tokens),
            self.config == before.config,
            self.proposals == before.proposals,
            self.members == before.members,
            self.commits == before.commits,
        ensures
            self.wf(),
    {
        assert(self.member_map() == before.member_map());
        assert(self.commit_map() == before.commit_map());
        assert(self.proposal_list() == before.proposal_list());
        assert forall|k: ProposalHash| #[trigger] self.proposal_map().contains_key(k) implies proposal_consistent(
            self.proposal_map()[k],
            self.settings().max_voting_tokens,
        ) by {
            if k != h {
                assert(before.proposal_map().contains_key(k));
            }
        }
        assert forall|k: ProposalHash| #[trigger] self.proposal_map().contains_key(k) <==> self.proposal_list().contains(k) by {
            if k != h {
                assert(self.proposal_map().contains_key(k) == before.proposal_map().contains_key(k));
            }
        }
    }

    /// The identifier of a proposal with the given title: the Blake2-256
    /// digest of the title's SCALE encoding.
    pub fn proposal_hash(title: &Data) -> (r: ProposalHash)
        requires
            title.wf(),
        ensures
            r@ == title_hash(title.bytes()),
    {
        match title {
            Data::Raw(bytes) => {
                let mut encoded = encode_bytes(bytes);
                let mut data: Vec<u8> = Vec::new();
                data.push(0u8);
                data.append(&mut encoded);
                proof {
                    assert(data@ =~= encoded_title(bytes@));
                }
                blake2_256(&data)
            },
        }
    }

    /// Whether `h` is among the proposals.
    fn listed(&self, h: &ProposalHash) -> (r: bool)
        ensures
            r == self.proposal_list().contains(*h),
    {
        let mut i: usize = 0;
        while i < self.proposals.len()
            invariant
                0 <= i <= self.proposals@.len(),
                forall|j: int| 0 <= j < i ==> self.proposals@[j] != *h,
            decreases self.proposals@.len() - i,
        {
            if self.proposals[i].same(h) {
                return true;
            }
            i = i + 1;
        }
        false
    }

    /// What joining gives, once the identity check and the ledger answered.
    pub fn join_check(&self, who: &AccountId, has_identity: bool, can_reserve: bool) -> (r: Result<(), Error>)
        requires
            self.wf(),
        ensures
            r == outcome(self.join_error(*who, has_identity, can_reserve)),
    {
        if self.is_member(who) {
            Err(Error::AlreadyMember)
        } else if !has_identity {
            Err(Error::NoIdentity)
        } else if !can_reserve {
            Err(Error::NotEnoughFunds)
        } else {
            Ok(())
        }
    }

    /// Joins the committee: reserves the deposit and grants the full credits.
    pub fn join_committee<I: IdentityProvider, C: ReservableCurrency>(
        &mut self,
        identity: &I,
        currency: &mut C,
        who: AccountId,
    ) -> (r: Result<(), Error>)
        requires
            old(self).wf(),
        ensures
            final(self).wf(),
            old(self).member_map().contains_key(who) <==> r == Err::<(), Error>(Error::AlreadyMember),
            match r {
                Ok(()) => {
                    &&& final(self).same_but_members(&*old(self))
                    &&& final(self).member_map() == old(self).member_map().insert(
                        who,
                        VoterBalance {
                            voting_tokens: old(self).settings().max_voting_tokens,
                            reserved_balance: old(self).settings().basic_deposit,
                        },
                    )
                },
                Err(e) => {
                    &&& *final(self) == *old(self)
                    &&& e == Error::AlreadyMember || e == Error::NoIdentity || e
                        == Error::NotEnoughFunds || e == Error::Ledger
                },
            },
    {
        let has_identity = identity.check_existence(&who);
        let deposit = self.config.basic_deposit;
        let can_reserve = currency.can_reserve(&who, deposit);
        match self.join_check(&who, has_identity, can_reserve) {
            Err(e) => {
                return Err(e);
            },
            Ok(()) => {},
        }
        match currency.reserve(&who, deposit) {
            Err(_) => {
                return Err(Error::Ledger);
            },
            Ok(()) => {},
        }
        let b = VoterBalance { voting_tokens: self.config.max_voting_tokens, reserved_balance: deposit };
        proof {
            lemma_insert_within_cap(self.member_map(), who, b, self.settings().max_voting_tokens);
        }
        self.members.insert(who, b);
        proof {
            self.lemma_members_only(old(self));
        }
        Ok(())
    }

    /// What leaving gives, once the identity check answered.
    pub fn leave_check(&self, who: &AccountId, has_identity: bool) -> (r: Result<(), Error>)
        requires
            self.wf(),
        ensures
            r == outcome(self.leave_error(*who, has_identity)),
    {
        if !has_identity {
            return Err(Error::NoIdentity);
        }
        let busy = self.commits.has_first(who);
        proof {
            if busy {
                let b = choose|b: ProposalHash| self.commits@.contains_key((*who, b));
                assert(self.commit_map().contains_key((*who, b)));
            } else {
                assert forall|h: ProposalHash| !self.commit_map().contains_key((*who, h)) by {
                    assert(!self.commits@.contains_key((*who, h)));
                }
            }
        }
        if busy {
            Err(Error::InMotion)
        } else {
            Ok(())
        }
    }

    /// Leaves the committee: releases the recorded collateral and forgets the
    /// member.
    pub fn leave_committee<I: IdentityProvider, C: ReservableCurrency>(
        &mut self,
        identity: &I,
        currency: &mut C,
        who: AccountId,
    ) -> (r: Result<(), Error>)
        requires
            old(self).wf(),
        ensures
            final(self).wf(),
            (exists|h: ProposalHash| old(self).commit_map().contains_key((who, h))) ==> r is Err,
            match r {
                Ok(()) => {
                    &&& final(self).same_but_members(&*old(self))
                    &&& final(self).member_map() == old(self).member_map().remove(who)
                },
                Err(e) => {
                    &&& *final(self) == *old(self)
                    &&& e == Error::NoIdentity || e == Error::InMotion
                },
            },
    {
        let has_identity = identity.check_existence(&who);
        match self.leave_check(&who, has_identity) {
            Err(e) => {
                return Err(e);
            },
            Ok(()) => {},
        }
        let stake: Balance = match self.members.get(&who) {
            Some(b) => b.reserved_balance,
            None => 0,
        };
        let _ = currency.unreserve(&who, stake);
        let _ = self.members.remove(&who);
        proof {
            assert forall|a: AccountId| #[trigger] self.member_map().contains_key(a) implies
                self.member_map()[a].voting_tokens <= self.settings().max_voting_tokens by {
                assert(old(self).member_map().contains_key(a));
            }
            self.lemma_members_only(old(self));
        }
        Ok(())
    }

    /// Makes a proposal open to votes for `duration` blocks from `now`.
    pub fn create_proposal(
        &mut self,
        who: AccountId,
        title: Data,
        duration: BlockNumber,
        now: BlockNumber,
    ) -> (r: Result<(), Error>)
        requires
            old(self).wf(),
            title.wf(),
        ensures
            final(self).wf(),
            r == outcome(old(self).create_error(who, title_hash(title.bytes()), duration)),
            r is Ok ==> {
                let h = final(self).proposal_list().last();
                &&& h@ == title_hash(title.bytes())
                &&& final(self).proposal_list() == old(self).proposal_list().push(h)
                &&& final(self).proposal_map() == old(self).proposal_map().insert(
                    h,
                    final(self).proposal_map()[h],
                )
                &&& fresh_proposal(final(self).proposal_map()[h], title, who, block_after(now, duration))
                &&& final(self).settings() == old(self).settings()
                &&& final(self).member_map() == old(self).member_map()
                &&& final(self).commit_map() == old(self).commit_map()
            },
            r is Err ==> *final(self) == *old(self),
    {
        if !self.is_member(&who) {
            return Err(Error::NotMember);
        }
        if duration < self.config.min_length {
            return Err(Error::WrongProposalLength);
        }
        if self.proposals.len() >= self.config.max_proposals as usize {
            return Err(Error::TooManyProposals);
        }
        let h = Self::proposal_hash(&title);
        if self.listed(&h) {
            proof {
                let i = choose|i: int| 0 <= i < self.proposals@.len() && self.proposals@[i] == h;
                assert(self.proposal_list()[i]@ == title_hash(title.bytes()));
            }
            return Err(Error::DuplicateProposal);
        }
        proof {
            assert forall|i: int| 0 <= i < self.proposal_list().len() implies self.proposal_list()[i]@
                != title_hash(title.bytes()) by {
                if self.proposal_list()[i]@ == title_hash(title.bytes()) {
                    lemma_same_bytes(self.proposal_list()[i], h);
                }
            }
        }
        let poll_end = now.saturating_add(duration);
        let proposal = Proposal {
            title,
            proposer: who,
            ayes: 0,
            nays: 0,
            poll_end,
            reveal_end: None,
            votes: Vec::new(),
            revealed: Vec::new(),
            payout: 0,
            closed: false,
        };
        proof {
            assert(proposal.revealed@ =~= voters(proposal.votes@));
            assert(!self.proposal_map().contains_key(h));
        }
        self.proposals.push(h);
        self.proposal_data.insert(h, proposal);
        proof {
            let max = self.settings().max_voting_tokens;
            assert(self.member_map() == old(self).member_map());
            assert(self.commit_map() == old(self).commit_map());
            assert forall|k: ProposalHash| #[trigger] self.proposal_map().contains_key(k) implies proposal_consistent(
                self.proposal_map()[k],
                max,
            ) by {
                if k != h {
                    assert(old(self).proposal_map().contains_key(k));
                }
            }
            assert forall|k: ProposalHash| #[trigger] self.proposal_map().contains_key(k) <==> self.proposal_list().contains(k) by {
                if k != h {
                    assert(self.proposal_map().contains_key(k) == old(self).proposal_map().contains_key(k));
                    if old(self).proposal_list().contains(k) {
                        let i = choose|i: int| 0 <= i < old(self).proposal_list().len() && old(self).proposal_list()[i] == k;
                        assert(self.proposal_list()[i] == k);
                    }
                    if self.proposal_list().contains(k) {
                        let i = choose|i: int| 0 <= i < self.proposal_list().len() && self.proposal_list()[i] == k;
                        assert(old(self).proposal_list()[i] == k);
                    }
                } else {
                    assert(self.proposal_list()[self.proposal_list().len() - 1] == h);
                }
            }
            assert(self.proposal_map() =~= old(self).proposal_map().insert(h, self.proposal_map()[h]));
        }
        Ok(())
    }

    /// Commits a hidden vote of weight `number` on `proposal`, paying
    /// `number * number` credits for it.
    pub fn commit_vote(
        &mut self,
        who: AccountId,
        proposal: ProposalHash,
        data: [u8; 64],
        number: VoteToken,
        salt: u32,
        now: BlockNumber,
    ) -> (r: Result<(), Error>)
        requires
            old(self).wf(),
        ensures
            final(self).wf(),
            r == outcome(old(self).commit_error(who, proposal, number, now)),
            r is Ok ==> {
                &&& final(self).settings() == old(self).settings()
                &&& final(self).proposal_list() == old(self).proposal_list()
                &&& final(self).proposal_map() == old(self).proposal_map()
                &&& final(self).member_map() == old(self).member_map().insert(
                    who,
                    VoterBalance {
                        voting_tokens: (old(self).member_map()[who].voting_tokens - cost(number)) as u8,
                        ..old(self).member_map()[who]
                    },
                )
                &&& final(self).commit_map() == old(self).commit_map().insert(
                    (who, proposal),
                    Commit { signature: data, number, salt },
                )
            },
            r is Err ==> *final(self) == *old(self),
    {
        if !self.is_member(&who) {
            return Err(Error::NotMember);
        }
        if number == 0 {
            return Err(Error::InvalidArgument);
        }
        if self.already_committed_and_exist(&who, &proposal) {
            return Err(Error::DuplicateVote);
        }
        match self.proposal_data.get(&proposal) {
            None => {
                return Err(Error::ProposalMissing);
            },
            Some(p) => {
                if p.reveal_end.is_some() || now >= p.poll_end {
                    return Err(Error::VoteEnded);
                }
            },
        }
        proof {
            assert((number as u16) * (number as u16) <= 65025) by (nonlinear_arith)
                requires
                    number <= 255,
            ;
        }
        let price: u16 = number as u16 * number as u16;
        let credits: u8 = match self.members.get(&who) {
            Some(b) => b.voting_tokens,
            None => 0,
        };
        if price > credits as u16 {
            return Err(Error::NotEnoughVotingTokens);
        }
        let ok = self.decrease_votes(&who, price as u8);
        let c = Commit { signature: data, number, salt };
        proof {
            assert(commit_consistent(c, self.settings().max_voting_tokens));
        }
        self.commits.insert((who, proposal), c);
        proof {
            let max = self.settings().max_voting_tokens;
            assert forall|k: (AccountId, ProposalHash)| #[trigger] self.commit_map().contains_key(k) implies commit_consistent(
                self.commit_map()[k],
                max,
            ) by {
                if k != (who, proposal) {
                    assert(old(self).commit_map().contains_key(k));
                }
            }
            assert forall|k: ProposalHash| #[trigger] self.proposal_map().contains_key(k) implies proposal_consistent(
                self.proposal_map()[k],
                max,
            ) by {
                assert(old(self).proposal_map().contains_key(k));
            }
        }
        Ok(())
    }

    /// Ends the commit phase of a proposal whose poll is over and opens its
    /// reveal phase.
    pub fn close_vote(&mut self, who: AccountId, proposal: ProposalHash, now: BlockNumber) -> (r: Result<(), Error>)
        requires
            old(self).wf(),
        ensures
            final(self).wf(),
            r == outcome(old(self).close_vote_error(who, proposal, now)),
            r is Ok ==> {
                &&& final(self).settings() == old(self).settings()
                &&& final(self).proposal_list() == old(self).proposal_list()
                &&& final(self).member_map() == old(self).member_map()
                &&& final(self).commit_map() == old(self).commit_map()
                &&& final(self).proposal_map() == old(self).proposal_map().insert(
                    proposal,
                    Proposal {
                        reveal_end: Some(block_after(now, old(self).settings().reveal_length)),
                        ..old(self).proposal_map()[proposal]
                    },
                )
            },
            r is Err ==> *final(self) == *old(self),
    {
        if !self.is_member(&who) {
            return Err(Error::NotMember);
        }
        match self.proposal_data.get(&proposal) {
            None => {
                return Err(Error::ProposalMissing);
            },
            Some(p) => {
                if p.reveal_end.is_some() {
                    return Err(Error::VoteAlreadyEnded);
                }
                if now < p.poll_end {
                    return Err(Error::TooEarly);
                }
            },
        }
        let reveal_end = now.saturating_add(self.config.reveal_length);
        match self.proposal_data.remove(&proposal) {
            Some(p) => {
                let mut p = p;
                p.reveal_end = Some(reveal_end);
                self.proposal_data.insert(proposal, p);
                proof {
                    assert(self.proposal_map() =~= old(self).proposal_map().insert(proposal, p));
                    self.lemma_proposal_only(old(self), proposal, p);
                }
            },
            None => {},
        }
        Ok(())
    }

    /// Slashes each of `voters` in turn: asks the ledger to move a tenth of
    /// the collateral recorded for the voter into the pot, and takes off the
    /// record what the ledger moved. Returns the total moved. On a refusal by
    /// the ledger it stops, and nothing changes here.
    pub fn slash_voting_side<C: ReservableCurrency>(
        &mut self,
        currency: &mut C,
        voters: &Vec<AccountId>,
    ) -> (r: Result<Balance, Error>)
        requires
            old(self).wf(),
        ensures
            final(self).wf(),
            extends(old(self).ledger_log(), final(self).ledger_log()),
            ({
                let t = new_calls(old(self).ledger_log(), final(self).ledger_log());
                let m0 = old(self).member_map();
                &&& slash_calls(m0, voters@, old(self).settings().pot, t)
                &&& match r {
                    Ok(payout) => {
                        &&& t.len() == voters@.len()
                        &&& all_answered(t)
                        &&& final(self).same_but_members(&*old(self))
                        &&& final(self).member_map() == slash_state(m0, voters@, t)
                        &&& payout == slash_total(m0, voters@, t)
                    },
                    Err(e) => {
                        &&& e == Error::Ledger
                        &&& refused_last(t)
                        &&& final(self).same_state(&*old(self))
                    },
                }
            }),
    {
        let ghost m0 = self.member_map();
        let ghost max = self.settings().max_voting_tokens;
        let ghost log0 = self.log@;
        let saved = self.members.copy();
        let pot = self.config.pot;
        let mut payout: Balance = 0;
        let mut i: usize = 0;
        proof {
            assert(self.log@.skip(log0.len() as int) =~= Seq::<Transfer>::empty());
        }
        while i < voters.len()
            invariant
                0 <= i <= voters@.len(),
                self.config == old(self).config,
                self.proposals == old(self).proposals,
                self.proposal_data == old(self).proposal_data,
                self.commits == old(self).commits,
                old(self).wf(),
                m0 == old(self).member_map(),
                max == old(self).settings().max_voting_tokens,
                pot == old(self).settings().pot,
                self.members.wf(),
                within_cap(self.members@, max),
                saved.wf(),
                saved@ == m0,
                log0 == old(self).ledger_log(),
                extends(log0, self.log@),
                ({
                    let t = new_calls(log0, self.log@);
                    &&& t.len() == i
                    &&& all_answered(t)
                    &&& slash_calls(m0, voters@, pot, t)
                    &&& self.members@ == slash_state(m0, voters@, t)
                    &&& payout == slash_total(m0, voters@, t)
                }),
            decreases voters@.len() - i,
        {
            let voter: AccountId = voters[i];
            let stake: Balance = match self.members.get(&voter) {
                Some(b) => b.reserved_balance,
                None => 0,
            };
            let slash = slash_request(stake);
            let ghost prev = self.log@;
            let answer = currency.repatriate_reserved(&voter, &pot, slash);
            self.log = Ghost(self.log@.push((voter, pot, slash, answer)));
            proof {
                let t0 = new_calls(log0, prev);
                let t1 = new_calls(log0, self.log@);
                assert(t1 =~= t0.push((voter, pot, slash, answer)));
                assert(t1.drop_last() =~= t0);
            }
            match answer {
                Err(_) => {
                    self.members = saved;
                    proof {
                        self.lemma_members_only(old(self));
                    }
                    return Err(Error::Ledger);
                },
                Ok(lost) => {
                    let moved = moved_amount(slash, lost);
                    match self.members.get(&voter) {
                        Some(b) => {
                            let nb = after_slash(*b, moved);
                            proof {
                                lemma_insert_within_cap(self.members@, voter, nb, max);
                            }
                            self.members.insert(voter, nb);
                        },
                        None => {},
                    }
                    payout = payout.saturating_add(moved);
                    proof {
                        let t1 = new_calls(log0, self.log@);
                        assert forall|j: int| 0 <= j < t1.len() implies (#[trigger] t1[j]).3 is Ok by {
                            if j < t1.len() - 1 {
                                assert(t1[j] == t1.drop_last()[j]);
                            }
                        }
                    }
                },
            }
            i = i + 1;
        }
        proof {
            self.lemma_members_only(old(self));
        }
        Ok(payout)
    }

    /// Hands each of `voters` an even share of `total` from the pot, rounded
    /// down, the rest staying in the pot; adds to the record what the ledger
    /// moved. On a refusal by the ledger it stops, and nothing changes here.
    pub fn reward_voting_side<C: ReservableCurrency>(
        &mut self,
        currency: &mut C,
        voters: &Vec<AccountId>,
        total: Balance,
    ) -> (r: Result<(), Error>)
        requires
            old(self).wf(),
        ensures
            final(self).wf(),
            extends(old(self).ledger_log(), final(self).ledger_log()),
            ({
                let t = new_calls(old(self).ledger_log(), final(self).ledger_log());
                let share = share_of(total, voters@.len());
                &&& reward_calls(voters@, old(self).settings().pot, share, t)
                &&& match r {
                    Ok(()) => {
                        &&& t.len() == voters@.len()
                        &&& all_answered(t)
                        &&& final(self).same_but_members(&*old(self))
                        &&& final(self).member_map() == reward_state(old(self).member_map(), voters@, share, t)
                    },
                    Err(e) => {
                        &&& e == Error::Ledger
                        &&& refused_last(t)
                        &&& final(self).same_state(&*old(self))
                    },
                }
            }),
    {
        let ghost m0 = self.member_map();
        let ghost max = self.settings().max_voting_tokens;
        let ghost log0 = self.log@;
        let n = voters.len();
        let share = reward_share(total, n);
        let saved = self.members.copy();
        let pot = self.config.pot;
        let mut i: usize = 0;
        proof {
            assert(self.log@.skip(log0.len() as int) =~= Seq::<Transfer>::empty());
        }
        while i < n
            invariant
                n == voters@.len(),
                0 <= i <= n,
                share == share_of(total, n as nat),
                self.config == old(self).config,
                self.proposals == old(self).proposals,
                self.proposal_data == old(self).proposal_data,
                self.commits == old(self).commits,
                old(self).wf(),
                m0 == old(self).member_map(),
                max == old(self).settings().max_voting_tokens,
                pot == old(self).settings().pot,
                self.members.wf(),
                within_cap(self.members@, max),
                saved.wf(),
                saved@ == m0,
                log0 == old(self).ledger_log(),
                extends(log0, self.log@),
                ({
                    let t = new_calls(log0, self.log@);
                    &&& t.len() == i
                    &&& all_answered(t)
                    &&& reward_calls(voters@, pot, share, t)
                    &&& self.members@ == reward_state(m0, voters@, share, t)
                }),
            decreases n - i,
        {
            let voter: AccountId = voters[i];
            let ghost prev = self.log@;
            let answer = currency.repatriate_reserved(&pot, &voter, share);
            self.log = Ghost(self.log@.push((pot, voter, share, answer)));
            proof {
                let t0 = new_calls(log0, prev);
                let t1 = new_calls(log0, self.log@);
                assert(t1 =~= t0.push((pot, voter, share, answer)));
                assert(t1.drop_last() =~= t0);
                assert forall|j: int| 0 <= j < t1.len() implies (#[trigger] t1[j]).0 == pot && t1[j].1
                    == voters@[j] && t1[j].2 == share by {
                    if j < t1.len() - 1 {
                        assert(t1[j] == t0[j]);
                    }
                }
            }
            match answer {
                Err(_) => {
                    self.members = saved;
                    proof {
                        self.lemma_members_only(old(self));
                    }
                    return Err(Error::Ledger);
                },
                Ok(lost) => {
                    let moved = moved_amount(share, lost);
                    match self.members.get(&voter) {
                        Some(b) => {
                            let nb = after_reward(*b, moved);
                            proof {
                                lemma_insert_within_cap(self.members@, voter, nb, max);
                            }
                            self.members.insert(voter, nb);
                        },
                        None => {},
                    }
                    proof {
                        let t1 = new_calls(log0, self.log@);
                        assert forall|j: int| 0 <= j < t1.len() implies (#[trigger] t1[j]).3 is Ok by {
                            if j < t1.len() - 1 {
                                assert(t1[j] == t1.drop_last()[j]);
                            }
                        }
                    }
                },
            }
            i = i + 1;
        }
        proof {
            self.lemma_members_only(old(self));
        }
        Ok(())
    }

    pub open spec fn reveal_precheck(&self, who: AccountId, h: ProposalHash) -> Option<Error> {
        if !self.member_map().contains_key(who) {
            Some(Error::NotMember)
        } else if !self.commit_map().contains_key((who, h)) {
            Some(Error::NoCommit)
        } else if !self.proposal_map().contains_key(h) {
            Some(Error::ProposalMissing)
        } else {
            None
        }
    }

    /// Whether a reveal on `h` at `now` comes too late: the proposal is
    /// closed, or its reveal phase ended before `now`.
    pub open spec fn reveal_is_late(&self, h: ProposalHash, now: BlockNumber) -> bool {
        let p = self.proposal_map()[h];
        p.closed || match p.reveal_end {
            Some(e) => now > e,
            None => false,
        }
    }

    pub open spec fn reveal_error(&self, who: AccountId, h: ProposalHash, vote: Vote) -> Option<Error> {
        let c = self.commit_map()[(who, h)];
        let p = self.proposal_map()[h];
        if !sr25519_signs(c.signature@, reveal_payload(vote, c.salt), who@) {
            Some(Error::SignatureInvalid)
        } else if p.revealed@.contains(who) {
            Some(Error::DuplicateVote)
        } else if !tally_fits(p, vote, c.number) {
            Some(Error::InvalidArgument)
        } else {
            None
        }
    }

    /// `after` is `before` once `who` revealed `vote` on `h` in time: the
    /// vote is counted and the commitment consumed.
    pub open spec fn revealed_in_time(&self, after: &Pallet, who: AccountId, h: ProposalHash, vote: Vote) -> bool {
        let c = self.commit_map()[(who, h)];
        &&& after.settings() == self.settings()
        &&& after.proposal_list() == self.proposal_list()
        &&& after.member_map() == self.member_map()
        &&& after.commit_map() == self.commit_map().remove((who, h))
        &&& after.proposal_map().contains_key(h)
        &&& after.proposal_map() == self.proposal_map().insert(h, after.proposal_map()[h])
        &&& counted(after.proposal_map()[h], self.proposal_map()[h], who, c.number, vote)
    }

    /// `after` is `before` once `who` revealed on `h` too late and the ledger
    /// answered the slash `x`: the voter loses what the ledger moved of a
    /// tenth of their collateral and gets the cost of the vote back, the vote
    /// is not counted, and the commitment is consumed.
    pub open spec fn revealed_late(&self, after: &Pallet, who: AccountId, h: ProposalHash, x: Transfer) -> bool {
        let c = self.commit_map()[(who, h)];
        let b = self.member_map()[who];
        let moved = moved_of((b.reserved_balance / 10) as u128, lost_of(x));
        &&& after.settings() == self.settings()
        &&& after.proposal_list() == self.proposal_list()
        &&& after.proposal_map() == self.proposal_map()
        &&& after.commit_map() == self.commit_map().remove((who, h))
        &&& after.member_map() == self.member_map().insert(
            who,
            VoterBalance {
                voting_tokens: grant(b.voting_tokens, cost(c.number), self.settings().max_voting_tokens),
                reserved_balance: sat_sub(b.reserved_balance, moved),
            },
        )
    }

    pub open spec fn close_reveal_error(&self, who: AccountId, h: ProposalHash, now: BlockNumber) -> Option<Error> {
        if !self.member_map().contains_key(who) {
            Some(Error::NotMember)
        } else if !self.proposal_map().contains_key(h) {
            Some(Error::ProposalMissing)
        } else if self.proposal_map()[h].reveal_end is None {
            Some(Error::RevealNotStarted)
        } else if self.proposal_map()[h].closed {
            Some(Error::RevealEnded)
        } else if now < self.proposal_map()[h].reveal_end->Some_0 {
            Some(Error::TooEarly)
        } else {
            None
        }
    }

    /// The members of `before` once the credits of the votes on `h` were
    /// refunded: where settlement starts from.
    pub open spec fn refunded(&self, h: ProposalHash) -> Map<AccountId, VoterBalance> {
        refund_all(self.member_map(), self.proposal_map()[h].votes@, self.settings().max_voting_tokens)
    }

    /// The share each winner of `h` is sent once the slashes answered in `t1`.
    pub open spec fn share_after(&self, h: ProposalHash, t1: Seq<Transfer>) -> Balance {
        let p = self.proposal_map()[h];
        share_of(slash_total(self.refunded(h), losers(p), t1), winners(p).len())
    }

    /// `t` are the transfers settling `h` asks of the ledger, in order: the
    /// slash of every loser, then, once all of them were answered, the share
    /// of every winner.
    pub open spec fn settlement_calls(&self, h: ProposalHash, t: Seq<Transfer>) -> bool {
        let p = self.proposal_map()[h];
        let k = losers(p).len();
        let pot = self.settings().pot;
        if t.len() <= k {
            slash_calls(self.refunded(h), losers(p), pot, t)
        } else {
            &&& slash_calls(self.refunded(h), losers(p), pot, t.take(k as int))
            &&& all_answered(t.take(k as int))
            &&& reward_calls(winners(p), pot, self.share_after(h, t.take(k as int)), t.skip(k as int))
        }
    }

    /// `after` is `before` once proposal `h` was settled and closed, the
    /// ledger having answered the transfers `t`: credits refunded, losers
    /// slashed by what the ledger moved, winners credited with what it moved
    /// of their share, and the total slashed recorded as the payout.
    pub open spec fn settled(&self, after: &Pallet, h: ProposalHash, t: Seq<Transfer>) -> bool {
        let p = self.proposal_map()[h];
        let k = losers(p).len();
        let t1 = t.take(k as int);
        let t2 = t.skip(k as int);
        &&& after.settings() == self.settings()
        &&& after.proposal_list() == self.proposal_list()
        &&& after.commit_map() == self.commit_map()
        &&& t.len() == k + winners(p).len()
        &&& after.member_map() == reward_state(
            slash_state(self.refunded(h), losers(p), t1),
            winners(p),
            self.share_after(h, t1),
            t2,
        )
        &&& after.proposal_map() == self.proposal_map().insert(
            h,
            Proposal { payout: slash_total(self.refunded(h), losers(p), t1), closed: true, ..p },
        )
    }

    /// Reveals the vote committed by `who` on `proposal`. In time, the
    /// signature must bind `vote` to the commitment and the vote is counted;
    /// after the reveal phase the voter is slashed instead and gets the
    /// credits of the vote back. Either way the commitment is consumed.
    pub fn reveal_vote<C: ReservableCurrency>(
        &mut self,
        currency: &mut C,
        who: AccountId,
        proposal: ProposalHash,
        vote: Vote,
        now: BlockNumber,
    ) -> (r: Result<(), Error>)
        requires
            old(self).wf(),
        ensures
            final(self).wf(),
            extends(old(self).ledger_log(), final(self).ledger_log()),
            old(self).reveal_precheck(who, proposal) is Some ==> r == outcome(
                old(self).reveal_precheck(who, proposal),
            ),
            old(self).reveal_precheck(who, proposal) is None && !old(self).reveal_is_late(proposal, now)
                ==> r == outcome(old(self).reveal_error(who, proposal, vote)),
            old(self).reveal_precheck(who, proposal) is Some || !old(self).reveal_is_late(proposal, now)
                ==> final(self).ledger_log() == old(self).ledger_log(),
            old(self).reveal_precheck(who, proposal) is None && old(self).reveal_is_late(proposal, now) ==> {
                let t = new_calls(old(self).ledger_log(), final(self).ledger_log());
                &&& t.len() == 1
                &&& t[0].0 == who
                &&& t[0].1 == old(self).settings().pot
                &&& t[0].2 == old(self).member_map()[who].reserved_balance / 10
                &&& (r is Ok <==> t[0].3 is Ok)
                &&& (r is Err ==> r == Err::<(), Error>(Error::Ledger))
                &&& (r is Ok ==> old(self).revealed_late(&*final(self), who, proposal, t[0]))
            },
            r is Ok && !old(self).reveal_is_late(proposal, now) ==> old(self).revealed_in_time(
                &*final(self),
                who,
                proposal,
                vote,
            ),
            r is Err ==> final(self).same_state(&*old(self)),
    {
        if !self.is_member(&who) {
            return Err(Error::NotMember);
        }
        let c: Commit = match self.commit(&who, &proposal) {
            None => {
                return Err(Error::NoCommit);
            },
            Some(c) => c,
        };
        let late: bool = match self.proposal_data.get(&proposal) {
            None => {
                return Err(Error::ProposalMissing);
            },
            Some(p) => p.closed || match p.reveal_end {
                Some(e) => now > e,
                None => false,
            },
        };
        let ghost m0 = self.member_map();
        let ghost log0 = self.log@;
        let ghost max = self.settings().max_voting_tokens;
        if late {
            let mut one: Vec<AccountId> = Vec::new();
            one.push(who);
            let ghost pot = self.settings().pot;
            match self.slash_voting_side(currency, &one) {
                Err(e) => {
                    proof {
                        assert(one@ =~= seq![who]);
                    }
                    return Err(e);
                },
                Ok(_) => {},
            }
            proof {
                assert(commit_consistent(c, max));
                assert((c.number as u16) * (c.number as u16) <= 255) by (nonlinear_arith)
                    requires
                        (c.number as int) * (c.number as int) <= max,
                        max <= 255,
                ;
            }
            let price: u16 = c.number as u16 * c.number as u16;
            let ghost mid = self.member_map();
            self.deposit_votes(&who, price as u8);
            let _ = self.commits.remove(&(who, proposal));
            proof {
                assert(one@ =~= seq![who]);
                let t = new_calls(log0, self.log@);
                assert(t.len() == 1);
                assert(t.drop_last() =~= Seq::<Transfer>::empty());
                let b = m0[who];
                let moved = moved_of((b.reserved_balance / 10) as u128, lost_of(t[0]));
                assert(mid == m0.insert(who, VoterBalance { reserved_balance: sat_sub(b.reserved_balance, moved), ..b }));
                assert(self.member_map() =~= m0.insert(
                    who,
                    VoterBalance {
                        voting_tokens: grant(b.voting_tokens, cost(c.number), max),
                        reserved_balance: sat_sub(b.reserved_balance, moved),
                    },
                ));
                assert(old(self).revealed_late(&*self, who, proposal, t[0]));
                self.lemma_commit_removed(old(self), who, proposal);
            }
            return Ok(());
        }
        let payload = encode_choice_salt(vote.encode_index(), c.salt);
        if !verify_sr25519(&c.signature, &payload, &who) {
            return Err(Error::SignatureInvalid);
        }
        let fits: bool = match self.proposal_data.get(&proposal) {
            None => false,
            Some(p) => {
                if self.already_voted(&who, p) {
                    return Err(Error::DuplicateVote);
                }
                match vote {
                    Vote::Yes => p.ayes <= u32::MAX - c.number as u32,
                    Vote::No => p.nays <= u32::MAX - c.number as u32,
                }
            },
        };
        if !fits {
            return Err(Error::InvalidArgument);
        }
        let ghost pd0 = self.proposal_map();
        match self.proposal_data.remove(&proposal) {
            Some(p) => {
                let mut p = p;
                match vote {
                    Vote::Yes => {
                        p.ayes = p.ayes + c.number as u32;
                    },
                    Vote::No => {
                        p.nays = p.nays + c.number as u32;
                    },
                }
                p.votes.push((who, c.number, vote));
                p.revealed.push(who);
                proof {
                    let prev = pd0[proposal];
                    assert(proposal_consistent(prev, max));
                    assert(voters(p.votes@) =~= voters(prev.votes@).push(who));
                    assert(p.votes@.drop_last() =~= prev.votes@);
                    assert(weight_of(p.votes@, Vote::Yes) == weight_of(prev.votes@, Vote::Yes) + (if vote == Vote::Yes { c.number as int } else { 0 }));
                    assert(weight_of(p.votes@, Vote::No) == weight_of(prev.votes@, Vote::No) + (if vote == Vote::No { c.number as int } else { 0 }));
                    assert(!voters(prev.votes@).contains(who));
                    assert(voters(p.votes@).no_duplicates()) by {
                        let vs = voters(p.votes@);
                        assert forall|a: int, b: int| 0 <= a < vs.len() && 0 <= b < vs.len() && a != b
                            implies vs[a] != vs[b] by {
                            if a == vs.len() - 1 {
                                assert(voters(prev.votes@)[b] == vs[b]);
                            } else if b == vs.len() - 1 {
                                assert(voters(prev.votes@)[a] == vs[a]);
                            } else {
                                assert(voters(prev.votes@)[a] == vs[a]);
                                assert(voters(prev.votes@)[b] == vs[b]);
                            }
                        }
                    }
                    assert(commit_consistent(c, max));
                    assert forall|i: int| 0 <= i < p.votes@.len() implies cost(#[trigger] p.votes@[i].1) <= max by {
                        if i < prev.votes@.len() {
                            assert(p.votes@[i] == prev.votes@[i]);
                        }
                    }
                    assert(proposal_consistent(p, max));
                }
                self.proposal_data.insert(proposal, p);
                proof {
                    assert(self.proposal_map() =~= pd0.insert(proposal, p));
                    self.lemma_proposal_only(old(self), proposal, p);
                }
            },
            None => {},
        }
        let _ = self.commits.remove(&(who, proposal));
        proof {
            self.lemma_commit_removed(old(self), who, proposal);
        }
        Ok(())
    }

    /// Taking out a commitment keeps the committee well formed.
    proof fn lemma_commit_removed(&self, before: &Pallet, who: AccountId, h: ProposalHash)
        requires
            before.wf(),
            self.members.wf(),
            self.proposal_data.wf(),
            self.commits.wf(),
            self.credits_bounded(),
            self.settings() == before.settings(),
            self.proposal_list() == before.proposal_list(),
            self.commit_map() == before.commit_map().remove((who, h)),
            self.proposal_map().dom() == before.proposal_map().dom(),
            forall|k: ProposalHash| #[trigger] self.proposal_map().contains_key(k) ==> proposal_consistent(
                self.proposal_map()[k],
                self.settings().max_voting_tokens,
            ),
        ensures
            self.wf(),
    {
        assert forall|k: (AccountId, ProposalHash)| #[trigger] self.commit_map().contains_key(k) implies commit_consistent(
            self.commit_map()[k],
            self.settings().max_voting_tokens,
        ) by {
            assert(before.commit_map().contains_key(k));
        }
        assert forall|k: ProposalHash| #[trigger] self.proposal_map().contains_key(k) <==> self.proposal_list().contains(k) by {
            assert(self.proposal_map().dom().contains(k) == before.proposal_map().dom().contains(k));
        }
    }

    /// Closes the reveal phase of a proposal and settles it: every revealed
    /// voter gets the cost of their vote back, the losing side is slashed
    /// into the pot and the pot is shared among the winners. On a refusal by
    /// the ledger nothing changes here.
    pub fn close_reveal<C: ReservableCurrency>(
        &mut self,
        currency: &mut C,
        who: AccountId,
        proposal: ProposalHash,
        now: BlockNumber,
    ) -> (r: Result<(), Error>)
        requires
            old(self).wf(),
        ensures
            final(self).wf(),
            extends(old(self).ledger_log(), final(self).ledger_log()),
            old(self).close_reveal_error(who, proposal, now) is Some ==> {
                &&& r == outcome(old(self).close_reveal_error(who, proposal, now))
                &&& final(self).ledger_log() == old(self).ledger_log()
            },
            old(self).close_reveal_error(who, proposal, now) is None ==> {
                let t = new_calls(old(self).ledger_log(), final(self).ledger_log());
                &&& old(self).settlement_calls(proposal, t)
                &&& (r is Ok <==> all_answered(t))
                &&& (r is Err ==> r == Err::<(), Error>(Error::Ledger))
            },
            r is Ok ==> old(self).settled(
                &*final(self),
                proposal,
                new_calls(old(self).ledger_log(), final(self).ledger_log()),
            ),
            r is Err ==> final(self).same_state(&*old(self)),
    {
        if !self.is_member(&who) {
            return Err(Error::NotMember);
        }
        let (losers, winners) = match self.proposal_data.get(&proposal) {
            None => {
                return Err(Error::ProposalMissing);
            },
            Some(p) => {
                match p.reveal_end {
                    None => {
                        return Err(Error::RevealNotStarted);
                    },
                    Some(e) => {
                        if p.closed {
                            return Err(Error::RevealEnded);
                        }
                        if now < e {
                            return Err(Error::TooEarly);
                        }
                    },
                }
                (losing_side(p), winning_side(p))
            },
        };
        let ghost m0 = self.member_map();
        let ghost max = self.settings().max_voting_tokens;
        let ghost prev = self.proposal_map()[proposal];
        let ghost log0 = self.log@;
        let ghost k = losers@.len();
        let saved = self.members.copy();
        let cap = self.config.max_voting_tokens;
        match self.proposal_data.get(&proposal) {
            Some(p) => {
                proof {
                    assert(proposal_consistent(*p, max));
                }
                refund_votes(&mut self.members, &p.votes, cap);
            },
            None => {},
        }
        proof {
            self.lemma_members_only(old(self));
        }
        let ghost m1 = self.member_map();
        let payout = match self.slash_voting_side(currency, &losers) {
            Err(e) => {
                self.members = saved;
                proof {
                    self.lemma_members_only(old(self));
                    let t = new_calls(log0, self.log@);
                    assert(!all_answered(t)) by {
                        assert(t[t.len() - 1].3 is Err);
                    }
                }
                return Err(e);
            },
            Ok(x) => x,
        };
        let ghost log1 = self.log@;
        let ghost t1 = new_calls(log0, log1);
        let ghost m2 = self.member_map();
        let res = self.reward_voting_side(currency, &winners, payout);
        let ghost log2 = self.log@;
        proof {
            let t = new_calls(log0, log2);
            let t2 = new_calls(log1, log2);
            assert(t.take(k as int) =~= t1) by {
                assert forall|i: int| 0 <= i < k implies t.take(k as int)[i] == t1[i] by {
                    assert(log2[log0.len() + i] == log1[log0.len() + i]);
                }
            }
            assert(t.skip(k as int) =~= t2);
            assert(all_answered(t) <==> all_answered(t2)) by {
                if all_answered(t2) {
                    assert forall|i: int| 0 <= i < t.len() implies (#[trigger] t[i]).3 is Ok by {
                        if i < k {
                            assert(t[i] == t1[i]) by {
                                assert(log2[log0.len() + i] == log1[log0.len() + i]);
                            }
                        } else {
                            assert(t[i] == t2[i - k]);
                        }
                    }
                } else {
                    let j = choose|j: int| 0 <= j < t2.len() && !(t2[j].3 is Ok);
                    assert(t[j + k] == t2[j]);
                }
            }
            if t.len() <= k {
                assert(t2.len() == 0);
                assert(t =~= t1) by {
                    assert forall|i: int| 0 <= i < t.len() implies t[i] == t1[i] by {
                        assert(log2[log0.len() + i] == log1[log0.len() + i]);
                    }
                }
            }
        }
        match res {
            Err(e) => {
                self.members = saved;
                proof {
                    self.lemma_members_only(old(self));
                }
                return Err(e);
            },
            Ok(()) => {},
        }
        let ghost mid = *self;
        match self.proposal_data.remove(&proposal) {
            Some(p) => {
                let mut p = p;
                p.payout = payout;
                p.closed = true;
                proof {
                    assert(proposal_consistent(prev, max));
                    assert(proposal_consistent(p, max));
                }
                self.proposal_data.insert(proposal, p);
                proof {
                    assert(self.proposal_map() =~= mid.proposal_map().insert(proposal, p));
                    self.lemma_proposal_only(&mid, proposal, p);
                }
            },
            None => {},
        }
        proof {
            assert(self.proposal_map() =~= old(self).proposal_map().insert(
                proposal,
                Proposal { payout: slash_total(m1, losers@, t1), closed: true, ..prev },
            ));
        }
        Ok(())
    }

    /// A committee with no members and no proposals.
    pub fn new(config: Config) -> (s: Self)
        ensures
            s.wf(),
            s.settings() == config,
            s.member_map() == Map::<AccountId, VoterBalance>::empty(),
            s.proposal_map() == Map::<ProposalHash, Proposal>::empty(),
            s.commit_map() == Map::<(AccountId, ProposalHash), Commit>::empty(),
            s.proposal_list() == Seq::<ProposalHash>::empty(),
    {
        Pallet {
            config,
            proposals: Vec::new(),
            proposal_data: Store::new(),
            members: Store::new(),
            commits: Store::new(),
            log: Ghost(Seq::empty()),
        }
    }

    /// The constants the committee was set up with.
    pub fn config(&self) -> (r: Config)
        ensures
            r == self.settings(),
    {
        self.config
    }

    /// The account that holds slashed collateral until it is handed out.
    pub fn account_id(&self) -> (r: AccountId)
        ensures
            r == self.settings().pot,
    {
        self.config.pot
    }

    /// The identifiers of the proposals, in the order they were made.
    pub fn proposals(&self) -> (r: &Vec<ProposalHash>)
        ensures
            r@ == self.proposal_list(),
    {
        &self.proposals
    }

    /// The balance of a member.
    pub fn member(&self, who: &AccountId) -> (r: Option<VoterBalance>)
        requires
            self.wf(),
        ensures
            r == (if self.member_map().contains_key(*who) {
                Some(self.member_map()[*who])
            } else {
                None
            }),
    {
        match self.members.get(who) {
            Some(b) => Some(*b),
            None => None,
        }
    }

    /// A proposal by its identifier.
    pub fn proposal(&self, h: &ProposalHash) -> (r: Option<&Proposal>)
        requires
            self.wf(),
        ensures
            match r {
                Some(p) => self.proposal_map().contains_key(*h) && *p == self.proposal_map()[*h],
                None => !self.proposal_map().contains_key(*h),
            },
    {
        self.proposal_data.get(h)
    }

    /// The commitment of `who` on proposal `h`.
    pub fn commit(&self, who: &AccountId, h: &ProposalHash) -> (r: Option<Commit>)
        requires
            self.wf(),
        ensures
            r == (if self.commit_map().contains_key((*who, *h)) {
                Some(self.commit_map()[(*who, *h)])
            } else {
                None
            }),
    {
        match self.commits.get(&(*who, *h)) {
            Some(c) => Some(*c),
            None => None,
        }
    }

    pub fn is_member(&self, who: &AccountId) -> (r: bool)
        requires
            self.wf(),
        ensures
            r == self.member_map().contains_key(*who),
    {
        self.members.contains(who)
    }

    /// Whether `proposal` is among the proposals, and the list of them.
    pub fn proposal_exist(&self, proposal: &ProposalHash) -> (r: (bool, Vec<ProposalHash>))
        requires
            self.wf(),
        ensures
            r.0 == self.proposal_list().contains(*proposal),
            r.1@ == self.proposal_list(),
    {
        let mut list: Vec<ProposalHash> = Vec::new();
        let mut found = false;
        let mut i: usize = 0;
        while i < self.proposals.len()
            invariant
                0 <= i <= self.proposals@.len(),
                list@ == self.proposals@.subrange(0, i as int),
                found == self.proposals@.subrange(0, i as int).contains(*proposal),
            decreases self.proposals@.len() - i,
        {
            let h: ProposalHash = self.proposals[i];
            if h.same(proposal) {
                found = true;
            }
            list.push(h);
            proof {
                let s = self.proposals@.subrange(0, i as int + 1);
                assert(s =~= self.proposals@.subrange(0, i as int).push(h));
                if !found {
                    assert forall|j: int| 0 <= j < s.len() implies s[j] != *proposal by {
                        if j < i {
                            assert(s[j] == self.proposals@.subrange(0, i as int)[j]);
                        }
                    }
                } else if h == *proposal {
                    assert(s[i as int] == *proposal);
                } else {
                    let j = choose|j: int|
                        0 <= j < i && self.proposals@.subrange(0, i as int)[j] == *proposal;
                    assert(s[j] == *proposal);
                }
            }
            i = i + 1;
        }
        proof {
            assert(self.proposals@.subrange(0, self.proposals@.len() as int) =~= self.proposals@);
        }
        (found, list)
    }

    /// Whether `who` has already revealed a vote on `proposal`.
    pub fn already_voted(&self, who: &AccountId, proposal: &Proposal) -> (r: bool)
        ensures
            r == proposal.revealed@.contains(*who),
    {
        let mut i: usize = 0;
        while i < proposal.revealed.len()
            invariant
                0 <= i <= proposal.revealed@.len(),
                forall|j: int| 0 <= j < i ==> proposal.revealed@[j] != *who,
            decreases proposal.revealed@.len() - i,
        {
            if proposal.revealed[i].same(who) {
                return true;
            }
            i = i + 1;
        }
        false
    }

    /// Whether `who` holds a commitment on `proposal_hash`.
    pub fn already_committed_and_exist(&self, who: &AccountId, proposal_hash: &ProposalHash) -> (r: bool)
        requires
            self.wf(),
        ensures
            r == self.commit_map().contains_key((*who, *proposal_hash)),
    {
        self.commits.contains(&(*who, *proposal_hash))
    }

    /// Grants `tokens` credits to a member, capped at the maximum; no effect
    /// on one who is no member.
    pub fn deposit_votes(&mut self, who: &AccountId, tokens: u8)
        requires
            old(self).wf(),
        ensures
            final(self).wf(),
            final(self).ledger_log() == old(self).ledger_log(),
            final(self).same_but_members(&*old(self)),
            final(self).member_map() == (if old(self).member_map().contains_key(*who) {
                old(self).member_map().insert(
                    *who,
                    VoterBalance {
                        voting_tokens: grant(
                            old(self).member_map()[*who].voting_tokens,
                            tokens as int,
                            old(self).settings().max_voting_tokens,
                        ),
                        ..old(self).member_map()[*who]
                    },
                )
            } else {
                old(self).member_map()
            }),
    {
        let max = self.config.max_voting_tokens;
        match self.members.get(who) {
            Some(b) => {
                let total: u16 = b.voting_tokens as u16 + tokens as u16;
                let capped: u8 = if total >= max as u16 { max } else { total as u8 };
                let nb = VoterBalance { voting_tokens: capped, reserved_balance: b.reserved_balance };
                proof {
                    lemma_insert_within_cap(self.member_map(), *who, nb, max);
                }
                self.members.insert(*who, nb);
                proof {
                    self.lemma_members_only(old(self));
                }
            },
            None => {},
        }
    }

    /// Records `funds` as the collateral of a member; no effect on one who is
    /// no member.
    pub fn set_reserved_balance(&mut self, who: &AccountId, funds: Balance)
        requires
            old(self).wf(),
        ensures
            final(self).wf(),
            final(self).ledger_log() == old(self).ledger_log(),
            final(self).same_but_members(&*old(self)),
            final(self).member_map() == (if old(self).member_map().contains_key(*who) {
                old(self).member_map().insert(
                    *who,
                    VoterBalance { reserved_balance: funds, ..old(self).member_map()[*who] },
                )
            } else {
                old(self).member_map()
            }),
    {
        match self.members.get(who) {
            Some(b) => {
                let nb = VoterBalance { voting_tokens: b.voting_tokens, reserved_balance: funds };
                proof {
                    lemma_insert_within_cap(self.member_map(), *who, nb, self.settings().max_voting_tokens);
                }
                self.members.insert(*who, nb);
                proof {
                    self.lemma_members_only(old(self));
                }
            },
            None => {},
        }
    }

    /// Takes `amount` credits from a member who has that many; returns
    /// whether it did.
    pub fn decrease_votes(&mut self, who: &AccountId, amount: u8) -> (r: bool)
        requires
            old(self).wf(),
        ensures
            final(self).wf(),
            final(self).ledger_log() == old(self).ledger_log(),
            final(self).same_but_members(&*old(self)),
            r == (old(self).member_map().contains_key(*who)
                && old(self).member_map()[*who].voting_tokens >= amount),
            r ==> final(self).member_map() == old(self).member_map().insert(
                *who,
                VoterBalance {
                    voting_tokens: (old(self).member_map()[*who].voting_tokens - amount) as u8,
                    ..old(self).member_map()[*who]
                },
            ),
            !r ==> final(self).member_map() == old(self).member_map(),
    {
        match self.members.get(who) {
            Some(b) => {
                if b.voting_tokens < amount {
                    return false;
                }
                let nb = VoterBalance {
                    voting_tokens: b.voting_tokens - amount,
                    reserved_balance: b.reserved_balance,
                };
                proof {
                    lemma_insert_within_cap(self.member_map(), *who, nb, self.settings().max_voting_tokens);
                }
                self.members.insert(*who, nb);
                proof {
                    self.lemma_members_only(old(self));
                }
                true
            },
            None => false,
        }
    }
}

/// No member ever holds more voting credits than the committee's maximum.
pub proof fn lemma_credits_within_cap(s: &Pallet, a: AccountId)
    requires
        s.wf(),
        s.member_map().contains_key(a),
    ensures
        s.member_map()[a].voting_tokens <= s.settings().max_voting_tokens,
{
}

/// A proposal records at most one revealed vote per voter, and `revealed`
/// lists exactly the voters of its votes, in the same order.
pub proof fn lemma_one_vote_per_voter(s: &Pallet, h: ProposalHash)
    requires
        s.wf(),
        s.proposal_map().contains_key(h),
    ensures
        voters(s.proposal_map()[h].votes@).no_duplicates(),
        s.proposal_map()[h].revealed@ == voters(s.proposal_map()[h].votes@),
{
}

/// Committing weight `w` from a balance that covers `w * w` and getting the
/// same `w * w` back restores the balance: credits are conserved over a
/// commit and its refund, the cap never cutting in.
pub proof fn lemma_commit_refund_conserves(credits: u8, w: u8, max: u8)
    requires
        credits <= max,
        cost(w) <= credits,
    ensures
        grant((credits - cost(w)) as u8, cost(w), max) == credits,
{
}

/// Once a commitment was revealed, in time or late, the next reveal of it by
/// the same voter fails with `NoCommit`, whatever the choice.
pub proof fn lemma_reveal_at_most_once(
    before: &Pallet,
    after: &Pallet,
    who: AccountId,
    h: ProposalHash,
    vote: Vote,
    now: BlockNumber,
    x: Transfer,
)
    requires
        before.wf(),
        before.reveal_precheck(who, h) is None,
        if before.reveal_is_late(h, now) {
            before.revealed_late(after, who, h, x)
        } else {
            before.revealed_in_time(after, who, h, vote)
        },
    ensures
        after.reveal_precheck(who, h) == Some(Error::NoCommit),
{
}

/// On a tie every revealed voter is slashed and the proposer alone is
/// rewarded.
pub proof fn lemma_tie_slashes_every_voter(s: &Pallet, h: ProposalHash)
    requires
        s.wf(),
        s.proposal_map().contains_key(h),
        s.proposal_map()[h].ayes == s.proposal_map()[h].nays,
    ensures
        losers(s.proposal_map()[h]) == s.proposal_map()[h].revealed@,
        winners(s.proposal_map()[h]) == seq![s.proposal_map()[h].proposer],
{
}

/// Once a proposal was settled, closing its reveal again fails with
/// `RevealEnded` for any member at any time; such a failure changes nothing.
pub proof fn lemma_close_reveal_once(
    before: &Pallet,
    after: &Pallet,
    who: AccountId,
    h: ProposalHash,
    now: BlockNumber,
    t: Seq<Transfer>,
    who2: AccountId,
    now2: BlockNumber,
)
    requires
        before.wf(),
        before.close_reveal_error(who, h, now) is None,
        before.settled(after, h, t),
        after.member_map().contains_key(who2),
    ensures
        after.close_reveal_error(who2, h, now2) == Some(Error::RevealEnded),
{
    assert(after.proposal_map().contains_key(h));
}

/// A proposal that is not tied has someone on the winning side: the
/// winners' share is never taken among nobody.
pub proof fn lemma_winners_not_empty(s: &Pallet, h: ProposalHash)
    requires
        s.wf(),
        s.proposal_map().contains_key(h),
    ensures
        winners(s.proposal_map()[h]).len() > 0,
{
    let p = s.proposal_map()[h];
    if p.ayes > p.nays {
        lemma_weight_has_voter(p.votes@, Vote::Yes);
    } else if p.ayes < p.nays {
        lemma_weight_has_voter(p.votes@, Vote::No);
    }
}

} // verus!
