use std::collections::{HashMap, HashSet};

use parity_scale_codec::Encode;
use slashing_voting::pallet::{GenesisConfig, Pallet};
use slashing_voting::types::{
    AccountId, Balance, BlockNumber, Config, Data, Error, IdentityProvider, LedgerError,
    ProposalHash, ReservableCurrency, Vote,
};
use sp_runtime::app_crypto::sp_core::sr25519;
use sp_runtime::app_crypto::Pair;
use sp_runtime::traits::BlakeTwo256;

const UNIT: Balance = 1_000_000_000_000;
const ENTRY_FEE: Balance = 30_000 * UNIT;
const MAX_TOKENS: u8 = 100;
const SALT: u32 = 5;

fn pot() -> AccountId {
    let mut a = [0u8; 32];
    a[..12].copy_from_slice(b"modlp/v8t1ng");
    a
}

fn config() -> Config {
    Config {
        basic_deposit: ENTRY_FEE,
        reveal_length: 50,
        max_proposals: 10,
        min_length: 100,
        max_voting_tokens: MAX_TOKENS,
        pot: pot(),
    }
}

fn pair(seed: &str) -> sr25519::Pair {
    sr25519::Pair::from_string(seed, None).unwrap()
}

fn get_alice() -> AccountId {
    pair("//Alice").public().0
}

fn get_bob() -> AccountId {
    pair("//Bob").public().0
}

fn get_charlie() -> AccountId {
    pair("//Charlie").public().0
}

fn choice_byte(vote: Vote) -> u8 {
    match vote {
        Vote::Yes => 0,
        Vote::No => 1,
    }
}

/// Signs the commitment to `vote` with the salt used throughout.
fn generate(seed: &str, vote: Vote) -> ([u8; 64], u32) {
    let payload = (choice_byte(vote), SALT).encode();
    (pair(seed).sign(&payload).0, SALT)
}

struct Registry(HashSet<AccountId>);

impl IdentityProvider for Registry {
    fn check_existence(&self, account: &AccountId) -> bool {
        self.0.contains(account)
    }
}

/// Free and reserved balances; moves as much as there is.
struct Ledger {
    accounts: HashMap<AccountId, (Balance, Balance)>,
    refuse: bool,
}

impl Ledger {
    fn reserved(&self, who: &AccountId) -> Balance {
        self.accounts.get(who).map(|a| a.1).unwrap_or(0)
    }
}

impl ReservableCurrency for Ledger {
    fn minimum_balance(&self) -> Balance {
        500
    }

    fn free_balance(&self, who: &AccountId) -> Balance {
        self.accounts.get(who).map(|a| a.0).unwrap_or(0)
    }

    fn make_free_balance_be(&mut self, who: &AccountId, value: Balance) {
        self.accounts.entry(*who).or_insert((0, 0)).0 = value;
    }

    fn can_reserve(&self, who: &AccountId, value: Balance) -> bool {
        self.accounts.get(who).map(|a| a.0 >= value).unwrap_or(false)
    }

    fn reserve(&mut self, who: &AccountId, value: Balance) -> Result<(), LedgerError> {
        if self.refuse {
            return Err(LedgerError);
        }
        let a = self.accounts.entry(*who).or_insert((0, 0));
        if a.0 < value {
            return Err(LedgerError);
        }
        a.0 -= value;
        a.1 += value;
        Ok(())
    }

    fn unreserve(&mut self, who: &AccountId, value: Balance) -> Balance {
        let a = self.accounts.entry(*who).or_insert((0, 0));
        let actual = value.min(a.1);
        a.1 -= actual;
        a.0 += actual;
        value - actual
    }

    fn repatriate_reserved(
        &mut self,
        slashed: &AccountId,
        beneficiary: &AccountId,
        value: Balance,
    ) -> Result<Balance, LedgerError> {
        if self.refuse {
            return Err(LedgerError);
        }
        let from = self.accounts.entry(*slashed).or_insert((0, 0));
        let actual = value.min(from.1);
        from.1 -= actual;
        self.accounts.entry(*beneficiary).or_insert((0, 0)).1 += actual;
        Ok(value - actual)
    }
}

struct Env {
    pallet: Pallet,
    identity: Registry,
    ledger: Ledger,
    now: BlockNumber,
}

fn new_test_ext() -> Env {
    let mut accounts = HashMap::new();
    accounts.insert(get_alice(), (1_000_000 * UNIT, 0));
    accounts.insert(get_bob(), (1_000_000 * UNIT, 0));
    accounts.insert(get_charlie(), (20_000 * UNIT, 0));
    let pallet = Pallet::new(config());
    let mut ledger = Ledger { accounts, refuse: false };
    GenesisConfig.build(&pallet, &mut ledger);
    Env { pallet, identity: Registry(HashSet::new()), ledger, now: 0 }
}

impl Env {
    fn set_identity(&mut self, who: AccountId) {
        self.identity.0.insert(who);
    }

    fn join(&mut self, who: AccountId) -> Result<(), Error> {
        self.pallet.join_committee(&self.identity, &mut self.ledger, who)
    }

    fn leave(&mut self, who: AccountId) -> Result<(), Error> {
        self.pallet.leave_committee(&self.identity, &mut self.ledger, who)
    }

    fn propose(&mut self, who: AccountId, title: Vec<u8>, duration: BlockNumber) -> Result<(), Error> {
        self.pallet.create_proposal(who, Data::Raw(title), duration, self.now)
    }

    fn commit(&mut self, who: AccountId, h: ProposalHash, sig: [u8; 64], number: u8, salt: u32) -> Result<(), Error> {
        self.pallet.commit_vote(who, h, sig, number, salt, self.now)
    }

    fn disclose(&mut self, who: AccountId, h: ProposalHash, vote: Vote) -> Result<(), Error> {
        self.pallet.reveal_vote(&mut self.ledger, who, h, vote, self.now)
    }

    fn close_vote(&mut self, who: AccountId, h: ProposalHash) -> Result<(), Error> {
        self.pallet.close_vote(who, h, self.now)
    }

    fn close_reveal(&mut self, who: AccountId, h: ProposalHash) -> Result<(), Error> {
        self.pallet.close_reveal(&mut self.ledger, who, h, self.now)
    }

    fn tokens(&self, who: &AccountId) -> u8 {
        self.pallet.member(who).unwrap().voting_tokens
    }

    fn stake(&self, who: &AccountId) -> Balance {
        self.pallet.member(who).unwrap().reserved_balance
    }

    fn first_proposal(&self) -> ProposalHash {
        self.pallet.proposals()[0]
    }

    /// Alice and Bob join; Alice proposes; returns the proposal.
    fn two_members_one_proposal(&mut self) -> ProposalHash {
        let (alice, bob) = (get_alice(), get_bob());
        self.set_identity(alice);
        let _ = self.join(alice);
        self.set_identity(bob);
        let _ = self.join(bob);
        let _ = self.propose(alice, vec![], 100);
        self.first_proposal()
    }
}

#[test]
fn not_join_without_identity() {
    let mut t = new_test_ext();
    let alice = get_alice();
    assert_eq!(t.join(alice), Err(Error::NoIdentity));
    assert!(!t.pallet.is_member(&alice));
    assert_eq!(t.ledger.reserved(&alice), 0);
}

#[test]
fn disallow_action_for_non_members() {
    let mut t = new_test_ext();
    let bob = get_bob();
    t.set_identity(bob);
    let result = t.propose(bob, vec![], 100);
    assert_eq!(result, Err(Error::NotMember));
    assert!(t.pallet.proposals().is_empty());
}

#[test]
fn join_with_identity() {
    let mut t = new_test_ext();
    let alice = get_alice();
    t.set_identity(alice);
    assert!(t.identity.check_existence(&alice));
    assert_eq!(t.join(alice), Ok(()));
    assert_eq!(t.tokens(&alice), MAX_TOKENS);
    assert_eq!(t.stake(&alice), ENTRY_FEE);
    assert_eq!(t.ledger.reserved(&alice), ENTRY_FEE);
}

#[test]
fn create_proposal_success() {
    let mut t = new_test_ext();
    let alice = get_alice();
    t.set_identity(alice);
    let _ = t.join(alice);
    let result = t.propose(alice, vec![], 100);
    assert_eq!(result, Ok(()));
    assert!(t.pallet.proposals().len() == 1);
    let p = t.pallet.proposal(&t.first_proposal()).unwrap();
    assert_eq!(p.poll_end, 100);
    assert_eq!(p.proposer, alice);
    assert!(p.reveal_end.is_none() && !p.closed);
}

#[test]
fn no_proposal_duplicates() {
    let mut t = new_test_ext();
    let alice = get_alice();
    t.set_identity(alice);
    let _ = t.join(alice);
    let _ = t.propose(alice, vec![], 100);
    let result = t.propose(alice, vec![], 100);
    assert_eq!(result, Err(Error::DuplicateProposal));
    assert_eq!(t.pallet.proposals().len(), 1);
}

#[test]
fn submit_commits() {
    let mut t = new_test_ext();
    let alice = get_alice();
    t.set_identity(alice);
    let _ = t.join(alice);
    let _ = t.propose(alice, vec![], 100);
    let (sig, salt) = generate("//Alice", Vote::Yes);
    let proposal_hash = t.first_proposal();
    let result = t.commit(alice, proposal_hash, sig, 8, salt);
    assert_eq!(result, Ok(()));
}

#[test]
fn cannot_submit_votes_more_than_have() {
    let mut t = new_test_ext();
    let alice = get_alice();
    t.set_identity(alice);
    let _ = t.join(alice);
    let _ = t.propose(alice, vec![], 100);
    let (sig, salt) = generate("//Alice", Vote::Yes);
    let proposal_hash = t.first_proposal();
    let result = t.commit(alice, proposal_hash, sig, 11, salt);
    assert_eq!(result, Err(Error::NotEnoughVotingTokens));
    assert_eq!(t.tokens(&alice), MAX_TOKENS);
    assert!(!t.pallet.already_committed_and_exist(&alice, &proposal_hash));
}

#[test]
fn cannot_commit_after_deadline() {
    let mut t = new_test_ext();
    let alice = get_alice();
    t.set_identity(alice);
    let _ = t.join(alice);
    let _ = t.propose(alice, vec![], 100);
    t.now += 105;
    let (sig, salt) = generate("//Alice", Vote::Yes);
    let proposal_hash = t.first_proposal();
    let result = t.commit(alice, proposal_hash, sig, 5, salt);
    assert_eq!(result, Err(Error::VoteEnded));
    assert_eq!(t.tokens(&alice), MAX_TOKENS);
}

#[test]
fn reveal_vote_success() {
    let mut t = new_test_ext();
    let alice = get_alice();
    t.set_identity(alice);
    let _ = t.join(alice);
    let _ = t.propose(alice, vec![], 100);
    t.now += 20;
    let (sig, salt) = generate("//Alice", Vote::Yes);
    let proposal_hash = t.first_proposal();
    let _ = t.commit(alice, proposal_hash, sig, 8, salt);
    let result = t.disclose(alice, proposal_hash, Vote::Yes);
    assert_eq!(result, Ok(()));
    let p = t.pallet.proposal(&proposal_hash).unwrap();
    assert_eq!((p.ayes, p.nays), (8, 0));
}

#[test]
fn cannot_reveal_incorrect_vote() {
    let mut t = new_test_ext();
    let alice = get_alice();
    t.set_identity(alice);
    let _ = t.join(alice);
    let _ = t.propose(alice, vec![], 100);
    t.now += 20;
    let (sig, salt) = generate("//Alice", Vote::Yes);
    let proposal_hash = t.first_proposal();
    let _ = t.commit(alice, proposal_hash, sig, 8, salt);
    let result = t.disclose(alice, proposal_hash, Vote::No);
    assert_eq!(result, Err(Error::SignatureInvalid));
    assert!(t.pallet.already_committed_and_exist(&alice, &proposal_hash));
    let p = t.pallet.proposal(&proposal_hash).unwrap();
    assert_eq!((p.ayes, p.nays), (0, 0));
}

#[test]
fn close_vote_success() {
    let mut t = new_test_ext();
    let alice = get_alice();
    t.set_identity(alice);
    let _ = t.join(alice);
    let _ = t.propose(alice, vec![], 100);
    t.now += 120;
    let proposal_hash = t.first_proposal();
    let result = t.close_vote(alice, proposal_hash);
    assert_eq!(result, Ok(()));
    assert_eq!(t.pallet.proposal(&proposal_hash).unwrap().reveal_end, Some(170));
}

#[test]
fn cannot_close_vote_before_deadline() {
    let mut t = new_test_ext();
    let alice = get_alice();
    t.set_identity(alice);
    let _ = t.join(alice);
    let _ = t.propose(alice, vec![], 100);
    let proposal_hash = t.first_proposal();
    let result = t.close_vote(alice, proposal_hash);
    assert_eq!(result, Err(Error::TooEarly));
    assert_eq!(t.pallet.proposal(&proposal_hash).unwrap().reveal_end, None);
}

#[test]
fn close_reveal_success() {
    let mut t = new_test_ext();
    let alice = get_alice();
    t.set_identity(alice);
    let _ = t.join(alice);
    let _ = t.propose(alice, vec![], 100);
    t.now = 110;
    let proposal_hash = t.first_proposal();
    let _ = t.close_vote(alice, proposal_hash);
    t.now = 160;
    let result = t.close_reveal(alice, proposal_hash);
    assert_eq!(result, Ok(()));
    assert!(t.pallet.proposal(&proposal_hash).unwrap().closed);
}

#[test]
fn cannot_close_reveal_early() {
    let mut t = new_test_ext();
    let alice = get_alice();
    t.set_identity(alice);
    let _ = t.join(alice);
    let _ = t.propose(alice, vec![], 100);
    t.now = 110;
    let proposal_hash = t.first_proposal();
    let _ = t.close_vote(alice, proposal_hash);
    t.now = 140;
    let result = t.close_reveal(alice, proposal_hash);
    assert_eq!(result, Err(Error::TooEarly));
    assert!(!t.pallet.proposal(&proposal_hash).unwrap().closed);
}

#[test]
fn cannot_close_reveal_before_vote_end() {
    let mut t = new_test_ext();
    let alice = get_alice();
    t.set_identity(alice);
    let _ = t.join(alice);
    let _ = t.propose(alice, vec![], 100);
    let proposal_hash = t.first_proposal();
    t.now = 140;
    let result = t.close_reveal(alice, proposal_hash);
    assert_eq!(result, Err(Error::RevealNotStarted));
}

#[test]
fn slashed_correctly() {
    let mut t = new_test_ext();
    let (alice, bob) = (get_alice(), get_bob());
    let proposal_hash = t.two_members_one_proposal();
    let (sig, salt) = generate("//Alice", Vote::Yes);
    let _ = t.commit(alice, proposal_hash, sig, 8, salt);
    let (sig, salt) = generate("//Bob", Vote::No);
    let _ = t.commit(bob, proposal_hash, sig, 2, salt);
    t.now = 101;
    let _ = t.close_vote(bob, proposal_hash);
    t.now = 160;
    let alice_original_balance = t.stake(&alice);
    let bob_original_balance = t.stake(&bob);
    let _ = t.close_reveal(bob, proposal_hash);
    let alice_current_balance = t.stake(&alice);
    let bob_current_balance = t.stake(&bob);
    let slash = bob_original_balance - bob_current_balance;
    assert!(alice_current_balance == alice_original_balance + slash);
}

#[test]
fn votes_deducted_and_refunded() {
    let mut t = new_test_ext();
    let (alice, bob) = (get_alice(), get_bob());
    let proposal_hash = t.two_members_one_proposal();
    let (sig, salt) = generate("//Alice", Vote::Yes);
    let _ = t.commit(alice, proposal_hash, sig, 8, salt);
    let alice_original_votes = t.tokens(&alice);
    assert!(alice_original_votes == MAX_TOKENS - 8_u8.pow(2));
    let (sig, salt) = generate("//Bob", Vote::No);
    let _ = t.commit(bob, proposal_hash, sig, 2, salt);
    let bob_original_votes = t.tokens(&bob);
    assert!(bob_original_votes == MAX_TOKENS - 2_u8.pow(2));
    t.now = 101;
    let _ = t.close_vote(bob, proposal_hash);
    let _ = t.disclose(alice, proposal_hash, Vote::Yes);
    let _ = t.disclose(bob, proposal_hash, Vote::No);
    t.now = 160;
    let _ = t.close_reveal(bob, proposal_hash);
    assert!(t.tokens(&alice) == MAX_TOKENS);
    assert!(t.tokens(&bob) == MAX_TOKENS);
}

#[test]
fn cannot_leave_while_in_vote() {
    let mut t = new_test_ext();
    let alice = get_alice();
    t.set_identity(alice);
    let _ = t.join(alice);
    let _ = t.propose(alice, vec![], 100);
    let proposal_hash = t.first_proposal();
    let (sig, salt) = generate("//Alice", Vote::Yes);
    let _ = t.commit(alice, proposal_hash, sig, 8, salt);
    let result = t.leave(alice);
    assert_eq!(result, Err(Error::InMotion));
    t.now = 110;
    let _ = t.close_vote(alice, proposal_hash);
    let result = t.leave(alice);
    assert_eq!(result, Err(Error::InMotion));
    assert!(t.pallet.is_member(&alice));
}

#[test]
fn cashout() {
    let mut t = new_test_ext();
    let (alice, bob) = (get_alice(), get_bob());
    let proposal_hash = t.two_members_one_proposal();
    let (sig, salt) = generate("//Alice", Vote::Yes);
    let _ = t.commit(alice, proposal_hash, sig, 8, salt);
    let (sig, salt) = generate("//Bob", Vote::No);
    let _ = t.commit(bob, proposal_hash, sig, 2, salt);
    t.now = 101;
    let _ = t.close_vote(bob, proposal_hash);
    let _ = t.disclose(alice, proposal_hash, Vote::Yes);
    let _ = t.disclose(bob, proposal_hash, Vote::No);
    t.now = 160;
    let _ = t.close_reveal(bob, proposal_hash);
    let result = t.leave(alice);
    assert_eq!(result, Ok(()));
    assert!(t.ledger.reserved(&alice) == 0);
    assert!(!t.pallet.is_member(&alice));
}

/// Alice commits Yes and Bob No with the given weights, the vote closes at
/// 101 and both reveal in time.
fn both_revealed(t: &mut Env, alice_weight: u8, bob_weight: u8) -> ProposalHash {
    let (alice, bob) = (get_alice(), get_bob());
    let h = t.two_members_one_proposal();
    let (sig, salt) = generate("//Alice", Vote::Yes);
    assert_eq!(t.commit(alice, h, sig, alice_weight, salt), Ok(()));
    let (sig, salt) = generate("//Bob", Vote::No);
    assert_eq!(t.commit(bob, h, sig, bob_weight, salt), Ok(()));
    t.now = 101;
    assert_eq!(t.close_vote(bob, h), Ok(()));
    assert_eq!(t.disclose(alice, h, Vote::Yes), Ok(()));
    assert_eq!(t.disclose(bob, h, Vote::No), Ok(()));
    h
}

#[test]
fn commit_costs_square_of_weight() {
    let mut t = new_test_ext();
    let alice = get_alice();
    let h = t.two_members_one_proposal();
    let (sig, salt) = generate("//Alice", Vote::Yes);
    assert_eq!(t.commit(alice, h, sig, 8, salt), Ok(()));
    assert_eq!(t.tokens(&alice), 36);
    let c = t.pallet.commit(&alice, &h).unwrap();
    assert_eq!((c.number, c.salt), (8, SALT));
}

#[test]
fn commit_over_budget_changes_nothing() {
    let mut t = new_test_ext();
    let alice = get_alice();
    let h = t.two_members_one_proposal();
    let (sig, salt) = generate("//Alice", Vote::Yes);
    assert_eq!(t.commit(alice, h, sig, 11, salt), Err(Error::NotEnoughVotingTokens));
    assert_eq!(t.tokens(&alice), 100);
    assert!(t.pallet.commit(&alice, &h).is_none());
    // weight 10 costs exactly the whole budget
    assert_eq!(t.commit(alice, h, sig, 10, salt), Ok(()));
    assert_eq!(t.tokens(&alice), 0);
}

#[test]
fn late_reveal_slashes_and_refunds() {
    let mut t = new_test_ext();
    let alice = get_alice();
    let h = t.two_members_one_proposal();
    let (sig, salt) = generate("//Alice", Vote::Yes);
    assert_eq!(t.commit(alice, h, sig, 8, salt), Ok(()));
    t.now = 101;
    assert_eq!(t.close_vote(alice, h), Ok(()));
    t.now = 152;
    let stake = t.stake(&alice);
    assert_eq!(t.disclose(alice, h, Vote::Yes), Ok(()));
    assert_eq!(t.stake(&alice), stake - stake / 10);
    assert_eq!(t.tokens(&alice), 36 + 64);
    assert_eq!(t.ledger.reserved(&pot()), stake / 10);
    let p = t.pallet.proposal(&h).unwrap();
    assert_eq!((p.ayes, p.nays), (0, 0));
    assert!(p.votes.is_empty() && p.revealed.is_empty());
    assert!(t.pallet.commit(&alice, &h).is_none());
}

#[test]
fn reveal_at_reveal_end_is_in_time() {
    let mut t = new_test_ext();
    let alice = get_alice();
    let h = t.two_members_one_proposal();
    let (sig, salt) = generate("//Alice", Vote::Yes);
    let _ = t.commit(alice, h, sig, 3, salt);
    t.now = 101;
    let _ = t.close_vote(alice, h);
    t.now = 151;
    assert_eq!(t.disclose(alice, h, Vote::Yes), Ok(()));
    assert_eq!(t.pallet.proposal(&h).unwrap().ayes, 3);
    assert_eq!(t.stake(&alice), ENTRY_FEE);
}

#[test]
fn majority_slashes_minority_and_rewards_winner() {
    let mut t = new_test_ext();
    let (alice, bob) = (get_alice(), get_bob());
    let h = both_revealed(&mut t, 8, 2);
    let p = t.pallet.proposal(&h).unwrap();
    assert_eq!((p.ayes, p.nays), (8, 2));
    t.now = 160;
    assert_eq!(t.close_reveal(bob, h), Ok(()));
    let slash = ENTRY_FEE / 10;
    assert_eq!(t.stake(&bob), ENTRY_FEE - slash);
    assert_eq!(t.stake(&alice), ENTRY_FEE + slash);
    let p = t.pallet.proposal(&h).unwrap();
    assert_eq!(p.payout, slash);
    assert!(p.closed);
    assert_eq!(t.ledger.reserved(&alice), ENTRY_FEE + slash);
    assert_eq!(t.ledger.reserved(&bob), ENTRY_FEE - slash);
}

#[test]
fn minority_yes_loses() {
    let mut t = new_test_ext();
    let (alice, bob) = (get_alice(), get_bob());
    let h = both_revealed(&mut t, 2, 8);
    t.now = 160;
    assert_eq!(t.close_reveal(alice, h), Ok(()));
    let slash = ENTRY_FEE / 10;
    assert_eq!(t.stake(&alice), ENTRY_FEE - slash);
    assert_eq!(t.stake(&bob), ENTRY_FEE + slash);
}

#[test]
fn tie_slashes_every_voter_and_rewards_proposer() {
    let mut t = new_test_ext();
    let (alice, bob) = (get_alice(), get_bob());
    let h = both_revealed(&mut t, 3, 3);
    t.now = 160;
    assert_eq!(t.close_reveal(bob, h), Ok(()));
    let slash = ENTRY_FEE / 10;
    // Alice proposed: slashed as a voter, then handed the whole payout.
    assert_eq!(t.stake(&alice), ENTRY_FEE - slash + 2 * slash);
    assert_eq!(t.stake(&bob), ENTRY_FEE - slash);
    assert_eq!(t.pallet.proposal(&h).unwrap().payout, 2 * slash);
    assert_eq!(t.tokens(&alice), MAX_TOKENS);
    assert_eq!(t.tokens(&bob), MAX_TOKENS);
}

#[test]
fn close_reveal_twice_fails_without_effect() {
    let mut t = new_test_ext();
    let (alice, bob) = (get_alice(), get_bob());
    let h = both_revealed(&mut t, 8, 2);
    t.now = 160;
    assert_eq!(t.close_reveal(bob, h), Ok(()));
    let (a, b) = (t.stake(&alice), t.stake(&bob));
    t.now = 500;
    assert_eq!(t.close_reveal(alice, h), Err(Error::RevealEnded));
    assert_eq!((t.stake(&alice), t.stake(&bob)), (a, b));
    assert_eq!(t.pallet.proposal(&h).unwrap().payout, ENTRY_FEE / 10);
}

#[test]
fn second_reveal_has_no_commit() {
    let mut t = new_test_ext();
    let alice = get_alice();
    let h = t.two_members_one_proposal();
    let (sig, salt) = generate("//Alice", Vote::Yes);
    let _ = t.commit(alice, h, sig, 4, salt);
    assert_eq!(t.disclose(alice, h, Vote::Yes), Ok(()));
    assert_eq!(t.disclose(alice, h, Vote::Yes), Err(Error::NoCommit));
    assert_eq!(t.disclose(alice, h, Vote::No), Err(Error::NoCommit));
    assert_eq!(t.pallet.proposal(&h).unwrap().ayes, 4);
}

#[test]
fn revealed_lists_the_voters_of_votes() {
    let mut t = new_test_ext();
    let (alice, bob) = (get_alice(), get_bob());
    let h = both_revealed(&mut t, 8, 2);
    let p = t.pallet.proposal(&h).unwrap();
    assert_eq!(p.votes, vec![(alice, 8, Vote::Yes), (bob, 2, Vote::No)]);
    assert_eq!(p.revealed, vec![alice, bob]);
    assert!(t.pallet.already_voted(&alice, p));
    assert!(!t.pallet.already_voted(&get_charlie(), p));
}

#[test]
fn recommit_after_reveal_is_duplicate_vote() {
    let mut t = new_test_ext();
    let alice = get_alice();
    let h = t.two_members_one_proposal();
    let (sig, salt) = generate("//Alice", Vote::Yes);
    let _ = t.commit(alice, h, sig, 2, salt);
    assert_eq!(t.disclose(alice, h, Vote::Yes), Ok(()));
    assert_eq!(t.commit(alice, h, sig, 2, salt), Ok(()));
    assert_eq!(t.disclose(alice, h, Vote::Yes), Err(Error::DuplicateVote));
    assert!(t.pallet.commit(&alice, &h).is_some());
}

#[test]
fn credits_capped_at_maximum() {
    let mut t = new_test_ext();
    let alice = get_alice();
    t.set_identity(alice);
    let _ = t.join(alice);
    t.pallet.deposit_votes(&alice, 50);
    assert_eq!(t.tokens(&alice), MAX_TOKENS);
    assert!(t.pallet.decrease_votes(&alice, 30));
    assert_eq!(t.tokens(&alice), 70);
    assert!(!t.pallet.decrease_votes(&alice, 71));
    assert_eq!(t.tokens(&alice), 70);
    t.pallet.deposit_votes(&alice, 255);
    assert_eq!(t.tokens(&alice), MAX_TOKENS);
    // no effect on one who is no member
    t.pallet.deposit_votes(&get_bob(), 10);
    assert!(!t.pallet.is_member(&get_bob()));
    assert!(!t.pallet.decrease_votes(&get_bob(), 0));
}

#[test]
fn set_reserved_balance_records_funds() {
    let mut t = new_test_ext();
    let alice = get_alice();
    t.set_identity(alice);
    let _ = t.join(alice);
    t.pallet.set_reserved_balance(&alice, 7);
    assert_eq!(t.stake(&alice), 7);
    assert_eq!(t.tokens(&alice), MAX_TOKENS);
}

#[test]
fn join_twice_is_already_member() {
    let mut t = new_test_ext();
    let alice = get_alice();
    t.set_identity(alice);
    assert_eq!(t.join(alice), Ok(()));
    assert_eq!(t.join(alice), Err(Error::AlreadyMember));
    assert_eq!(t.ledger.reserved(&alice), ENTRY_FEE);
}

#[test]
fn join_without_funds_fails() {
    let mut t = new_test_ext();
    let charlie = get_charlie();
    t.set_identity(charlie);
    assert_eq!(t.join(charlie), Err(Error::NotEnoughFunds));
    assert!(!t.pallet.is_member(&charlie));
}

#[test]
fn join_refused_by_ledger() {
    let mut t = new_test_ext();
    let alice = get_alice();
    t.set_identity(alice);
    t.ledger.refuse = true;
    assert_eq!(t.join(alice), Err(Error::Ledger));
    assert!(!t.pallet.is_member(&alice));
}

#[test]
fn join_check_follows_answers() {
    let t = new_test_ext();
    let alice = get_alice();
    assert_eq!(t.pallet.join_check(&alice, true, true), Ok(()));
    assert_eq!(t.pallet.join_check(&alice, false, true), Err(Error::NoIdentity));
    assert_eq!(t.pallet.join_check(&alice, true, false), Err(Error::NotEnoughFunds));
    assert_eq!(t.pallet.leave_check(&alice, false), Err(Error::NoIdentity));
    assert_eq!(t.pallet.leave_check(&alice, true), Ok(()));
}

#[test]
fn leave_without_identity_fails() {
    let mut t = new_test_ext();
    let alice = get_alice();
    t.set_identity(alice);
    let _ = t.join(alice);
    t.identity.0.clear();
    assert_eq!(t.leave(alice), Err(Error::NoIdentity));
    assert!(t.pallet.is_member(&alice));
}

#[test]
fn short_proposal_is_refused() {
    let mut t = new_test_ext();
    let alice = get_alice();
    t.set_identity(alice);
    let _ = t.join(alice);
    assert_eq!(t.propose(alice, vec![], 99), Err(Error::WrongProposalLength));
    assert!(t.pallet.proposals().is_empty());
}

#[test]
fn proposals_are_bounded() {
    let mut t = new_test_ext();
    let alice = get_alice();
    t.set_identity(alice);
    let _ = t.join(alice);
    for i in 0..10u8 {
        assert_eq!(t.propose(alice, vec![i], 100), Ok(()));
    }
    assert_eq!(t.propose(alice, vec![10], 100), Err(Error::TooManyProposals));
    assert_eq!(t.pallet.proposals().len(), 10);
    let (found, list) = t.pallet.proposal_exist(&t.first_proposal());
    assert!(found);
    assert_eq!(list.len(), 10);
    assert!(!t.pallet.proposal_exist(&[7u8; 32]).0);
}

#[test]
fn proposal_hash_is_blake2_of_encoded_title() {
    let short = Pallet::proposal_hash(&Data::Raw(vec![]));
    let expected = <BlakeTwo256 as sp_runtime::traits::Hash>::hash(&[0u8, 0u8]).0;
    assert_eq!(short, expected);
    let title: Vec<u8> = (0..100u8).collect();
    let mut encoded = vec![0u8, 0x91, 0x01];
    encoded.extend_from_slice(&title);
    let long = Pallet::proposal_hash(&Data::Raw(title.clone()));
    assert_eq!(long, <BlakeTwo256 as sp_runtime::traits::Hash>::hash(&encoded).0);
    assert_ne!(long, short);
    let mut t = new_test_ext();
    let alice = get_alice();
    t.set_identity(alice);
    let _ = t.join(alice);
    let _ = t.propose(alice, title, 100);
    assert_eq!(t.first_proposal(), long);
}

#[test]
fn commit_errors() {
    let mut t = new_test_ext();
    let (alice, charlie) = (get_alice(), get_charlie());
    let h = t.two_members_one_proposal();
    let (sig, salt) = generate("//Alice", Vote::Yes);
    assert_eq!(t.commit(charlie, h, sig, 1, salt), Err(Error::NotMember));
    assert_eq!(t.commit(alice, h, sig, 0, salt), Err(Error::InvalidArgument));
    assert_eq!(t.commit(alice, [9u8; 32], sig, 1, salt), Err(Error::ProposalMissing));
    assert_eq!(t.commit(alice, h, sig, 1, salt), Ok(()));
    assert_eq!(t.commit(alice, h, sig, 1, salt), Err(Error::DuplicateVote));
    assert_eq!(t.tokens(&alice), 99);
}

#[test]
fn commit_after_close_vote_is_vote_ended() {
    let mut t = new_test_ext();
    let (alice, bob) = (get_alice(), get_bob());
    let h = t.two_members_one_proposal();
    t.now = 100;
    assert_eq!(t.close_vote(alice, h), Ok(()));
    assert_eq!(t.close_vote(alice, h), Err(Error::VoteAlreadyEnded));
    t.now = 0;
    let (sig, salt) = generate("//Bob", Vote::No);
    assert_eq!(t.commit(bob, h, sig, 1, salt), Err(Error::VoteEnded));
}

#[test]
fn reveal_and_close_errors() {
    let mut t = new_test_ext();
    let (alice, charlie) = (get_alice(), get_charlie());
    let h = t.two_members_one_proposal();
    assert_eq!(t.disclose(charlie, h, Vote::Yes), Err(Error::NotMember));
    assert_eq!(t.disclose(alice, h, Vote::Yes), Err(Error::NoCommit));
    assert_eq!(t.close_vote(charlie, h), Err(Error::NotMember));
    assert_eq!(t.close_vote(alice, [9u8; 32]), Err(Error::ProposalMissing));
    assert_eq!(t.close_reveal(charlie, h), Err(Error::NotMember));
    assert_eq!(t.close_reveal(alice, [9u8; 32]), Err(Error::ProposalMissing));
}

#[test]
fn signature_of_another_voter_is_invalid() {
    let mut t = new_test_ext();
    let alice = get_alice();
    let h = t.two_members_one_proposal();
    let (sig, salt) = generate("//Bob", Vote::Yes);
    let _ = t.commit(alice, h, sig, 1, salt);
    assert_eq!(t.disclose(alice, h, Vote::Yes), Err(Error::SignatureInvalid));
    // Alice's own signature, but over another salt than the one committed
    let (sig, _) = generate("//Alice", Vote::Yes);
    let mut t2 = new_test_ext();
    let h2 = t2.two_members_one_proposal();
    let _ = t2.commit(alice, h2, sig, 1, SALT + 1);
    assert_eq!(t2.disclose(alice, h2, Vote::Yes), Err(Error::SignatureInvalid));
}

#[test]
fn ledger_refusal_leaves_settlement_undone() {
    let mut t = new_test_ext();
    let (alice, bob) = (get_alice(), get_bob());
    let h = both_revealed(&mut t, 8, 2);
    t.now = 160;
    t.ledger.refuse = true;
    assert_eq!(t.close_reveal(bob, h), Err(Error::Ledger));
    assert_eq!(t.stake(&alice), ENTRY_FEE);
    assert_eq!(t.stake(&bob), ENTRY_FEE);
    assert_eq!(t.tokens(&alice), 36);
    assert!(!t.pallet.proposal(&h).unwrap().closed);
    t.ledger.refuse = false;
    assert_eq!(t.close_reveal(bob, h), Ok(()));
}

#[test]
fn late_reveal_refused_by_ledger_keeps_commit() {
    let mut t = new_test_ext();
    let alice = get_alice();
    let h = t.two_members_one_proposal();
    let (sig, salt) = generate("//Alice", Vote::Yes);
    let _ = t.commit(alice, h, sig, 8, salt);
    t.now = 101;
    let _ = t.close_vote(alice, h);
    t.now = 200;
    t.ledger.refuse = true;
    assert_eq!(t.disclose(alice, h, Vote::Yes), Err(Error::Ledger));
    assert!(t.pallet.commit(&alice, &h).is_some());
    assert_eq!(t.tokens(&alice), 36);
}

#[test]
fn partial_transfer_records_only_what_moved() {
    let mut t = new_test_ext();
    let (alice, bob) = (get_alice(), get_bob());
    let h = both_revealed(&mut t, 8, 2);
    // the ledger holds less in Bob's reserve than the record says
    t.ledger.accounts.get_mut(&bob).unwrap().1 = 1_000;
    t.now = 160;
    assert_eq!(t.close_reveal(alice, h), Ok(()));
    assert_eq!(t.stake(&bob), ENTRY_FEE - 1_000);
    assert_eq!(t.stake(&alice), ENTRY_FEE + 1_000);
    assert_eq!(t.pallet.proposal(&h).unwrap().payout, 1_000);
}

#[test]
fn reward_share_rounds_down() {
    let mut t = new_test_ext();
    let (alice, bob) = (get_alice(), get_bob());
    let _ = t.two_members_one_proposal();
    let pot_before = t.ledger.reserved(&pot());
    t.ledger.accounts.get_mut(&pot()).unwrap().1 += 7;
    assert_eq!(t.pallet.reward_voting_side(&mut t.ledger, &vec![alice, bob], 7), Ok(()));
    assert_eq!(t.stake(&alice), ENTRY_FEE + 3);
    assert_eq!(t.stake(&bob), ENTRY_FEE + 3);
    assert_eq!(t.ledger.reserved(&pot()), pot_before + 1);
    assert_eq!(t.pallet.reward_voting_side(&mut t.ledger, &vec![], 7), Ok(()));
}

#[test]
fn slash_takes_a_tenth_rounded_down() {
    let mut t = new_test_ext();
    let (alice, bob) = (get_alice(), get_bob());
    let _ = t.two_members_one_proposal();
    t.pallet.set_reserved_balance(&alice, 99);
    t.ledger.accounts.get_mut(&alice).unwrap().1 = 99;
    let payout = t.pallet.slash_voting_side(&mut t.ledger, &vec![alice, bob]);
    assert_eq!(payout, Ok(9 + ENTRY_FEE / 10));
    assert_eq!(t.stake(&alice), 90);
    assert_eq!(t.pallet.account_id(), pot());
    assert_eq!(t.pallet.config().reveal_length, 50);
}

#[test]
fn largest_title_is_accepted() {
    let title = vec![0xabu8; 2048];
    let mut encoded = vec![0u8, 0x01, 0x20];
    encoded.extend_from_slice(&title);
    let h = Pallet::proposal_hash(&Data::Raw(title.clone()));
    assert_eq!(h, <BlakeTwo256 as sp_runtime::traits::Hash>::hash(&encoded).0);
    let mut t = new_test_ext();
    let alice = get_alice();
    t.set_identity(alice);
    let _ = t.join(alice);
    assert_eq!(t.propose(alice, title, 100), Ok(()));
    assert_eq!(t.first_proposal(), h);
}

#[test]
fn genesis_funds_the_pot_once() {
    let t = new_test_ext();
    assert_eq!(t.ledger.free_balance(&pot()), 500);
    let mut ledger = Ledger { accounts: HashMap::new(), refuse: false };
    assert!(GenesisConfig.build(&t.pallet, &mut ledger));
    assert_eq!(ledger.free_balance(&pot()), 500);
    assert!(!GenesisConfig.build(&t.pallet, &mut ledger));
}

#[test]
fn reveal_on_closed_proposal_is_late() {
    let mut t = new_test_ext();
    let (alice, bob) = (get_alice(), get_bob());
    let h = t.two_members_one_proposal();
    let (sig, salt) = generate("//Alice", Vote::Yes);
    let _ = t.commit(alice, h, sig, 8, salt);
    let (sig, salt) = generate("//Bob", Vote::No);
    let _ = t.commit(bob, h, sig, 2, salt);
    t.now = 101;
    let _ = t.close_vote(alice, h);
    assert_eq!(t.disclose(bob, h, Vote::No), Ok(()));
    // the reveal phase ends at 151: close it then, and reveal in that block
    t.now = 151;
    assert_eq!(t.close_reveal(bob, h), Ok(()));
    let stake = t.stake(&alice);
    assert_eq!(t.disclose(alice, h, Vote::Yes), Ok(()));
    let p = t.pallet.proposal(&h).unwrap();
    assert_eq!((p.ayes, p.nays), (0, 2));
    assert_eq!(p.votes.len(), 1);
    assert_eq!(t.stake(&alice), stake - stake / 10);
    assert_eq!(t.tokens(&alice), MAX_TOKENS);
}

#[test]
fn non_member_with_short_duration_is_not_member() {
    let mut t = new_test_ext();
    let bob = get_bob();
    t.set_identity(bob);
    assert_eq!(t.propose(bob, vec![], 1), Err(Error::NotMember));
}
