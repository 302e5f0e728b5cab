//! The data of the committee: members' balances, proposals, commitments.
use vstd::prelude::*;

verus! {

/// An account: the 32 bytes of its sr25519 public key.
pub type AccountId = [u8; 32];

/// The identifier of a proposal: the Blake2-256 digest of its encoded title.
pub type ProposalHash = [u8; 32];

pub type BlockNumber = u64;

pub type Balance = u128;

/// Voting credits; a vote of weight `w` costs `w * w` of them.
pub type VoteToken = u8;

pub type MemberCount = u32;

pub type ProposalIndex = u32;

/// The largest title a proposal may carry, in bytes.
pub const MAX_TITLE_LEN: usize = 2048;

/// The title of a proposal.
#[derive(Clone, Debug)]
pub enum Data {
    /// The data is stored directly.
    Raw(Vec<u8>),
}

impl Data {
    pub open spec fn bytes(&self) -> Seq<u8> {
        match self {
            Data::Raw(b) => b@,
        }
    }

    pub open spec fn wf(&self) -> bool {
        self.bytes().len() <= MAX_TITLE_LEN
    }
}

/// A voter's choice.
#[derive(Clone, Copy, Debug, PartialEq, Eq, Structural)]
pub enum Vote {
    Yes,
    No,
}

impl Vote {
    /// The byte that encodes the choice.
    pub open spec fn index(self) -> u8 {
        match self {
            Vote::Yes => 0,
            Vote::No => 1,
        }
    }

    pub fn encode_index(&self) -> (r: u8)
        ensures
            r == self.index(),
    {
        match self {
            Vote::Yes => 0,
            Vote::No => 1,
        }
    }
}

/// A hidden vote: the signed choice, its weight and the salt signed with it.
#[derive(Clone, Copy, Debug)]
pub struct Commit {
    /// The sr25519 signature of the encoded `(choice, salt)`.
    pub signature: [u8; 64],
    /// The weight of the vote; exposed so that its cost can be taken at once.
    pub number: u8,
    /// The salt signed together with the choice.
    pub salt: u32,
}

/// What the committee records for a member.
#[derive(Clone, Copy, Debug, PartialEq, Eq, Structural)]
pub struct VoterBalance {
    /// The voting credits left to spend.
    pub voting_tokens: VoteToken,
    /// The collateral held in reserve for this member.
    pub reserved_balance: Balance,
}

/// A proposal and the course of its vote.
#[derive(Clone, Debug)]
pub struct Proposal {
    /// The title of proposal
    pub title: Data,
    /// Who proposed
    pub proposer: AccountId,
    /// Total revealed weight in favour
    pub ayes: u32,
    /// Total revealed weight against
    pub nays: u32,
    /// The end of the commit phase
    pub poll_end: BlockNumber,
    /// The end of the reveal phase, once the commit phase was closed
    pub reveal_end: Option<BlockNumber>,
    /// The revealed votes, in the order of their reveal
    pub votes: Vec<(AccountId, u8, Vote)>,
    /// The voters who revealed, in the same order
    pub revealed: Vec<AccountId>,
    /// The collateral slashed and handed out at the close
    pub payout: Balance,
    /// Whether the proposal is closed
    pub closed: bool,
}

/// The constants a committee is set up with.
#[derive(Clone, Copy, Debug)]
pub struct Config {
    /// The collateral a member deposits on joining
    pub basic_deposit: Balance,
    /// The length of the reveal phase
    pub reveal_length: BlockNumber,
    /// The number of proposals the committee holds at most
    pub max_proposals: ProposalIndex,
    /// The shortest commit phase a proposal may ask for
    pub min_length: BlockNumber,
    /// The voting credits of a member, at most and on joining
    pub max_voting_tokens: VoteToken,
    /// The account that holds slashed collateral until it is handed out
    pub pot: AccountId,
}

/// Why a request was refused.
#[derive(Clone, Copy, Debug, PartialEq, Eq, Structural)]
pub enum Error {
    /// Account is not a member
    NotMember,
    /// Account is already a member
    AlreadyMember,
    /// Account does not have an identity
    NoIdentity,
    /// Duplicate proposals not allowed
    DuplicateProposal,
    /// Proposal must exist
    ProposalMissing,
    /// Invalid Argument was supplied
    InvalidArgument,
    /// Duplicate vote ignored
    DuplicateVote,
    /// Members are already initialized
    AlreadyInitialized,
    /// There can only be a maximum of `max_proposals` proposals
    TooManyProposals,
    /// The given length bound for the proposal was too low
    WrongProposalLength,
    /// Not enough funds to join the voting council
    NotEnoughFunds,
    /// Voter does not have enough voting tokens to submit a vote
    NotEnoughVotingTokens,
    /// Voting phase ended
    VoteEnded,
    /// Vote has already ended when trying to close it
    VoteAlreadyEnded,
    /// Too early to do action
    TooEarly,
    /// Reveal phase has not yet started
    RevealNotStarted,
    /// Reveal phase ended, proposal finished
    RevealEnded,
    /// No commit has been submitted
    NoCommit,
    /// Could not verify signature of a commit
    SignatureInvalid,
    /// The voter is in the middle of vote
    InMotion,
    /// The collateral ledger refused a reserve or a transfer
    Ledger,
}

/// A refusal by the collateral ledger.
#[derive(Clone, Copy, Debug, PartialEq, Eq, Structural)]
pub struct LedgerError;

/// A transfer between reserves asked of the ledger: from, to, the amount
/// asked, and the answer, the part that could not be moved or a refusal.
pub type Transfer = (AccountId, AccountId, Balance, Result<Balance, LedgerError>);

/// Tells whether an account has a registered identity.
pub trait IdentityProvider {
    fn check_existence(&self, account: &AccountId) -> bool;
}

/// The ledger that holds members' collateral in reserve.
pub trait ReservableCurrency {
    /// The least free balance an account must keep to exist.
    fn minimum_balance(&self) -> Balance;

    /// The free balance of `who`.
    fn free_balance(&self, who: &AccountId) -> Balance;

    /// Sets the free balance of `who` to `value`.
    fn make_free_balance_be(&mut self, who: &AccountId, value: Balance);

    /// Whether `value` of the free balance of `who` could be reserved.
    fn can_reserve(&self, who: &AccountId, value: Balance) -> bool;

    /// Moves `value` of the free balance of `who` into reserve.
    fn reserve(&mut self, who: &AccountId, value: Balance) -> Result<(), LedgerError>;

    /// Moves up to `value` of the reserve of `who` back to the free balance;
    /// returns the part that could not be moved.
    fn unreserve(&mut self, who: &AccountId, value: Balance) -> Balance;

    /// Moves up to `value` of the reserve of `slashed` into the reserve of
    /// `beneficiary`; returns the part that could not be moved.
    fn repatriate_reserved(
        &mut self,
        slashed: &AccountId,
        beneficiary: &AccountId,
        value: Balance,
    ) -> Result<Balance, LedgerError>;
}

} // verus!
