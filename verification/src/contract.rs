use crate::caps::{spec_authorized, CapabilityManager, Operation, TokenHandle, TokenV};
use crate::errors::Error;
use crate::index::UnsolvedIndex;
use crate::json::{parse_json_bool, spec_json_bool};
use crate::puzzle::{
    status_progress, status_step, JsonPuzzle, JsonPuzzleV, NewPuzzleArgs, Puzzle, PuzzleStatus,
    PuzzleV, StatusV, UnsolvedPuzzles,
};
use crate::registry::PuzzleRegistry;
use crate::settlement::{
    lemma_sum_amounts_bounds_member, lemma_sum_amounts_push, lemma_sum_amounts_remove, sum_amounts,
    CallOutcome, PendingAction, PendingSettlement, PendingV, SettlementAction, SettlementKind,
};
use vstd::prelude::*;

verus! {

/// The reward escrowed with every puzzle, in the environment's smallest
/// denomination of value.
pub const PRIZE_AMOUNT: u128 = 5_000_000_000_000_000_000_000_000;

/// The usage budget attached to each capability token; carried for the
/// execution environment, never inspected by the core.
pub const ACCESS_KEY_ALLOWANCE: u128 = 250_000_000_000_000_000_000_000;

/// The operations the phase-1 (answer) capability allows: solving only.
pub open spec fn answer_ops() -> Seq<Operation> {
    seq![Operation::SubmitSolution]
}

/// The operations the phase-2 (solver) capability allows: the two claim
/// variants only.
pub open spec fn solver_ops() -> Seq<Operation> {
    seq![Operation::ClaimReward, Operation::ClaimRewardNewAccount]
}

fn make_answer_ops() -> (v: Vec<Operation>)
    ensures
        v@ == answer_ops(),
{
    let mut v: Vec<Operation> = Vec::new();
    v.push(Operation::SubmitSolution);
    proof {
        assert(v@ =~= answer_ops());
    }
    v
}

fn make_solver_ops() -> (v: Vec<Operation>)
    ensures
        v@ == solver_ops(),
{
    let mut v: Vec<Operation> = Vec::new();
    v.push(Operation::ClaimReward);
    v.push(Operation::ClaimRewardNewAccount);
    proof {
        assert(v@ =~= solver_ops());
    }
    v
}

/// The capability a puzzle in the given status must have: exactly one token
/// per phase, scoped to the puzzle's credential, and none once it is claimed.
/// Issuing the phase-2 token revokes the phase-1 token in the same atomic
/// transition, so there is never a window with both or with neither while the
/// puzzle is claimable.
pub open spec fn cap_matches(caps: Map<Seq<char>, TokenV>, c: Seq<char>, status: StatusV) -> bool {
    match status {
        StatusV::Unsolved => caps.dom().contains(c) && caps[c].holder == c && caps[c].allowed
            == answer_ops(),
        StatusV::Solved { solver_pk } => caps.dom().contains(c) && caps[c].holder == solver_pk
            && caps[c].allowed == solver_ops(),
        StatusV::Claimed { .. } => !caps.dom().contains(c),
    }
}

/// How one protocol call may change the puzzle records: no record
/// disappears, `reward`, `creator` and the metadata never change, and each
/// status takes at most one step forward.
pub open spec fn puzzles_step(m1: Map<Seq<char>, PuzzleV>, m2: Map<Seq<char>, PuzzleV>) -> bool {
    forall|c: Seq<char>| #[trigger]
        m1.dom().contains(c) ==> {
            &&& m2.dom().contains(c)
            &&& status_step(m1[c].status, m2[c].status)
            &&& m2[c].reward == m1[c].reward
            &&& m2[c].creator == m1[c].creator
            &&& m2[c].dimensions == m1[c].dimensions
            &&& m2[c].answers == m1[c].answers
        }
}

/// How any sequence of protocol calls may change the puzzle records: the
/// reflexive, transitive closure of [`puzzles_step`]. Statuses only ever
/// follow `Unsolved`, then `Solved`, then `Claimed`; no call sequence can
/// produce any other order.
pub open spec fn puzzles_reachable(
    m1: Map<Seq<char>, PuzzleV>,
    m2: Map<Seq<char>, PuzzleV>,
) -> bool {
    forall|c: Seq<char>| #[trigger]
        m1.dom().contains(c) ==> {
            &&& m2.dom().contains(c)
            &&& status_progress(m1[c].status, m2[c].status)
            &&& m2[c].reward == m1[c].reward
            &&& m2[c].creator == m1[c].creator
            &&& m2[c].dimensions == m1[c].dimensions
            &&& m2[c].answers == m1[c].answers
        }
}

/// What one call may do, any sequence of calls may reach.
pub proof fn lemma_puzzles_step_implies_reachable(
    m1: Map<Seq<char>, PuzzleV>,
    m2: Map<Seq<char>, PuzzleV>,
)
    requires
        puzzles_step(m1, m2),
    ensures
        puzzles_reachable(m1, m2),
{
}

/// Reachability composes, so every puzzle's status advances monotonically
/// along the lifecycle over any sequence of calls.
pub proof fn lemma_puzzles_reachable_transitive(
    m1: Map<Seq<char>, PuzzleV>,
    m2: Map<Seq<char>, PuzzleV>,
    m3: Map<Seq<char>, PuzzleV>,
)
    requires
        puzzles_reachable(m1, m2),
        puzzles_reachable(m2, m3),
    ensures
        puzzles_reachable(m1, m3),
{
    assert forall|c: Seq<char>| #[trigger] m1.dom().contains(c) implies {
        &&& m3.dom().contains(c)
        &&& status_progress(m1[c].status, m3[c].status)
        &&& m3[c].reward == m1[c].reward
        &&& m3[c].creator == m1[c].creator
        &&& m3[c].dimensions == m1[c].dimensions
        &&& m3[c].answers == m1[c].answers
    } by {
        assert(m2.dom().contains(c));
    }
}

/// Some in-flight settlement carries this handle.
pub open spec fn has_pending(s: Seq<PendingV>, handle: u64) -> bool {
    exists|i: int| 0 <= i < s.len() && s[i].handle == handle
}

/// Some in-flight settlement carries this handle and is of this kind.
pub open spec fn pending_match(s: Seq<PendingV>, handle: u64, kind: SettlementKind) -> bool {
    exists|i: int| 0 <= i < s.len() && s[i].handle == handle && s[i].kind == kind
}

/// The position of the in-flight settlement carrying this handle; well
/// defined whenever handles are distinct, as the state invariant keeps them.
pub open spec fn pending_index(s: Seq<PendingV>, handle: u64) -> int {
    choose|i: int| 0 <= i < s.len() && s[i].handle == handle
}

/// The same record with its status advanced to `Solved`: everything else is
/// untouched.
pub open spec fn solved_record(p: PuzzleV, solver_pk: Seq<char>) -> PuzzleV {
    PuzzleV {
        status: StatusV::Solved { solver_pk },
        reward: p.reward,
        creator: p.creator,
        dimensions: p.dimensions,
        answers: p.answers,
    }
}

/// The same record with its status advanced to `Claimed`: everything else is
/// untouched.
pub open spec fn claimed_record(p: PuzzleV, memo: Seq<char>) -> PuzzleV {
    PuzzleV {
        status: StatusV::Claimed { memo },
        reward: p.reward,
        creator: p.creator,
        dimensions: p.dimensions,
        answers: p.answers,
    }
}

/// The record created for a fresh puzzle: unsolved, escrowing the fixed
/// reward, owned by its creator, carrying the metadata verbatim.
pub open spec fn new_puzzle_record(creator: Seq<char>, args: NewPuzzleArgs) -> PuzzleV {
    PuzzleV {
        status: StatusV::Unsolved,
        reward: PRIZE_AMOUNT,
        creator,
        dimensions: args.dimensions,
        answers: args.answers.deep_view(),
    }
}

/// The whole protocol state: one instance is constructed at initialization
/// and passed explicitly to every operation.
pub struct Crossword {
    owner_id: String,
    creator_account: String,
    puzzles: PuzzleRegistry,
    unsolved_puzzles: UnsolvedIndex,
    caps: CapabilityManager,
    pending: Vec<PendingSettlement>,
    next_handle: u64,
    balance: u128,
}

impl Crossword {
    /// The credential registry's contents.
    pub closed spec fn puzzles_view(self) -> Map<Seq<char>, PuzzleV> {
        self.puzzles@
    }

    /// The unsolved index, in its stable enumeration order.
    pub closed spec fn unsolved_view(self) -> Seq<Seq<char>> {
        self.unsolved_puzzles@
    }

    /// The active capability tokens, by the credential they are scoped to.
    pub closed spec fn caps_view(self) -> Map<Seq<char>, TokenV> {
        self.caps@
    }

    /// The in-flight settlements, oldest first.
    pub closed spec fn pending_view(self) -> Seq<PendingV> {
        self.pending.deep_view()
    }

    /// The value currently in the contract's custody.
    pub closed spec fn spec_balance(self) -> u128 {
        self.balance
    }

    /// The privileged identity that may create puzzles.
    pub closed spec fn spec_owner(self) -> Seq<char> {
        self.owner_id@
    }

    /// The account that provisions new recipient identities.
    pub closed spec fn spec_creator_account(self) -> Seq<char> {
        self.creator_account@
    }

    /// The handle the next initiated settlement will get.
    pub closed spec fn spec_next_handle(self) -> u64 {
        self.next_handle
    }

    /// The state's internal invariant. Every operation requires and
    /// preserves it:
    /// - the unsolved index holds exactly the credentials of `Unsolved`
    ///   puzzles, each once;
    /// - each puzzle's phase has exactly the capability token
    ///   [`cap_matches`] demands, and no token guards an unknown credential;
    /// - in-flight settlements carry distinct handles below the next one and
    ///   refer to existing puzzles;
    /// - the custody balance plus all in-flight value fits the value type,
    ///   so a failed settlement can always be refunded.
    pub open spec fn wf(self) -> bool {
        &&& (forall|i: int, j: int|
            0 <= i < j < self.unsolved_view().len() ==> self.unsolved_view()[i]
                != self.unsolved_view()[j])
        &&& (forall|c: Seq<char>| #[trigger]
            self.unsolved_view().contains(c) ==> self.puzzles_view().dom().contains(c))
        &&& (forall|c: Seq<char>| #[trigger]
            self.puzzles_view().dom().contains(c) ==> (self.puzzles_view()[c].status is Unsolved
                <==> self.unsolved_view().contains(c)))
        &&& (forall|c: Seq<char>| #[trigger]
            self.puzzles_view().dom().contains(c) ==> cap_matches(
                self.caps_view(),
                c,
                self.puzzles_view()[c].status,
            ))
        &&& (forall|c: Seq<char>| #[trigger]
            self.caps_view().dom().contains(c) ==> self.puzzles_view().dom().contains(c))
        &&& (forall|i: int|
            0 <= i < self.pending_view().len() ==> (#[trigger] self.pending_view()[i]).handle
                < self.spec_next_handle())
        &&& (forall|i: int, j: int|
            0 <= i < j < self.pending_view().len() ==> self.pending_view()[i].handle
                != self.pending_view()[j].handle)
        &&& (forall|i: int|
            0 <= i < self.pending_view().len() ==> self.puzzles_view().dom().contains(
                (#[trigger] self.pending_view()[i]).crossword_pk,
            ))
        &&& self.spec_balance() + sum_amounts(self.pending_view()) <= u128::MAX
    }

    /// Initializes the protocol state: the owner and the provisioning
    /// account are fixed here for good, the stores start empty, and
    /// `initial_balance` is the value the environment has placed in the
    /// contract's custody.
    pub fn new(owner_id: String, creator_account: String, initial_balance: u128) -> (c: Self)
        ensures
            c.wf(),
            c.puzzles_view() == Map::<Seq<char>, PuzzleV>::empty(),
            c.unsolved_view() == Seq::<Seq<char>>::empty(),
            c.caps_view() == Map::<Seq<char>, TokenV>::empty(),
            c.pending_view() == Seq::<PendingV>::empty(),
            c.spec_balance() == initial_balance,
            c.spec_owner() == owner_id@,
            c.spec_creator_account() == creator_account@,
            c.spec_next_handle() == 0,
    {
        let c = Crossword {
            owner_id,
            creator_account,
            puzzles: PuzzleRegistry::new(),
            unsolved_puzzles: UnsolvedIndex::new(),
            caps: CapabilityManager::new(),
            pending: Vec::new(),
            next_handle: 0,
            balance: initial_balance,
        };
        proof {
            assert(c.pending_view() =~= Seq::<PendingV>::empty());
        }
        c
    }

    /// Creates a puzzle under the answer credential in `args`, escrowing the
    /// fixed reward. Only the configured owner may call this; a credential
    /// already in use is rejected without touching the existing record. On
    /// success the puzzle starts `Unsolved`, joins the unsolved index, and
    /// the phase-1 capability is issued to the credential itself: whoever can
    /// authenticate as its holder may later solve.
    pub fn new_puzzle(&mut self, caller: &String, args: NewPuzzleArgs) -> (r: Result<(), Error>)
        requires
            old(self).wf(),
        ensures
            final(self).wf(),
            final(self).spec_owner() == old(self).spec_owner(),
            final(self).spec_creator_account() == old(self).spec_creator_account(),
            final(self).spec_balance() == old(self).spec_balance(),
            final(self).pending_view() == old(self).pending_view(),
            final(self).spec_next_handle() == old(self).spec_next_handle(),
            puzzles_step(old(self).puzzles_view(), final(self).puzzles_view()),
            caller@ != old(self).spec_owner() ==> r == Err::<(), Error>(Error::Unauthorized)
                && *final(self) == *old(self),
            caller@ == old(self).spec_owner() && old(self).puzzles_view().dom().contains(
                args.answer_pk@,
            ) ==> r == Err::<(), Error>(Error::DuplicateCredential) && *final(self) == *old(self),
            caller@ == old(self).spec_owner() && !old(self).puzzles_view().dom().contains(
                args.answer_pk@,
            ) ==> {
                &&& r == Ok::<(), Error>(())
                &&& final(self).puzzles_view() == old(self).puzzles_view().insert(
                    args.answer_pk@,
                    new_puzzle_record(caller@, args),
                )
                &&& final(self).unsolved_view() == old(self).unsolved_view().push(args.answer_pk@)
                &&& final(self).caps_view() == old(self).caps_view().insert(
                    args.answer_pk@,
                    TokenV {
                        holder: args.answer_pk@,
                        allowed: answer_ops(),
                        allowance: ACCESS_KEY_ALLOWANCE,
                    },
                )
            },
    {
        if !(*caller == self.owner_id) {
            return Err(Error::Unauthorized);
        }
        let NewPuzzleArgs { answer_pk, dimensions, answers } = args;
        let puzzle = Puzzle {
            status: PuzzleStatus::Unsolved,
            reward: PRIZE_AMOUNT,
            creator: caller.clone(),
            dimensions,
            answer: answers,
        };
        proof {
            assert(puzzle@ == new_puzzle_record(caller@, args));
        }
        if !self.puzzles.put_if_absent(answer_pk.clone(), puzzle) {
            return Err(Error::DuplicateCredential);
        }
        self.unsolved_puzzles.add(answer_pk.clone());
        let ops = make_answer_ops();
        let _handle = self.caps.issue(answer_pk.clone(), ops, ACCESS_KEY_ALLOWANCE, answer_pk);
        proof {
            self.lemma_new_puzzle_wf(*old(self), args.answer_pk@, caller@, args);
        }
        Ok(())
    }

    /// The well-formedness argument for a successful [`Self::new_puzzle`].
    proof fn lemma_new_puzzle_wf(
        self,
        pre: Self,
        c: Seq<char>,
        creator: Seq<char>,
        args: NewPuzzleArgs,
    )
        requires
            pre.wf(),
            !pre.puzzles_view().dom().contains(c),
            self.puzzles_view() == pre.puzzles_view().insert(c, new_puzzle_record(creator, args)),
            self.unsolved_view() == pre.unsolved_view().push(c),
            self.caps_view() == pre.caps_view().insert(
                c,
                TokenV { holder: c, allowed: answer_ops(), allowance: ACCESS_KEY_ALLOWANCE },
            ),
            self.pending_view() == pre.pending_view(),
            self.spec_next_handle() == pre.spec_next_handle(),
            self.spec_balance() == pre.spec_balance(),
        ensures
            self.wf(),
            puzzles_step(pre.puzzles_view(), self.puzzles_view()),
    {
        assert(!pre.unsolved_view().contains(c));
        assert forall|i: int, j: int|
            0 <= i < j < self.unsolved_view().len() implies self.unsolved_view()[i]
            != self.unsolved_view()[j] by {
            if j < pre.unsolved_view().len() {
            } else {
                assert(self.unsolved_view()[j] == c);
                assert(pre.unsolved_view()[i] == self.unsolved_view()[i]);
                if pre.unsolved_view()[i] == c {
                    assert(pre.unsolved_view().contains(c));
                }
            }
        }
        assert forall|d: Seq<char>| #[trigger]
            self.unsolved_view().contains(d) implies self.puzzles_view().dom().contains(d) by {
            let k: int = choose|k: int|
                0 <= k < self.unsolved_view().len() && self.unsolved_view()[k] == d;
            if k < pre.unsolved_view().len() {
                assert(pre.unsolved_view().contains(d));
            }
        }
        assert forall|d: Seq<char>| #[trigger]
            self.puzzles_view().dom().contains(d) implies (self.puzzles_view()[d].status
            is Unsolved <==> self.unsolved_view().contains(d)) by {
            if d == c {
                assert(self.unsolved_view()[self.unsolved_view().len() - 1] == c);
                assert(self.unsolved_view().contains(c));
            } else {
                assert(pre.puzzles_view().dom().contains(d));
                if pre.unsolved_view().contains(d) {
                    let k: int = choose|k: int|
                        0 <= k < pre.unsolved_view().len() && pre.unsolved_view()[k] == d;
                    assert(self.unsolved_view()[k] == d);
                    assert(self.unsolved_view().contains(d));
                }
                if self.unsolved_view().contains(d) {
                    let k: int = choose|k: int|
                        0 <= k < self.unsolved_view().len() && self.unsolved_view()[k] == d;
                    assert(k < pre.unsolved_view().len());
                    assert(pre.unsolved_view().contains(d));
                }
            }
        }
        assert forall|d: Seq<char>| #[trigger]
            self.puzzles_view().dom().contains(d) implies cap_matches(
            self.caps_view(),
            d,
            self.puzzles_view()[d].status,
        ) by {
            if d == c {
            } else {
                assert(pre.puzzles_view().dom().contains(d));
                assert(cap_matches(pre.caps_view(), d, pre.puzzles_view()[d].status));
            }
        }
        assert forall|d: Seq<char>| #[trigger]
            self.caps_view().dom().contains(d) implies self.puzzles_view().dom().contains(d) by {
            if d != c {
                assert(pre.caps_view().dom().contains(d));
            }
        }
        assert(self.spec_balance() + sum_amounts(self.pending_view()) <= u128::MAX);
    }

    /// Records that the presenter of an answer credential has solved its
    /// puzzle, naming `solver_pk` as the solver. The puzzle must exist and
    /// still be `Unsolved`; a solved or claimed puzzle rejects the attempt
    /// with no state change. In one atomic transition the status becomes
    /// `Solved`, the credential leaves the unsolved index, the phase-1
    /// capability is revoked and the phase-2 capability is issued to the
    /// solver.
    pub fn submit_solution(&mut self, signer_pk: &String, solver_pk: String) -> (r: Result<
        (),
        Error,
    >)
        requires
            old(self).wf(),
        ensures
            final(self).wf(),
            final(self).spec_owner() == old(self).spec_owner(),
            final(self).spec_creator_account() == old(self).spec_creator_account(),
            final(self).spec_balance() == old(self).spec_balance(),
            final(self).pending_view() == old(self).pending_view(),
            final(self).spec_next_handle() == old(self).spec_next_handle(),
            puzzles_step(old(self).puzzles_view(), final(self).puzzles_view()),
            !old(self).puzzles_view().dom().contains(signer_pk@) ==> r == Err::<(), Error>(
                Error::PuzzleNotFound,
            ) && *final(self) == *old(self),
            old(self).puzzles_view().dom().contains(signer_pk@) && old(
                self,
            ).puzzles_view()[signer_pk@].status is Solved ==> r == Err::<(), Error>(
                Error::AlreadySolved,
            ) && *final(self) == *old(self),
            old(self).puzzles_view().dom().contains(signer_pk@) && old(
                self,
            ).puzzles_view()[signer_pk@].status is Claimed ==> r == Err::<(), Error>(
                Error::AlreadyClaimed,
            ) && *final(self) == *old(self),
            old(self).puzzles_view().dom().contains(signer_pk@) && old(
                self,
            ).puzzles_view()[signer_pk@].status is Unsolved ==> {
                &&& r == Ok::<(), Error>(())
                &&& final(self).puzzles_view() == old(self).puzzles_view().insert(
                    signer_pk@,
                    solved_record(old(self).puzzles_view()[signer_pk@], solver_pk@),
                )
                &&& final(self).unsolved_view() == old(self).unsolved_view().remove_value(
                    signer_pk@,
                )
                &&& final(self).caps_view() == old(self).caps_view().insert(
                    signer_pk@,
                    TokenV {
                        holder: solver_pk@,
                        allowed: solver_ops(),
                        allowance: ACCESS_KEY_ALLOWANCE,
                    },
                )
            },
    {
        let updated = match self.puzzles.get(signer_pk) {
            None => {
                return Err(Error::PuzzleNotFound);
            },
            Some(p) => {
                match &p.status {
                    PuzzleStatus::Solved { .. } => {
                        return Err(Error::AlreadySolved);
                    },
                    PuzzleStatus::Claimed { .. } => {
                        return Err(Error::AlreadyClaimed);
                    },
                    PuzzleStatus::Unsolved => {
                        let mut q = p.clone();
                        q.status = PuzzleStatus::Solved { solver_pk: solver_pk.clone() };
                        q
                    },
                }
            },
        };
        proof {
            assert(updated@ == solved_record(old(self).puzzles_view()[signer_pk@], solver_pk@));
        }
        // The capability gate of the solve step. Under the state invariant
        // the phase-1 token is held by the credential itself, so the check
        // always passes here; it is the enforcement point the protocol
        // demands before any transition.
        if !self.caps.authorize(signer_pk, Operation::SubmitSolution, signer_pk) {
            proof {
                assert(cap_matches(
                    self.caps_view(),
                    signer_pk@,
                    self.puzzles_view()[signer_pk@].status,
                ));
                assert(answer_ops()[0] == Operation::SubmitSolution);
                assert(answer_ops().contains(Operation::SubmitSolution));
                assert(false);
            }
            return Err(Error::Unauthorized);
        }
        self.puzzles.update(signer_pk.clone(), updated);
        self.unsolved_puzzles.remove(signer_pk);
        let handle = TokenHandle::of(signer_pk.clone());
        self.caps.revoke(&handle);
        let ops = make_solver_ops();
        let _handle = self.caps.issue(solver_pk, ops, ACCESS_KEY_ALLOWANCE, signer_pk.clone());
        proof {
            assert(self.caps_view() =~= old(self).caps_view().insert(
                signer_pk@,
                TokenV {
                    holder: solver_pk@,
                    allowed: solver_ops(),
                    allowance: ACCESS_KEY_ALLOWANCE,
                },
            )) by {
                assert(self.caps_view() =~= old(self).caps_view().remove(signer_pk@).insert(
                    signer_pk@,
                    self.caps_view()[signer_pk@],
                ));
            }
            self.lemma_submit_wf(*old(self), signer_pk@, solver_pk@);
        }
        Ok(())
    }

    /// The well-formedness argument for a successful [`Self::submit_solution`].
    proof fn lemma_submit_wf(self, pre: Self, c: Seq<char>, s: Seq<char>)
        requires
            pre.wf(),
            pre.puzzles_view().dom().contains(c),
            pre.puzzles_view()[c].status is Unsolved,
            self.puzzles_view() == pre.puzzles_view().insert(
                c,
                solved_record(pre.puzzles_view()[c], s),
            ),
            self.unsolved_view() == pre.unsolved_view().remove_value(c),
            self.caps_view() == pre.caps_view().insert(
                c,
                TokenV { holder: s, allowed: solver_ops(), allowance: ACCESS_KEY_ALLOWANCE },
            ),
            self.pending_view() == pre.pending_view(),
            self.spec_next_handle() == pre.spec_next_handle(),
            self.spec_balance() == pre.spec_balance(),
        ensures
            self.wf(),
            puzzles_step(pre.puzzles_view(), self.puzzles_view()),
    {
        let u0 = pre.unsolved_view();
        let u1 = self.unsolved_view();
        assert(u0.contains(c));
        u0.index_of_first_ensures(c);
        let k: int = u0.index_of_first(c).unwrap();
        assert(u1 == u0.remove(k));
        u0.remove_ensures(k);
        // Each entry of the shrunk index is an entry of the old one, at a
        // known shifted position.
        assert forall|i: int| 0 <= i < u1.len() implies u1[i] == u0[if i < k {
            i
        } else {
            i + 1
        }] by {}
        assert forall|i: int, j: int| 0 <= i < j < u1.len() implies u1[i] != u1[j] by {
            let i0: int = if i < k {
                i
            } else {
                i + 1
            };
            let j0: int = if j < k {
                j
            } else {
                j + 1
            };
            assert(u1[i] == u0[i0] && u1[j] == u0[j0] && i0 < j0);
        }
        assert(!u1.contains(c)) by {
            if u1.contains(c) {
                let m: int = choose|m: int| 0 <= m < u1.len() && u1[m] == c;
                let m0: int = if m < k {
                    m
                } else {
                    m + 1
                };
                assert(u0[m0] == c && m0 != k && u0[k] == c);
            }
        }
        assert forall|d: Seq<char>| #[trigger] u1.contains(d) implies u0.contains(d) by {
            let m: int = choose|m: int| 0 <= m < u1.len() && u1[m] == d;
            let m0: int = if m < k {
                m
            } else {
                m + 1
            };
            assert(u0[m0] == d);
        }
        assert forall|d: Seq<char>| #[trigger] u0.contains(d) && d != c implies u1.contains(d) by {
            let m: int = choose|m: int| 0 <= m < u0.len() && u0[m] == d;
            let m1: int = if m < k {
                m
            } else {
                m - 1
            };
            assert(m != k);
            assert(u1[m1] == d);
        }
        assert forall|d: Seq<char>| #[trigger]
            self.puzzles_view().dom().contains(d) implies (self.puzzles_view()[d].status
            is Unsolved <==> u1.contains(d)) by {
            if d != c {
                assert(pre.puzzles_view().dom().contains(d));
            }
        }
        assert forall|d: Seq<char>| #[trigger]
            self.puzzles_view().dom().contains(d) implies cap_matches(
            self.caps_view(),
            d,
            self.puzzles_view()[d].status,
        ) by {
            if d != c {
                assert(pre.puzzles_view().dom().contains(d));
                assert(cap_matches(pre.caps_view(), d, pre.puzzles_view()[d].status));
            }
        }
        assert forall|d: Seq<char>| #[trigger]
            self.caps_view().dom().contains(d) implies self.puzzles_view().dom().contains(d) by {
            if d != c {
                assert(pre.caps_view().dom().contains(d));
            }
        }
    }

    /// The shared first phase of both claim variants: guard the state
    /// machine, enforce the solver capability, check the escrow, debit the
    /// reward and record the in-flight settlement. Returns the new handle
    /// and the amount that travels with the external call.
    fn initiate_settlement(
        &mut self,
        signer_pk: &String,
        crossword_pk: String,
        account_id: String,
        memo: String,
        kind: SettlementKind,
        operation: Operation,
    ) -> (r: Result<(u64, u128), Error>)
        requires
            old(self).wf(),
            old(self).spec_next_handle() < u64::MAX,
            operation == Operation::ClaimReward <==> kind == SettlementKind::Transfer,
            operation == Operation::ClaimReward || operation == Operation::ClaimRewardNewAccount,
        ensures
            final(self).wf(),
            final(self).spec_owner() == old(self).spec_owner(),
            final(self).spec_creator_account() == old(self).spec_creator_account(),
            final(self).puzzles_view() == old(self).puzzles_view(),
            final(self).unsolved_view() == old(self).unsolved_view(),
            final(self).caps_view() == old(self).caps_view(),
            !old(self).puzzles_view().dom().contains(crossword_pk@) ==> r == Err::<
                (u64, u128),
                Error,
            >(Error::PuzzleNotFound) && *final(self) == *old(self),
            old(self).puzzles_view().dom().contains(crossword_pk@) && old(
                self,
            ).puzzles_view()[crossword_pk@].status is Claimed ==> r == Err::<(u64, u128), Error>(
                Error::AlreadyClaimed,
            ) && *final(self) == *old(self),
            old(self).puzzles_view().dom().contains(crossword_pk@) && !(old(
                self,
            ).puzzles_view()[crossword_pk@].status is Claimed) && !spec_authorized(
                old(self).caps_view(),
                signer_pk@,
                operation,
                crossword_pk@,
            ) ==> r == Err::<(u64, u128), Error>(Error::Unauthorized) && *final(self) == *old(
                self,
            ),
            old(self).puzzles_view().dom().contains(crossword_pk@) && !(old(
                self,
            ).puzzles_view()[crossword_pk@].status is Claimed) && spec_authorized(
                old(self).caps_view(),
                signer_pk@,
                operation,
                crossword_pk@,
            ) && old(self).spec_balance() < old(self).puzzles_view()[crossword_pk@].reward ==> r
                == Err::<(u64, u128), Error>(Error::InsufficientFunds) && *final(self) == *old(
                self,
            ),
            old(self).puzzles_view().dom().contains(crossword_pk@) && !(old(
                self,
            ).puzzles_view()[crossword_pk@].status is Claimed) && spec_authorized(
                old(self).caps_view(),
                signer_pk@,
                operation,
                crossword_pk@,
            ) && old(self).spec_balance() >= old(self).puzzles_view()[crossword_pk@].reward ==> {
                &&& r == Ok::<(u64, u128), Error>(
                    (
                        old(self).spec_next_handle(),
                        old(self).puzzles_view()[crossword_pk@].reward,
                    ),
                )
                &&& final(self).pending_view() == old(self).pending_view().push(
                    PendingV {
                        handle: old(self).spec_next_handle(),
                        kind,
                        crossword_pk: crossword_pk@,
                        account_id: account_id@,
                        memo: memo@,
                        signer_pk: signer_pk@,
                        amount: old(self).puzzles_view()[crossword_pk@].reward,
                    },
                )
                &&& final(self).spec_balance() == old(self).spec_balance() - old(
                    self,
                ).puzzles_view()[crossword_pk@].reward
                &&& final(self).spec_next_handle() == old(self).spec_next_handle() + 1
            },
    {
        let reward: u128 = match self.puzzles.get(&crossword_pk) {
            None => {
                return Err(Error::PuzzleNotFound);
            },
            Some(p) => {
                match &p.status {
                    PuzzleStatus::Claimed { .. } => {
                        return Err(Error::AlreadyClaimed);
                    },
                    _ => {},
                }
                p.reward
            },
        };
        if !self.caps.authorize(signer_pk, operation, &crossword_pk) {
            return Err(Error::Unauthorized);
        }
        if self.balance < reward {
            return Err(Error::InsufficientFunds);
        }
        let handle: u64 = self.next_handle;
        self.next_handle = self.next_handle + 1;
        self.balance = self.balance - reward;
        let rec = PendingSettlement {
            handle,
            kind,
            crossword_pk,
            account_id,
            memo,
            signer_pk: signer_pk.clone(),
            amount: reward,
        };
        let ghost recv = rec@;
        self.pending.push(rec);
        proof {
            assert(self.pending_view() =~= old(self).pending_view().push(recv));
            lemma_sum_amounts_push(old(self).pending_view(), recv);
            assert forall|i: int, j: int|
                0 <= i < j < self.pending_view().len() implies self.pending_view()[i].handle
                != self.pending_view()[j].handle by {
                if j == self.pending_view().len() - 1 {
                    assert(self.pending_view()[i].handle < old(self).spec_next_handle());
                }
            }
        }
        Ok((handle, reward))
    }

    /// Direct claim: the solver asks for the escrowed reward to be
    /// transferred to an existing account. The puzzle must be `Solved` and
    /// the caller must present the phase-2 capability: any other identity is
    /// turned away with `Unauthorized` and no state change, and a puzzle
    /// already `Claimed` rejects every further attempt. When the guards
    /// pass and the escrow covers the reward, the reward leaves the custody
    /// balance with the external transfer and the settlement is recorded,
    /// to be finalized or rolled back by [`Self::callback_after_transfer`].
    ///
    /// `old(self).spec_next_handle() < u64::MAX` is a machine limit: handles
    /// are drawn from a 64-bit counter that never wraps.
    pub fn claim_reward(
        &mut self,
        signer_pk: &String,
        crossword_pk: String,
        receiver_acc_id: String,
        memo: String,
    ) -> (r: Result<PendingAction, Error>)
        requires
            old(self).wf(),
            old(self).spec_next_handle() < u64::MAX,
        ensures
            final(self).wf(),
            final(self).spec_owner() == old(self).spec_owner(),
            final(self).spec_creator_account() == old(self).spec_creator_account(),
            final(self).puzzles_view() == old(self).puzzles_view(),
            final(self).unsolved_view() == old(self).unsolved_view(),
            final(self).caps_view() == old(self).caps_view(),
            puzzles_step(old(self).puzzles_view(), final(self).puzzles_view()),
            !old(self).puzzles_view().dom().contains(crossword_pk@) ==> (r matches Err(e) && e == Error::PuzzleNotFound && *final(self) == *old(self)),
            old(self).puzzles_view().dom().contains(crossword_pk@) && old(
                self,
            ).puzzles_view()[crossword_pk@].status is Claimed ==> (r matches Err(e) && e == Error::AlreadyClaimed && *final(self) == *old(self)),
            old(self).puzzles_view().dom().contains(crossword_pk@) && !(old(
                self,
            ).puzzles_view()[crossword_pk@].status is Claimed) && !spec_authorized(
                old(self).caps_view(),
                signer_pk@,
                Operation::ClaimReward,
                crossword_pk@,
            ) ==> (r matches Err(e) && e == Error::Unauthorized && *final(self) == *old(self)),
            old(self).puzzles_view().dom().contains(crossword_pk@) && (old(
                self,
            ).puzzles_view()[crossword_pk@].status matches StatusV::Solved { solver_pk }
                && solver_pk != signer_pk@) ==> (r matches Err(e) && e == Error::Unauthorized
                && *final(self) == *old(self)),
            old(self).puzzles_view().dom().contains(crossword_pk@) && old(
                self,
            ).puzzles_view()[crossword_pk@].status is Unsolved ==> (r matches Err(e) && e
                == Error::Unauthorized && *final(self) == *old(self)),
            old(self).puzzles_view().dom().contains(crossword_pk@) && !(old(
                self,
            ).puzzles_view()[crossword_pk@].status is Claimed) && spec_authorized(
                old(self).caps_view(),
                signer_pk@,
                Operation::ClaimReward,
                crossword_pk@,
            ) && old(self).spec_balance() < old(self).puzzles_view()[crossword_pk@].reward ==> (r matches Err(e) && e == Error::InsufficientFunds && *final(self) == *old(self)),
            old(self).puzzles_view().dom().contains(crossword_pk@) && !(old(
                self,
            ).puzzles_view()[crossword_pk@].status is Claimed) && spec_authorized(
                old(self).caps_view(),
                signer_pk@,
                Operation::ClaimReward,
                crossword_pk@,
            ) && old(self).spec_balance() >= old(self).puzzles_view()[crossword_pk@].reward ==> {
                &&& r matches Ok(pa)
                &&& pa.handle == old(self).spec_next_handle()
                &&& pa.action matches SettlementAction::Transfer { receiver, amount }
                    && receiver@ == receiver_acc_id@ && amount == old(
                    self,
                ).puzzles_view()[crossword_pk@].reward
                &&& final(self).pending_view() == old(self).pending_view().push(
                    PendingV {
                        handle: old(self).spec_next_handle(),
                        kind: SettlementKind::Transfer,
                        crossword_pk: crossword_pk@,
                        account_id: receiver_acc_id@,
                        memo: memo@,
                        signer_pk: signer_pk@,
                        amount: old(self).puzzles_view()[crossword_pk@].reward,
                    },
                )
                &&& final(self).spec_balance() == old(self).spec_balance() - old(
                    self,
                ).puzzles_view()[crossword_pk@].reward
                &&& final(self).spec_next_handle() == old(self).spec_next_handle() + 1
            },
    {
        match self.initiate_settlement(
            signer_pk,
            crossword_pk,
            receiver_acc_id.clone(),
            memo,
            SettlementKind::Transfer,
            Operation::ClaimReward,
        ) {
            Err(e) => Err(e),
            Ok((handle, amount)) => Ok(
                PendingAction {
                    handle,
                    action: SettlementAction::Transfer { receiver: receiver_acc_id, amount },
                },
            ),
        }
    }

    /// Claim with a brand-new recipient: the solver asks the provisioning
    /// account to create `new_acc_id` with credential `new_pk`, funded with
    /// the escrowed reward. The guards are exactly those of
    /// [`Self::claim_reward`]; the settlement is finalized or rolled back by
    /// [`Self::callback_after_create_account`].
    ///
    /// `old(self).spec_next_handle() < u64::MAX` is a machine limit: handles
    /// are drawn from a 64-bit counter that never wraps.
    pub fn claim_reward_new_account(
        &mut self,
        signer_pk: &String,
        crossword_pk: String,
        new_acc_id: String,
        new_pk: String,
        memo: String,
    ) -> (r: Result<PendingAction, Error>)
        requires
            old(self).wf(),
            old(self).spec_next_handle() < u64::MAX,
        ensures
            final(self).wf(),
            final(self).spec_owner() == old(self).spec_owner(),
            final(self).spec_creator_account() == old(self).spec_creator_account(),
            final(self).puzzles_view() == old(self).puzzles_view(),
            final(self).unsolved_view() == old(self).unsolved_view(),
            final(self).caps_view() == old(self).caps_view(),
            puzzles_step(old(self).puzzles_view(), final(self).puzzles_view()),
            !old(self).puzzles_view().dom().contains(crossword_pk@) ==> (r matches Err(e) && e == Error::PuzzleNotFound && *final(self) == *old(self)),
            old(self).puzzles_view().dom().contains(crossword_pk@) && old(
                self,
            ).puzzles_view()[crossword_pk@].status is Claimed ==> (r matches Err(e) && e == Error::AlreadyClaimed && *final(self) == *old(self)),
            old(self).puzzles_view().dom().contains(crossword_pk@) && !(old(
                self,
            ).puzzles_view()[crossword_pk@].status is Claimed) && !spec_authorized(
                old(self).caps_view(),
                signer_pk@,
                Operation::ClaimRewardNewAccount,
                crossword_pk@,
            ) ==> (r matches Err(e) && e == Error::Unauthorized && *final(self) == *old(self)),
            old(self).puzzles_view().dom().contains(crossword_pk@) && (old(
                self,
            ).puzzles_view()[crossword_pk@].status matches StatusV::Solved { solver_pk }
                && solver_pk != signer_pk@) ==> (r matches Err(e) && e == Error::Unauthorized
                && *final(self) == *old(self)),
            old(self).puzzles_view().dom().contains(crossword_pk@) && old(
                self,
            ).puzzles_view()[crossword_pk@].status is Unsolved ==> (r matches Err(e) && e
                == Error::Unauthorized && *final(self) == *old(self)),
            old(self).puzzles_view().dom().contains(crossword_pk@) && !(old(
                self,
            ).puzzles_view()[crossword_pk@].status is Claimed) && spec_authorized(
                old(self).caps_view(),
                signer_pk@,
                Operation::ClaimRewardNewAccount,
                crossword_pk@,
            ) && old(self).spec_balance() < old(self).puzzles_view()[crossword_pk@].reward ==> (r matches Err(e) && e == Error::InsufficientFunds && *final(self) == *old(self)),
            old(self).puzzles_view().dom().contains(crossword_pk@) && !(old(
                self,
            ).puzzles_view()[crossword_pk@].status is Claimed) && spec_authorized(
                old(self).caps_view(),
                signer_pk@,
                Operation::ClaimRewardNewAccount,
                crossword_pk@,
            ) && old(self).spec_balance() >= old(self).puzzles_view()[crossword_pk@].reward ==> {
                &&& r matches Ok(pa)
                &&& pa.handle == old(self).spec_next_handle()
                &&& pa.action matches SettlementAction::CreateAccount {
                    funder,
                    new_account,
                    new_credential,
                    amount,
                } && funder@ == old(self).spec_creator_account() && new_account@ == new_acc_id@
                    && new_credential@ == new_pk@ && amount == old(
                    self,
                ).puzzles_view()[crossword_pk@].reward
                &&& final(self).pending_view() == old(self).pending_view().push(
                    PendingV {
                        handle: old(self).spec_next_handle(),
                        kind: SettlementKind::CreateAccount,
                        crossword_pk: crossword_pk@,
                        account_id: new_acc_id@,
                        memo: memo@,
                        signer_pk: signer_pk@,
                        amount: old(self).puzzles_view()[crossword_pk@].reward,
                    },
                )
                &&& final(self).spec_balance() == old(self).spec_balance() - old(
                    self,
                ).puzzles_view()[crossword_pk@].reward
                &&& final(self).spec_next_handle() == old(self).spec_next_handle() + 1
            },
    {
        match self.initiate_settlement(
            signer_pk,
            crossword_pk,
            new_acc_id.clone(),
            memo,
            SettlementKind::CreateAccount,
            Operation::ClaimRewardNewAccount,
        ) {
            Err(e) => Err(e),
            Ok((handle, amount)) => {
                let funder = self.creator_account.clone();
                Ok(
                    PendingAction {
                        handle,
                        action: SettlementAction::CreateAccount {
                            funder,
                            new_account: new_acc_id,
                            new_credential: new_pk,
                            amount,
                        },
                    },
                )
            },
        }
    }

    /// Looks an in-flight settlement up by its handle.
    fn find_pending(&self, handle: u64) -> (r: Option<usize>)
        ensures
            match r {
                Some(i) => i < self.pending_view().len() && self.pending_view()[i as int].handle
                    == handle,
                None => !has_pending(self.pending_view(), handle),
            },
    {
        let mut i: usize = 0;
        while i < self.pending.len()
            invariant
                0 <= i <= self.pending.len(),
                forall|j: int| 0 <= j < i ==> self.pending_view()[j].handle != handle,
            decreases self.pending.len() - i,
        {
            if self.pending[i].handle == handle {
                return Some(i);
            }
            i += 1;
        }
        None
    }

    /// Rolls one failed settlement back: the record leaves the in-flight
    /// set and the value that travelled with the external call returns to
    /// the contract's custody. The puzzle itself is untouched, so it stays
    /// `Solved` and claimable.
    fn settle_failure(&mut self, i: usize)
        requires
            old(self).wf(),
            i < old(self).pending_view().len(),
        ensures
            final(self).wf(),
            final(self).spec_owner() == old(self).spec_owner(),
            final(self).spec_creator_account() == old(self).spec_creator_account(),
            final(self).puzzles_view() == old(self).puzzles_view(),
            final(self).unsolved_view() == old(self).unsolved_view(),
            final(self).caps_view() == old(self).caps_view(),
            final(self).spec_next_handle() == old(self).spec_next_handle(),
            final(self).pending_view() == old(self).pending_view().remove(i as int),
            final(self).spec_balance() == old(self).spec_balance() + old(self).pending_view()[
                i as int
            ].amount,
    {
        proof {
            lemma_sum_amounts_bounds_member(self.pending_view(), i as int);
        }
        let rec = self.pending.remove(i);
        self.balance = self.balance + rec.amount;
        proof {
            assert(self.pending_view() =~= old(self).pending_view().remove(i as int));
            self.lemma_pending_shrunk_wf(*old(self), i as int);
        }
    }

    /// Removing one in-flight record keeps the state well formed, whatever
    /// became of its attached value, as long as the custody balance grew by
    /// at most that value.
    proof fn lemma_pending_shrunk_wf(self, pre: Self, i: int)
        requires
            pre.wf(),
            0 <= i < pre.pending_view().len(),
            self.puzzles_view() == pre.puzzles_view(),
            self.unsolved_view() == pre.unsolved_view(),
            self.caps_view() == pre.caps_view(),
            self.spec_next_handle() == pre.spec_next_handle(),
            self.pending_view() == pre.pending_view().remove(i),
            self.spec_balance() <= pre.spec_balance() + pre.pending_view()[i].amount,
        ensures
            self.wf(),
    {
        let p0 = pre.pending_view();
        let p1 = self.pending_view();
        p0.remove_ensures(i);
        lemma_sum_amounts_remove(p0, i);
        assert forall|a: int| 0 <= a < p1.len() implies p1[a] == p0[if a < i {
            a
        } else {
            a + 1
        }] by {}
        assert forall|a: int|
            0 <= a < p1.len() implies (#[trigger] p1[a]).handle < self.spec_next_handle() by {
            let a0: int = if a < i {
                a
            } else {
                a + 1
            };
            assert(p1[a] == p0[a0]);
        }
        assert forall|a: int, b: int| 0 <= a < b < p1.len() implies p1[a].handle
            != p1[b].handle by {
            let a0: int = if a < i {
                a
            } else {
                a + 1
            };
            let b0: int = if b < i {
                b
            } else {
                b + 1
            };
            assert(p1[a] == p0[a0] && p1[b] == p0[b0] && a0 < b0);
        }
        assert forall|a: int|
            0 <= a < p1.len() implies self.puzzles_view().dom().contains(
            (#[trigger] p1[a]).crossword_pk,
        ) by {
            let a0: int = if a < i {
                a
            } else {
                a + 1
            };
            assert(p1[a] == p0[a0]);
        }
    }

    /// Finalizes one successful settlement: under the state-machine guard,
    /// the puzzle becomes `Claimed` with the settlement memo, the phase-2
    /// capability is revoked, and the in-flight record is discharged. The
    /// value stays with the recipient, so the custody balance is unchanged.
    /// A puzzle no longer `Solved` at this point makes the settlement
    /// unrecoverable: `AlreadyClaimed` if it was already finalized,
    /// `InvalidState` otherwise, with no state change either way.
    fn finalize_puzzle(&mut self, i: usize) -> (r: Result<(), Error>)
        requires
            old(self).wf(),
            i < old(self).pending_view().len(),
        ensures
            final(self).wf(),
            final(self).spec_owner() == old(self).spec_owner(),
            final(self).spec_creator_account() == old(self).spec_creator_account(),
            final(self).spec_next_handle() == old(self).spec_next_handle(),
            final(self).spec_balance() == old(self).spec_balance(),
            final(self).unsolved_view() == old(self).unsolved_view(),
            puzzles_step(old(self).puzzles_view(), final(self).puzzles_view()),
            old(self).puzzles_view()[old(self).pending_view()[i as int].crossword_pk].status
                is Unsolved ==> (r matches Err(e) && e == Error::InvalidState && *final(self)
                == *old(self)),
            old(self).puzzles_view()[old(self).pending_view()[i as int].crossword_pk].status
                is Claimed ==> (r matches Err(e) && e == Error::AlreadyClaimed && *final(self)
                == *old(self)),
            old(self).puzzles_view()[old(self).pending_view()[i as int].crossword_pk].status
                is Solved ==> {
                &&& r == Ok::<(), Error>(())
                &&& final(self).puzzles_view() == old(self).puzzles_view().insert(
                    old(self).pending_view()[i as int].crossword_pk,
                    claimed_record(
                        old(self).puzzles_view()[old(
                            self,
                        ).pending_view()[i as int].crossword_pk],
                        old(self).pending_view()[i as int].memo,
                    ),
                )
                &&& final(self).caps_view() == old(self).caps_view().remove(
                    old(self).pending_view()[i as int].crossword_pk,
                )
                &&& final(self).pending_view() == old(self).pending_view().remove(i as int)
            },
    {
        let crossword_pk = self.pending[i].crossword_pk.clone();
        let memo = self.pending[i].memo.clone();
        let updated = match self.puzzles.get(&crossword_pk) {
            None => {
                proof {
                    assert(false);
                }
                return Err(Error::PuzzleNotFound);
            },
            Some(p) => {
                match &p.status {
                    PuzzleStatus::Unsolved => {
                        return Err(Error::InvalidState);
                    },
                    PuzzleStatus::Claimed { .. } => {
                        return Err(Error::AlreadyClaimed);
                    },
                    PuzzleStatus::Solved { .. } => {
                        let mut q = p.clone();
                        q.status = PuzzleStatus::Claimed { memo };
                        q
                    },
                }
            },
        };
        let rec = self.pending.remove(i);
        self.puzzles.update(rec.crossword_pk, updated);
        let handle = TokenHandle::of(crossword_pk);
        self.caps.revoke(&handle);
        proof {
            assert(self.pending_view() =~= old(self).pending_view().remove(i as int));
            self.lemma_finalize_wf(*old(self), i as int);
        }
        Ok(())
    }

    /// The well-formedness argument for a successful finalization.
    proof fn lemma_finalize_wf(self, pre: Self, i: int)
        requires
            pre.wf(),
            0 <= i < pre.pending_view().len(),
            pre.puzzles_view()[pre.pending_view()[i].crossword_pk].status is Solved,
            self.puzzles_view() == pre.puzzles_view().insert(
                pre.pending_view()[i].crossword_pk,
                claimed_record(
                    pre.puzzles_view()[pre.pending_view()[i].crossword_pk],
                    pre.pending_view()[i].memo,
                ),
            ),
            self.unsolved_view() == pre.unsolved_view(),
            self.caps_view() == pre.caps_view().remove(pre.pending_view()[i].crossword_pk),
            self.pending_view() == pre.pending_view().remove(i),
            self.spec_next_handle() == pre.spec_next_handle(),
            self.spec_balance() == pre.spec_balance(),
        ensures
            self.wf(),
            puzzles_step(pre.puzzles_view(), self.puzzles_view()),
    {
        let c = pre.pending_view()[i].crossword_pk;
        assert(pre.puzzles_view().dom().contains(c));
        assert(self.puzzles_view().dom() =~= pre.puzzles_view().dom());
        lemma_sum_amounts_remove(pre.pending_view(), i);
        lemma_sum_amounts_bounds_member(pre.pending_view(), i);
        let p0 = pre.pending_view();
        let p1 = self.pending_view();
        p0.remove_ensures(i);
        assert forall|a: int| 0 <= a < p1.len() implies p1[a] == p0[if a < i {
            a
        } else {
            a + 1
        }] by {}
        assert forall|a: int|
            0 <= a < p1.len() implies (#[trigger] p1[a]).handle < self.spec_next_handle() by {
            let a0: int = if a < i {
                a
            } else {
                a + 1
            };
            assert(p1[a] == p0[a0]);
        }
        assert forall|a: int, b: int| 0 <= a < b < p1.len() implies p1[a].handle
            != p1[b].handle by {
            let a0: int = if a < i {
                a
            } else {
                a + 1
            };
            let b0: int = if b < i {
                b
            } else {
                b + 1
            };
            assert(p1[a] == p0[a0] && p1[b] == p0[b0] && a0 < b0);
        }
        assert forall|a: int|
            0 <= a < p1.len() implies self.puzzles_view().dom().contains(
            (#[trigger] p1[a]).crossword_pk,
        ) by {
            let a0: int = if a < i {
                a
            } else {
                a + 1
            };
            assert(p1[a] == p0[a0]);
            assert(pre.puzzles_view().dom().contains(p0[a0].crossword_pk));
        }
        assert forall|d: Seq<char>| #[trigger]
            self.puzzles_view().dom().contains(d) implies (self.puzzles_view()[d].status
            is Unsolved <==> self.unsolved_view().contains(d)) by {
            assert(pre.puzzles_view().dom().contains(d));
            if d == c {
                assert(!pre.unsolved_view().contains(c));
            }
        }
        assert forall|d: Seq<char>| #[trigger]
            self.puzzles_view().dom().contains(d) implies cap_matches(
            self.caps_view(),
            d,
            self.puzzles_view()[d].status,
        ) by {
            assert(pre.puzzles_view().dom().contains(d));
            assert(cap_matches(pre.caps_view(), d, pre.puzzles_view()[d].status));
        }
        assert forall|d: Seq<char>| #[trigger]
            self.caps_view().dom().contains(d) implies self.puzzles_view().dom().contains(d) by {
            assert(pre.caps_view().dom().contains(d));
        }
    }

    /// Two in-flight settlements never share a handle.
    proof fn lemma_handle_unique(self, a: int, b: int)
        requires
            self.wf(),
            0 <= a < self.pending_view().len(),
            0 <= b < self.pending_view().len(),
            self.pending_view()[a].handle == self.pending_view()[b].handle,
        ensures
            a == b,
    {
        if a < b {
            assert(self.pending_view()[a].handle != self.pending_view()[b].handle);
        } else if b < a {
            assert(self.pending_view()[b].handle != self.pending_view()[a].handle);
        }
    }

    /// The continuation of [`Self::claim_reward`]. It must observe exactly
    /// one outcome for exactly one in-flight transfer; anything else is a
    /// protocol violation that changes nothing. A failure outcome rolls the
    /// settlement back: the reward returns to custody and the puzzle stays
    /// `Solved`, claimable again. A success outcome finalizes the puzzle to
    /// `Claimed`.
    pub fn callback_after_transfer(&mut self, handle: u64, outcomes: Vec<CallOutcome>) -> (r:
        Result<(), Error>)
        requires
            old(self).wf(),
        ensures
            final(self).wf(),
            final(self).spec_owner() == old(self).spec_owner(),
            final(self).spec_creator_account() == old(self).spec_creator_account(),
            final(self).spec_next_handle() == old(self).spec_next_handle(),
            final(self).unsolved_view() == old(self).unsolved_view(),
            puzzles_step(old(self).puzzles_view(), final(self).puzzles_view()),
            outcomes@.len() != 1 ==> (r matches Err(e) && e == Error::ProtocolViolation
                && *final(self) == *old(self)),
            outcomes@.len() == 1 && !pending_match(
                old(self).pending_view(),
                handle,
                SettlementKind::Transfer,
            ) ==> (r matches Err(e) && e == Error::ProtocolViolation && *final(self) == *old(self)),
            outcomes@.len() == 1 && pending_match(
                old(self).pending_view(),
                handle,
                SettlementKind::Transfer,
            ) ==> settlement_concluded(
                *old(self),
                *final(self),
                r,
                pending_index(old(self).pending_view(), handle),
                outcomes@[0] is Failed,
            ),
    {
        if outcomes.len() != 1 {
            return Err(Error::ProtocolViolation);
        }
        let idx: usize = match self.find_pending(handle) {
            None => {
                proof {
                    if pending_match(self.pending_view(), handle, SettlementKind::Transfer) {
                        let w: int = choose|w: int|
                            0 <= w < self.pending_view().len() && self.pending_view()[w].handle
                                == handle && self.pending_view()[w].kind
                                == SettlementKind::Transfer;
                        assert(has_pending(self.pending_view(), handle));
                    }
                }
                return Err(Error::ProtocolViolation);
            },
            Some(i) => i,
        };
        if !(self.pending[idx].kind == SettlementKind::Transfer) {
            proof {
                if pending_match(self.pending_view(), handle, SettlementKind::Transfer) {
                    let w: int = choose|w: int|
                        0 <= w < self.pending_view().len() && self.pending_view()[w].handle
                            == handle && self.pending_view()[w].kind == SettlementKind::Transfer;
                    self.lemma_handle_unique(w, idx as int);
                }
            }
            return Err(Error::ProtocolViolation);
        }
        proof {
            assert(pending_match(self.pending_view(), handle, SettlementKind::Transfer));
            let j: int = pending_index(self.pending_view(), handle);
            assert(0 <= j < self.pending_view().len() && self.pending_view()[j].handle == handle);
            self.lemma_handle_unique(j, idx as int);
        }
        match &outcomes[0] {
            CallOutcome::Failed => {
                self.settle_failure(idx);
                Err(Error::ExternalCallFailed)
            },
            CallOutcome::Successful(_) => self.finalize_puzzle(idx),
        }
    }

    /// The continuation of [`Self::claim_reward_new_account`]. Besides the
    /// outcome discipline of [`Self::callback_after_transfer`], the
    /// successful outcome carries the provisioning service's own verdict as
    /// a JSON boolean: a payload that is not one is a protocol violation,
    /// and a nested `false` counts as a failed settlement, exactly as if
    /// the external call itself had failed.
    pub fn callback_after_create_account(&mut self, handle: u64, outcomes: Vec<CallOutcome>) -> (r:
        Result<(), Error>)
        requires
            old(self).wf(),
        ensures
            final(self).wf(),
            final(self).spec_owner() == old(self).spec_owner(),
            final(self).spec_creator_account() == old(self).spec_creator_account(),
            final(self).spec_next_handle() == old(self).spec_next_handle(),
            final(self).unsolved_view() == old(self).unsolved_view(),
            puzzles_step(old(self).puzzles_view(), final(self).puzzles_view()),
            outcomes@.len() != 1 ==> (r matches Err(e) && e == Error::ProtocolViolation
                && *final(self) == *old(self)),
            outcomes@.len() == 1 && !pending_match(
                old(self).pending_view(),
                handle,
                SettlementKind::CreateAccount,
            ) ==> (r matches Err(e) && e == Error::ProtocolViolation && *final(self) == *old(self)),
            outcomes@.len() == 1 && pending_match(
                old(self).pending_view(),
                handle,
                SettlementKind::CreateAccount,
            ) && (outcomes@[0] matches CallOutcome::Successful(payload) && spec_json_bool(payload@)
                is None) ==> (r matches Err(e) && e == Error::ProtocolViolation && *final(self)
                == *old(self)),
            outcomes@.len() == 1 && pending_match(
                old(self).pending_view(),
                handle,
                SettlementKind::CreateAccount,
            ) && provisioning_verdict(outcomes@[0]) is Some ==> settlement_concluded(
                *old(self),
                *final(self),
                r,
                pending_index(old(self).pending_view(), handle),
                provisioning_verdict(outcomes@[0]) == Some(false),
            ),
    {
        if outcomes.len() != 1 {
            return Err(Error::ProtocolViolation);
        }
        let idx: usize = match self.find_pending(handle) {
            None => {
                proof {
                    if pending_match(self.pending_view(), handle, SettlementKind::CreateAccount) {
                        let w: int = choose|w: int|
                            0 <= w < self.pending_view().len() && self.pending_view()[w].handle
                                == handle && self.pending_view()[w].kind
                                == SettlementKind::CreateAccount;
                        assert(has_pending(self.pending_view(), handle));
                    }
                }
                return Err(Error::ProtocolViolation);
            },
            Some(i) => i,
        };
        if !(self.pending[idx].kind == SettlementKind::CreateAccount) {
            proof {
                if pending_match(self.pending_view(), handle, SettlementKind::CreateAccount) {
                    let w: int = choose|w: int|
                        0 <= w < self.pending_view().len() && self.pending_view()[w].handle
                            == handle && self.pending_view()[w].kind
                            == SettlementKind::CreateAccount;
                    self.lemma_handle_unique(w, idx as int);
                }
            }
            return Err(Error::ProtocolViolation);
        }
        proof {
            assert(pending_match(self.pending_view(), handle, SettlementKind::CreateAccount));
            let j: int = pending_index(self.pending_view(), handle);
            assert(0 <= j < self.pending_view().len() && self.pending_view()[j].handle == handle);
            self.lemma_handle_unique(j, idx as int);
        }
        match &outcomes[0] {
            CallOutcome::Failed => {
                self.settle_failure(idx);
                Err(Error::ExternalCallFailed)
            },
            CallOutcome::Successful(payload) => {
                match parse_json_bool(payload) {
                    None => Err(Error::ProtocolViolation),
                    Some(false) => {
                        self.settle_failure(idx);
                        Err(Error::ExternalCallFailed)
                    },
                    Some(true) => self.finalize_puzzle(idx),
                }
            },
        }
    }

    /// The read-only display snapshot of one puzzle.
    pub open spec fn json_of(c: Seq<char>, p: PuzzleV) -> JsonPuzzleV {
        JsonPuzzleV {
            solution_public_key: c,
            status: p.status,
            reward: p.reward,
            creator: p.creator,
            dimensions: p.dimensions,
            answers: p.answers,
        }
    }

    /// Lists every puzzle still awaiting a solver, in the unsolved index's
    /// stable order, each paired with its credential and metadata, together
    /// with the account that provisions new recipient identities.
    pub fn get_unsolved_puzzles(&self) -> (r: UnsolvedPuzzles)
        requires
            self.wf(),
        ensures
            r.creator_account@ == self.spec_creator_account(),
            r.puzzles.deep_view().len() == self.unsolved_view().len(),
            forall|i: int|
                0 <= i < self.unsolved_view().len() ==> r.puzzles.deep_view()[i] == Self::json_of(
                    self.unsolved_view()[i],
                    self.puzzles_view()[self.unsolved_view()[i]],
                ),
    {
        let mut puzzles: Vec<JsonPuzzle> = Vec::new();
        let n: usize = self.unsolved_puzzles.len();
        let mut i: usize = 0;
        while i < n
            invariant
                0 <= i <= n,
                n == self.unsolved_view().len(),
                self.wf(),
                puzzles.deep_view().len() == i,
                forall|j: int|
                    0 <= j < i ==> puzzles.deep_view()[j] == Self::json_of(
                        self.unsolved_view()[j],
                        self.puzzles_view()[self.unsolved_view()[j]],
                    ),
            decreases n - i,
        {
            let c = self.unsolved_puzzles.get(i);
            proof {
                assert(self.unsolved_view().contains(c@));
            }
            match self.puzzles.get(c) {
                Some(p) => {
                    let q = p.clone();
                    let jp = JsonPuzzle {
                        solution_public_key: c.clone(),
                        status: q.status,
                        reward: q.reward,
                        creator: q.creator,
                        dimensions: q.dimensions,
                        answer: q.answer,
                    };
                    proof {
                        assert(jp@ == Self::json_of(
                            self.unsolved_view()[i as int],
                            self.puzzles_view()[self.unsolved_view()[i as int]],
                        ));
                    }
                    let ghost prev = puzzles@;
                    let ghost prevd = puzzles.deep_view();
                    puzzles.push(jp);
                    proof {
                        assert forall|j: int| 0 <= j < i + 1 implies puzzles.deep_view()[j]
                            == Self::json_of(
                            self.unsolved_view()[j],
                            self.puzzles_view()[self.unsolved_view()[j]],
                        ) by {
                            assert(puzzles.deep_view()[j] == puzzles@[j]@);
                            if j < i {
                                assert(puzzles@[j] == prev[j]);
                                assert(prevd[j] == prev[j]@);
                            } else {
                                assert(puzzles@[j] == jp);
                            }
                        }
                    }
                },
                None => {
                    proof {
                        assert(false);
                    }
                },
            }
            i += 1;
        }
        let creator_account = self.creator_account.clone();
        UnsolvedPuzzles { puzzles, creator_account }
    }

    /// The status of the puzzle behind `credential`, if one exists.
    pub fn puzzle_status(&self, credential: &String) -> (r: Option<PuzzleStatus>)
        ensures
            match r {
                Some(st) => self.puzzles_view().dom().contains(credential@) && st@
                    == self.puzzles_view()[credential@].status,
                None => !self.puzzles_view().dom().contains(credential@),
            },
    {
        match self.puzzles.get(credential) {
            None => None,
            Some(p) => Some(p.status.clone()),
        }
    }

    /// The value currently in the contract's custody.
    pub fn available_balance(&self) -> (r: u128)
        ensures
            r == self.spec_balance(),
    {
        self.balance
    }

    /// Whether another settlement can still be initiated: handles are drawn
    /// from a 64-bit counter that never wraps, and the claim operations
    /// require it not to be exhausted.
    pub fn can_initiate(&self) -> (r: bool)
        ensures
            r == (self.spec_next_handle() < u64::MAX),
    {
        self.next_handle < u64::MAX
    }

    /// How many settlements are in flight.
    pub fn pending_settlements(&self) -> (r: usize)
        ensures
            r == self.pending_view().len(),
    {
        self.pending.len()
    }
}

/// What the provisioning outcome amounts to: `Some(false)` for an external
/// failure or a nested `false` verdict, `Some(true)` for full success,
/// `None` when a successful call carries a payload that is not a JSON
/// boolean.
pub open spec fn provisioning_verdict(outcome: CallOutcome) -> Option<bool> {
    match outcome {
        CallOutcome::Failed => Some(false),
        CallOutcome::Successful(payload) => match spec_json_bool(payload@) {
            Some(b) => Some(b),
            None => None,
        },
    }
}

/// How one concluded settlement leaves the state, `failed` telling which way
/// it went. On failure the in-flight record at `i` is discharged, its value
/// returns to custody, and the puzzle is untouched. On success the record
/// is discharged, the value stays spent, and the puzzle is finalized under
/// the state-machine guard: `Claimed` with the settlement memo if it was
/// `Solved`, and an error with no state change at all otherwise.
pub open spec fn settlement_concluded(
    pre: Crossword,
    post: Crossword,
    r: Result<(), Error>,
    i: int,
    failed: bool,
) -> bool {
    let rec = pre.pending_view()[i];
    if failed {
        &&& r matches Err(e) && e == Error::ExternalCallFailed
        &&& post.puzzles_view() == pre.puzzles_view()
        &&& post.caps_view() == pre.caps_view()
        &&& post.pending_view() == pre.pending_view().remove(i)
        &&& post.spec_balance() == pre.spec_balance() + rec.amount
    } else {
        &&& (pre.puzzles_view()[rec.crossword_pk].status is Unsolved ==> (r matches Err(e) && e
            == Error::InvalidState && post == pre))
        &&& (pre.puzzles_view()[rec.crossword_pk].status is Claimed ==> (r matches Err(e) && e
            == Error::AlreadyClaimed && post == pre))
        &&& (pre.puzzles_view()[rec.crossword_pk].status is Solved ==> {
            &&& r == Ok::<(), Error>(())
            &&& post.puzzles_view() == pre.puzzles_view().insert(
                rec.crossword_pk,
                claimed_record(pre.puzzles_view()[rec.crossword_pk], rec.memo),
            )
            &&& post.caps_view() == pre.caps_view().remove(rec.crossword_pk)
            &&& post.pending_view() == pre.pending_view().remove(i)
            &&& post.spec_balance() == pre.spec_balance()
        })
    }
}


/// A settlement that fails after a claim initiated it leaves no trace: the
/// value the claim debited is back in custody, the in-flight record is gone,
/// and the puzzle records and capabilities are exactly those the claim
/// found, so the puzzle is still `Solved` and claimable. `pre` is the state
/// the claim saw, `mid` the state it left with the settlement for `rec` in
/// flight, and `post` the state after the continuation observed the failure.
pub proof fn lemma_failed_settlement_restores_state(
    pre: Crossword,
    mid: Crossword,
    post: Crossword,
    rec: PendingV,
    r: Result<(), Error>,
)
    requires
        mid.pending_view() == pre.pending_view().push(rec),
        mid.spec_balance() == pre.spec_balance() - rec.amount,
        mid.puzzles_view() == pre.puzzles_view(),
        mid.caps_view() == pre.caps_view(),
        settlement_concluded(mid, post, r, pre.pending_view().len() as int, true),
    ensures
        r matches Err(e) && e == Error::ExternalCallFailed,
        post.spec_balance() == pre.spec_balance(),
        post.puzzles_view() == pre.puzzles_view(),
        post.caps_view() == pre.caps_view(),
        post.pending_view() == pre.pending_view(),
{
    let n: int = pre.pending_view().len() as int;
    assert(mid.pending_view()[n] == rec);
    assert(mid.pending_view().remove(n) =~= pre.pending_view());
}

} // verus!
