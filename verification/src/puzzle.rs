use vstd::prelude::*;

verus! {

/// Direction in which an answer runs across the grid.
#[derive(Clone, Copy, Debug, PartialEq, Eq, Structural)]
pub enum AnswerDirection {
    Across,
    Down,
}

/// A position on the grid; the origin (0, 0) is the top left corner.
#[derive(Clone, Copy, Debug, PartialEq, Eq, Structural)]
pub struct CoordinatePair {
    pub x: u8,
    pub y: u8,
}

/// One clue of a puzzle. Pure metadata: stored at creation, returned verbatim
/// by the listing, and never read by the claim protocol.
#[derive(Debug)]
pub struct Answer {
    pub num: u8,
    pub start: CoordinatePair,
    pub direction: AnswerDirection,
    pub length: u8,
    pub clue: String,
}

/// The mathematical value of an [`Answer`].
#[verifier::ext_equal]
pub ghost struct AnswerV {
    pub num: u8,
    pub start: CoordinatePair,
    pub direction: AnswerDirection,
    pub length: u8,
    pub clue: Seq<char>,
}

impl View for Answer {
    type V = AnswerV;

    open spec fn view(&self) -> AnswerV {
        AnswerV {
            num: self.num,
            start: self.start,
            direction: self.direction,
            length: self.length,
            clue: self.clue@,
        }
    }
}

impl DeepView for Answer {
    type V = AnswerV;

    open spec fn deep_view(&self) -> AnswerV {
        self.view()
    }
}

impl Clone for Answer {
    fn clone(&self) -> (res: Self)
        ensures
            res@ == self@,
    {
        Answer {
            num: self.num,
            start: self.start,
            direction: self.direction,
            length: self.length,
            clue: self.clue.clone(),
        }
    }
}

/// The lifecycle of a puzzle. It only ever advances forward:
/// `Unsolved`, then `Solved`, then `Claimed`, which is terminal.
#[derive(Debug)]
pub enum PuzzleStatus {
    Unsolved,
    Solved { solver_pk: String },
    Claimed { memo: String },
}

/// The mathematical value of a [`PuzzleStatus`].
#[verifier::ext_equal]
pub ghost enum StatusV {
    Unsolved,
    Solved { solver_pk: Seq<char> },
    Claimed { memo: Seq<char> },
}

impl View for PuzzleStatus {
    type V = StatusV;

    open spec fn view(&self) -> StatusV {
        match self {
            PuzzleStatus::Unsolved => StatusV::Unsolved,
            PuzzleStatus::Solved { solver_pk } => StatusV::Solved { solver_pk: solver_pk@ },
            PuzzleStatus::Claimed { memo } => StatusV::Claimed { memo: memo@ },
        }
    }
}

impl Clone for PuzzleStatus {
    fn clone(&self) -> (res: Self)
        ensures
            res@ == self@,
    {
        match self {
            PuzzleStatus::Unsolved => PuzzleStatus::Unsolved,
            PuzzleStatus::Solved { solver_pk } => PuzzleStatus::Solved {
                solver_pk: solver_pk.clone(),
            },
            PuzzleStatus::Claimed { memo } => PuzzleStatus::Claimed { memo: memo.clone() },
        }
    }
}

/// Holds when `b` is reachable from `a` by a single protocol call:
/// either nothing changed, or the status took one step forward.
pub open spec fn status_step(a: StatusV, b: StatusV) -> bool {
    ||| a == b
    ||| (a is Unsolved && b is Solved)
    ||| (a is Solved && b is Claimed)
}

/// Holds when `b` is reachable from `a` by any number of protocol calls:
/// the reflexive, transitive closure of [`status_step`]. The status never
/// regresses, and a `Solved` puzzle never changes its solver.
pub open spec fn status_progress(a: StatusV, b: StatusV) -> bool {
    ||| a == b
    ||| (a is Unsolved && (b is Solved || b is Claimed))
    ||| (a is Solved && b is Claimed)
}

/// One call's worth of change is also reachable change.
pub proof fn lemma_status_step_implies_progress(a: StatusV, b: StatusV)
    ensures
        status_step(a, b) ==> status_progress(a, b),
{
}

/// Reachable change composes: statuses advance monotonically over any
/// sequence of calls.
pub proof fn lemma_status_progress_transitive(a: StatusV, b: StatusV, c: StatusV)
    ensures
        status_progress(a, b) && status_progress(b, c) ==> status_progress(a, c),
{
}

/// Progress is an order, not mere connectivity: once two statuses are
/// reachable from each other, they are the same. In particular nothing ever
/// returns a puzzle to an earlier phase.
pub proof fn lemma_status_progress_antisymmetric(a: StatusV, b: StatusV)
    ensures
        status_progress(a, b) && status_progress(b, a) ==> a == b,
{
}

/// A puzzle record held by the credential registry. `reward` and `creator`
/// never change after creation; only `status` advances.
#[derive(Debug)]
pub struct Puzzle {
    pub status: PuzzleStatus,
    pub reward: u128,
    pub creator: String,
    pub dimensions: CoordinatePair,
    pub answer: Vec<Answer>,
}

/// The mathematical value of a [`Puzzle`].
#[verifier::ext_equal]
pub ghost struct PuzzleV {
    pub status: StatusV,
    pub reward: u128,
    pub creator: Seq<char>,
    pub dimensions: CoordinatePair,
    pub answers: Seq<AnswerV>,
}

impl View for Puzzle {
    type V = PuzzleV;

    open spec fn view(&self) -> PuzzleV {
        PuzzleV {
            status: self.status@,
            reward: self.reward,
            creator: self.creator@,
            dimensions: self.dimensions,
            answers: self.answer.deep_view(),
        }
    }
}

impl Clone for Puzzle {
    fn clone(&self) -> (res: Self)
        ensures
            res@ == self@,
    {
        let answer = self.answer.clone();
        proof {
            assert forall|i: int| 0 <= i < self.answer@.len() implies answer@[i]@
                == self.answer@[i]@ by {
                assert(cloned::<Answer>(self.answer[i], answer[i]));
            }
            assert(answer.deep_view() =~= self.answer.deep_view());
        }
        let res = Puzzle {
            status: self.status.clone(),
            reward: self.reward,
            creator: self.creator.clone(),
            dimensions: self.dimensions,
            answer,
        };
        proof {
            assert(res@ =~= self@);
        }
        res
    }
}

/// What a creator supplies for a new puzzle: the answer credential derived
/// from the solution, and the grid metadata.
#[derive(Debug)]
pub struct NewPuzzleArgs {
    pub answer_pk: String,
    pub dimensions: CoordinatePair,
    pub answers: Vec<Answer>,
}

/// A read-only snapshot of one puzzle, keyed by its credential, as the
/// listing hands it to a display client.
#[derive(Debug)]
pub struct JsonPuzzle {
    pub solution_public_key: String,
    pub status: PuzzleStatus,
    pub reward: u128,
    pub creator: String,
    pub dimensions: CoordinatePair,
    pub answer: Vec<Answer>,
}

/// The mathematical value of a [`JsonPuzzle`].
#[verifier::ext_equal]
pub ghost struct JsonPuzzleV {
    pub solution_public_key: Seq<char>,
    pub status: StatusV,
    pub reward: u128,
    pub creator: Seq<char>,
    pub dimensions: CoordinatePair,
    pub answers: Seq<AnswerV>,
}

impl View for JsonPuzzle {
    type V = JsonPuzzleV;

    open spec fn view(&self) -> JsonPuzzleV {
        JsonPuzzleV {
            solution_public_key: self.solution_public_key@,
            status: self.status@,
            reward: self.reward,
            creator: self.creator@,
            dimensions: self.dimensions,
            answers: self.answer.deep_view(),
        }
    }
}

impl DeepView for JsonPuzzle {
    type V = JsonPuzzleV;

    open spec fn deep_view(&self) -> JsonPuzzleV {
        self.view()
    }
}

/// The listing of every puzzle that still awaits a solver, together with the
/// account that provisions new recipient identities.
#[derive(Debug)]
pub struct UnsolvedPuzzles {
    pub puzzles: Vec<JsonPuzzle>,
    pub creator_account: String,
}

} // verus!
