use vstd::prelude::*;

verus! {

/// The two settlement variants: pay an existing recipient directly, or ask
/// the provisioning service to create a recipient identity funded with the
/// reward.
#[derive(Clone, Copy, Debug, PartialEq, Eq, Structural)]
pub enum SettlementKind {
    Transfer,
    CreateAccount,
}

/// What the host reports back for one external call: it either completed
/// successfully, with an opaque payload, or failed, in which case the
/// attached value has been returned to the contract's custody.
#[derive(Debug)]
pub enum CallOutcome {
    Successful(Vec<u8>),
    Failed,
}

/// The external call the orchestrator asks the host to perform. The host
/// issues it and later hands the outcome to the continuation designated by
/// the accompanying handle.
#[derive(Debug)]
pub enum SettlementAction {
    /// Transfer `amount` to the existing account `receiver`.
    Transfer { receiver: String, amount: u128 },
    /// Ask `funder` to create `new_account` with credential `new_credential`,
    /// funding it with `amount`.
    CreateAccount { funder: String, new_account: String, new_credential: String, amount: u128 },
}

/// One settlement the orchestrator has initiated: the handle names it, and
/// the host must deliver exactly one outcome for it.
#[derive(Debug)]
pub struct PendingAction {
    pub handle: u64,
    pub action: SettlementAction,
}

/// The record the orchestrator keeps while a settlement is in flight: enough
/// to finalize the puzzle when the outcome arrives, and the amount that
/// travelled with the external call.
#[derive(Debug)]
pub struct PendingSettlement {
    pub handle: u64,
    pub kind: SettlementKind,
    pub crossword_pk: String,
    pub account_id: String,
    pub memo: String,
    pub signer_pk: String,
    pub amount: u128,
}

/// The mathematical value of a [`PendingSettlement`].
#[verifier::ext_equal]
pub ghost struct PendingV {
    pub handle: u64,
    pub kind: SettlementKind,
    pub crossword_pk: Seq<char>,
    pub account_id: Seq<char>,
    pub memo: Seq<char>,
    pub signer_pk: Seq<char>,
    pub amount: u128,
}

impl View for PendingSettlement {
    type V = PendingV;

    open spec fn view(&self) -> PendingV {
        PendingV {
            handle: self.handle,
            kind: self.kind,
            crossword_pk: self.crossword_pk@,
            account_id: self.account_id@,
            memo: self.memo@,
            signer_pk: self.signer_pk@,
            amount: self.amount,
        }
    }
}

impl DeepView for PendingSettlement {
    type V = PendingV;

    open spec fn deep_view(&self) -> PendingV {
        self.view()
    }
}

/// The total value attached to a batch of in-flight settlements.
pub open spec fn sum_amounts(s: Seq<PendingV>) -> int
    decreases s.len(),
{
    if s.len() == 0 {
        0
    } else {
        sum_amounts(s.drop_last()) + s.last().amount
    }
}

/// Every summand is non-negative, so the whole sum is.
pub proof fn lemma_sum_amounts_nonneg(s: Seq<PendingV>)
    ensures
        sum_amounts(s) >= 0,
    decreases s.len(),
{
    if s.len() > 0 {
        lemma_sum_amounts_nonneg(s.drop_last());
    }
}

/// Appending a record grows the sum by its amount.
pub proof fn lemma_sum_amounts_push(s: Seq<PendingV>, p: PendingV)
    ensures
        sum_amounts(s.push(p)) == sum_amounts(s) + p.amount,
{
    assert(s.push(p).drop_last() =~= s);
    assert(s.push(p).last() == p);
}

/// Removing a record shrinks the sum by its amount.
pub proof fn lemma_sum_amounts_remove(s: Seq<PendingV>, i: int)
    requires
        0 <= i < s.len(),
    ensures
        sum_amounts(s.remove(i)) == sum_amounts(s) - s[i].amount,
    decreases s.len(),
{
    if i == s.len() - 1 {
        assert(s.remove(i) =~= s.drop_last());
    } else {
        lemma_sum_amounts_remove(s.drop_last(), i);
        assert(s.remove(i).drop_last() =~= s.drop_last().remove(i));
        assert(s.remove(i).last() == s.last());
    }
}

/// One in-flight record never exceeds the whole sum.
pub proof fn lemma_sum_amounts_bounds_member(s: Seq<PendingV>, i: int)
    requires
        0 <= i < s.len(),
    ensures
        s[i].amount <= sum_amounts(s),
{
    lemma_sum_amounts_remove(s, i);
    lemma_sum_amounts_nonneg(s.remove(i));
}

} // verus!
