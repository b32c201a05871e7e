use vstd::hash_map::StringHashMap;
use vstd::prelude::*;

verus! {

/// The protocol steps a capability token can permit.
#[derive(Clone, Copy, Debug, PartialEq, Eq, Structural)]
pub enum Operation {
    SubmitSolution,
    ClaimReward,
    ClaimRewardNewAccount,
}

/// A single-purpose, revocable authorization: the named holder may invoke the
/// allowed operations against the resource the token is scoped to. The
/// allowance is a usage budget carried for the execution environment; the
/// core never inspects it.
#[derive(Debug)]
pub struct CapabilityToken {
    pub holder: String,
    pub allowed: Vec<Operation>,
    pub allowance: u128,
}

/// The mathematical value of a [`CapabilityToken`].
#[verifier::ext_equal]
pub ghost struct TokenV {
    pub holder: Seq<char>,
    pub allowed: Seq<Operation>,
    pub allowance: u128,
}

impl View for CapabilityToken {
    type V = TokenV;

    open spec fn view(&self) -> TokenV {
        TokenV { holder: self.holder@, allowed: self.allowed@, allowance: self.allowance }
    }
}

/// Designates one issued token: the scope it guards. Callers treat it as
/// opaque and hand it back to revoke the token.
#[derive(Debug)]
pub struct TokenHandle {
    scope: String,
}

impl View for TokenHandle {
    type V = Seq<char>;

    closed spec fn view(&self) -> Seq<char> {
        self.scope@
    }
}

impl TokenHandle {
    /// The handle of the token guarding `scope`.
    pub fn of(scope: String) -> (h: Self)
        ensures
            h@ == scope@,
    {
        TokenHandle { scope }
    }
}

/// Whether `caller` may invoke `operation` on the resource `scope`, given the
/// currently active tokens: the scope's token must name the caller as holder
/// and list the operation as allowed.
pub open spec fn spec_authorized(
    tokens: Map<Seq<char>, TokenV>,
    caller: Seq<char>,
    operation: Operation,
    scope: Seq<char>,
) -> bool {
    &&& tokens.dom().contains(scope)
    &&& tokens[scope].holder == caller
    &&& tokens[scope].allowed.contains(operation)
}

/// The authorization table: at most one active capability token per scoped
/// resource. Issuing a token for a scope replaces whatever token that scope
/// had, so there is never a window with two valid tokens for one resource.
pub struct CapabilityManager {
    tokens: StringHashMap<CapabilityToken>,
}

impl View for CapabilityManager {
    type V = Map<Seq<char>, TokenV>;

    closed spec fn view(&self) -> Map<Seq<char>, TokenV> {
        Map::new(
            |s: Seq<char>| self.tokens@.dom().contains(s),
            |s: Seq<char>| self.tokens@[s]@,
        )
    }
}

impl CapabilityManager {
    pub fn new() -> (r: Self)
        ensures
            r@ == Map::<Seq<char>, TokenV>::empty(),
    {
        let r = CapabilityManager { tokens: StringHashMap::new() };
        proof {
            assert(r@ =~= Map::<Seq<char>, TokenV>::empty());
        }
        r
    }

    /// Grants `holder` the right to call the `allowed` operations on `scope`,
    /// replacing any token that scope had before.
    pub fn issue(
        &mut self,
        holder: String,
        allowed: Vec<Operation>,
        allowance: u128,
        scope: String,
    ) -> (h: TokenHandle)
        ensures
            final(self)@ == old(self)@.insert(
                scope@,
                TokenV { holder: holder@, allowed: allowed@, allowance },
            ),
            h@ == scope@,
    {
        let token = CapabilityToken { holder, allowed, allowance };
        let handle = TokenHandle { scope: scope.clone() };
        self.tokens.insert(scope, token);
        proof {
            assert(self@ =~= old(self)@.insert(
                handle@,
                TokenV { holder: token.holder@, allowed: token.allowed@, allowance },
            ));
        }
        handle
    }

    /// Withdraws the designated token; afterwards no caller is authorized on
    /// that scope until a new token is issued.
    pub fn revoke(&mut self, handle: &TokenHandle)
        ensures
            final(self)@ == old(self)@.remove(handle@),
    {
        self.tokens.remove(handle.scope.as_str());
        proof {
            assert(self@ =~= old(self)@.remove(handle@));
        }
    }

    /// The enforcement gate: every protocol step calls this before touching
    /// any state.
    pub fn authorize(&self, caller: &String, operation: Operation, scope: &String) -> (r: bool)
        ensures
            r == spec_authorized(self@, caller@, operation, scope@),
    {
        match self.tokens.get(scope.as_str()) {
            None => false,
            Some(token) => {
                if token.holder == *caller {
                    let mut i: usize = 0;
                    while i < token.allowed.len()
                        invariant
                            0 <= i <= token.allowed.len(),
                            forall|j: int| 0 <= j < i ==> token.allowed@[j] != operation,
                            self@.dom().contains(scope@),
                            token@ == self@[scope@],
                            token.holder@ == caller@,
                        decreases token.allowed.len() - i,
                    {
                        if token.allowed[i] == operation {
                            proof {
                                assert(token.allowed@[i as int] == operation);
                                assert(token.allowed@.contains(operation));
                            }
                            return true;
                        }
                        i += 1;
                    }
                    false
                } else {
                    false
                }
            },
        }
    }
}

} // verus!
