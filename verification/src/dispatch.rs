//! Origins of calls and the errors a call can end with.
use vstd::prelude::*;

verus! {

/// Who a call comes from.
#[derive(Clone, Copy, PartialEq, Eq, Debug)]
pub enum Origin {
    /// The privileged origin.
    Root,
    /// A call signed by an account.
    Signed(u64),
    /// A call that nobody signed.
    Unsigned,
}

/// Why a call failed: a bad origin, an error of the pallet (`E`), or another
/// error described by a message.
#[derive(Clone, Copy, PartialEq, Eq, Debug)]
pub enum DispatchError<E> {
    BadOrigin,
    Module(E),
    Other(&'static str),
}

/// The outcome of a call.
pub type DispatchResult<E> = Result<(), DispatchError<E>>;

/// The account that signed the call, or `BadOrigin` where nobody did.
pub open spec fn signer_of<E>(origin: Origin) -> Result<u64, DispatchError<E>> {
    match origin {
        Origin::Signed(who) => Ok(who),
        _ => Err(DispatchError::BadOrigin),
    }
}

/// Checks that the call is signed and gives its signer.
pub fn ensure_signed<E>(origin: Origin) -> (r: Result<u64, DispatchError<E>>)
    ensures
        r == signer_of::<E>(origin),
{
    match origin {
        Origin::Signed(who) => Ok(who),
        _ => Err(DispatchError::BadOrigin),
    }
}

} // verus!
