//! The allowance rule of the pool's liquidity token: an unlimited allowance
//! (`u128::MAX`) is never spent down.
use vstd::prelude::*;

verus! {

/// Failures of a transfer on behalf of another account.
#[derive(Clone, Copy, Debug, PartialEq, Eq, Structural)]
pub enum AllowanceError {
    InsufficientAllowance,
}

/// The allowance left after `value` of it is spent: `None` where it is
/// unlimited and stays as it is, else what remains; fails where `value`
/// exceeds it.
pub fn spend_allowance(allowance: u128, value: u128) -> (r: Result<Option<u128>, AllowanceError>)
    ensures
        allowance == u128::MAX ==> r == Ok::<Option<u128>, AllowanceError>(None),
        allowance != u128::MAX ==> (r.is_ok() <==> value <= allowance),
        allowance != u128::MAX && value <= allowance ==> r == Ok::<Option<u128>, AllowanceError>(Some((allowance - value) as u128)),
        allowance != u128::MAX && value > allowance ==> r == Err::<Option<u128>, AllowanceError>(AllowanceError::InsufficientAllowance),
{
    if allowance == u128::MAX {
        Ok(None)
    } else if allowance < value {
        Err(AllowanceError::InsufficientAllowance)
    } else {
        Ok(Some(allowance - value))
    }
}

} // verus!
