use crate::state::{Treasury, TreasuryView};
use vstd::prelude::*;

verus! {

/// Marks the treasury as closeable, allowing it to be closed later. Nothing
/// else about the treasury changes, and nothing takes the mark back.
pub fn set_treasury_is_closeable(treasury: &mut Treasury)
    ensures
        final(treasury)@ == (TreasuryView { is_closeable: true, ..old(treasury)@ }),
{
    treasury.is_closeable = true;
}

} // verus!
