//! The character that the user chose.

use vstd::prelude::*;

verus! {

/// The choice.
#[derive(Debug, Clone, Copy, PartialEq, Eq, Structural)]
pub struct SelectedUid {
    pub uid: Option<i64>,
}

/// The character that was chosen.
pub fn get(selected: &SelectedUid) -> (uid: Option<i64>)
    ensures
        uid == selected.uid,
{
    selected.uid
}

/// Chooses a character, or none.
pub fn set(selected: &mut SelectedUid, uid: Option<i64>)
    ensures
        final(selected).uid == uid,
{
    selected.uid = uid;
}

} // verus!
