//! The decisions of the panic screen and of checking a system call's result.
use vstd::prelude::*;

verus! {

/// The SELECT button in the HID key bitmask.
pub const KEY_SELECT: u32 = 1u32 << 2u32;

/// Whether a system call's result code reports failure: failure codes are negative.
pub fn result_failed(result: i32) -> (failed: bool)
    ensures
        failed == (result < 0),
{
    result < 0
}

/// Whether the keys pressed this frame include SELECT, which leaves the panic screen.
pub fn select_pressed(keys_down: u32) -> (pressed: bool)
    ensures
        pressed == ((keys_down & KEY_SELECT) != 0),
{
    (keys_down & KEY_SELECT) != 0
}

/// How the panic screen describes whether the panic can unwind.
pub fn unwind_label(can_unwind: bool) -> (label: &'static str)
    ensures
        can_unwind ==> label@ == "can unwind"@,
        !can_unwind ==> label@ == "cannot unwind"@,
{
    if can_unwind {
        "can unwind"
    } else {
        "cannot unwind"
    }
}

} // verus!
