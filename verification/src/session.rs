//! The decisions of an unlocked session: what a menu selection asks for, and
//! when the session locks by itself.

use vstd::prelude::*;
use vstd::string::*;

verus! {

/// What the user asks of an unlocked store.
#[derive(Clone, Copy, Debug, PartialEq, Eq, Structural)]
pub enum MenuChoice {
    /// Add an entry.
    Add,
    /// Show the entries.
    Show,
    /// Delete an entry.
    Delete,
    /// Lock the store and leave.
    Lock,
    /// None of these.
    Invalid,
}

/// The seconds after which an unlocked session locks by itself.
pub const AUTO_LOCK_SECS: u64 = 120;

/// The choice that a selection stands for: the digits 1 to 4, each alone.
pub open spec fn choice_of(selection: Seq<char>) -> MenuChoice {
    if selection == seq!['1'] {
        MenuChoice::Add
    } else if selection == seq!['2'] {
        MenuChoice::Show
    } else if selection == seq!['3'] {
        MenuChoice::Delete
    } else if selection == seq!['4'] {
        MenuChoice::Lock
    } else {
        MenuChoice::Invalid
    }
}

/// Reads a menu selection, with the white space around it taken off.
pub fn menu_choice(selection: &str) -> (choice: MenuChoice)
    ensures
        choice == choice_of(selection@),
{
    if selection.unicode_len() != 1 {
        return MenuChoice::Invalid;
    }
    let c = selection.get_char(0);
    assert(selection@ =~= seq![c]);
    if c == '1' {
        MenuChoice::Add
    } else if c == '2' {
        MenuChoice::Show
    } else if c == '3' {
        MenuChoice::Delete
    } else if c == '4' {
        MenuChoice::Lock
    } else {
        MenuChoice::Invalid
    }
}

/// Whether a session that has been unlocked for `secs` seconds and `nanos`
/// nanoseconds must lock: when more than `AUTO_LOCK_SECS` seconds have
/// passed.
pub fn session_expired(secs: u64, nanos: u32) -> (expired: bool)
    ensures
        expired == (secs > 120 || (secs == 120 && nanos > 0)),
{
    secs > AUTO_LOCK_SECS || (secs == AUTO_LOCK_SECS && nanos > 0)
}

} // verus!
