//! The top-level operations and how the main menu's answer selects one.
use vstd::prelude::*;
use crate::menus::{Key, SelectNumberedResp};

verus! {

/// The number of operations that the main menu lists.
pub const MAIN_OPS: usize = 4;

/// What the program does next.
#[derive(PartialEq, Eq, Structural, Clone, Copy, Debug)]
pub enum Op {
    /// Pick an installed app and add it to the list.
    DetachSelect,
    /// Pick a listed app and remove it from the list.
    ReattachSelect,
    /// Delete the list.
    Reset,
    /// Copy the list to shared storage.
    CopyToSd,
    /// Leave.
    Quit,
    /// Say that this key means nothing, then show the menu again.
    Report(Key),
    /// Show the menu again.
    Nop,
}

/// The operation listed at `i` in the main menu.
pub open spec fn listed_op(i: int) -> Op {
    if i == 0 {
        Op::DetachSelect
    } else if i == 1 {
        Op::ReattachSelect
    } else if i == 2 {
        Op::Reset
    } else if i == 3 {
        Op::CopyToSd
    } else {
        Op::Nop
    }
}

/// Keys worth telling the user about when they mean nothing: characters
/// and the arrows.
pub open spec fn is_reported(k: Key) -> bool {
    k is Char || k == Key::Up || k == Key::Down || k == Key::Left || k == Key::Right
}

/// The operation that the main menu's answer selects: a listed one by its
/// index, leaving on quit, and a report for an undefined character or arrow.
pub fn main_op(resp: SelectNumberedResp) -> (r: Op)
    ensures
        r == match resp {
            SelectNumberedResp::Index(i) => listed_op(i as int),
            SelectNumberedResp::UndefinedKey(k) => if is_reported(k) {
                Op::Report(k)
            } else {
                Op::Nop
            },
            SelectNumberedResp::Quit => Op::Quit,
        },
{
    match resp {
        SelectNumberedResp::Index(i) => {
            if i == 0 {
                Op::DetachSelect
            } else if i == 1 {
                Op::ReattachSelect
            } else if i == 2 {
                Op::Reset
            } else if i == 3 {
                Op::CopyToSd
            } else {
                Op::Nop
            }
        },
        SelectNumberedResp::UndefinedKey(k) => match k {
            Key::Char(_) | Key::Up | Key::Down | Key::Left | Key::Right => Op::Report(k),
            _ => Op::Nop,
        },
        SelectNumberedResp::Quit => Op::Quit,
    }
}

} // verus!
