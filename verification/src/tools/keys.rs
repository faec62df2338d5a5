//! The decisions that the tools take on a key press, apart from editing text.
use vstd::prelude::*;

verus! {

/// A key press as the tools tell them apart.
#[derive(Clone, Copy, Debug, PartialEq, Eq, Structural)]
pub enum KeyPress {
    Esc,
    Tab,
    /// Ctrl+C (either case).
    Copy,
    Up,
    Down,
    Enter,
    Char(char),
    Other,
}

/// Where a key press goes.
#[derive(Clone, Copy, Debug, PartialEq, Eq, Structural)]
pub enum KeyRoute {
    /// Leave the tool.
    Back,
    /// Switch the tool's mode or focused pane.
    Switch,
    /// Copy the tool's output.
    Copy,
    /// Hand the key to the focused text area.
    Edit,
}

/// Esc leaves, Tab switches (for tools that use it), Ctrl+C copies, and every
/// other key edits the text.
pub open spec fn route_spec(k: KeyPress, uses_tab: bool) -> KeyRoute {
    match k {
        KeyPress::Esc => KeyRoute::Back,
        KeyPress::Tab => if uses_tab { KeyRoute::Switch } else { KeyRoute::Edit },
        KeyPress::Copy => KeyRoute::Copy,
        _ => KeyRoute::Edit,
    }
}

pub fn route_key(k: KeyPress, uses_tab: bool) -> (res: KeyRoute)
    ensures
        res == route_spec(k, uses_tab),
{
    match k {
        KeyPress::Esc => KeyRoute::Back,
        KeyPress::Tab => if uses_tab { KeyRoute::Switch } else { KeyRoute::Edit },
        KeyPress::Copy => KeyRoute::Copy,
        _ => KeyRoute::Edit,
    }
}

/// The input base after Tab: 2, 8, 10, 16, then 2 again (any other base
/// goes to 2).
pub open spec fn next_base_spec(b: u32) -> u32 {
    if b == 2 {
        8
    } else if b == 8 {
        10
    } else if b == 10 {
        16
    } else {
        2
    }
}

pub fn next_base(b: u32) -> (res: u32)
    ensures
        res == next_base_spec(b),
        res == 2 || res == 8 || res == 10 || res == 16,
{
    if b == 2 {
        8
    } else if b == 8 {
        10
    } else if b == 10 {
        16
    } else {
        2
    }
}

/// The selected entry of a list of `n` entries after a key: Up or `k` moves
/// up and Down or `j` moves down, staying within the list.
pub open spec fn select_spec(i: usize, k: KeyPress, n: usize) -> usize {
    match k {
        KeyPress::Up | KeyPress::Char('k') => if i > 0 { (i - 1) as usize } else { 0 },
        KeyPress::Down | KeyPress::Char('j') => if i + 1 < n { (i + 1) as usize } else { i },
        _ => i,
    }
}

pub fn select_entry(i: usize, k: KeyPress, n: usize) -> (res: usize)
    requires
        n > 0,
    ensures
        res == select_spec(i, k, n),
        i < n ==> res < n,
{
    match k {
        KeyPress::Up | KeyPress::Char('k') => if i > 0 { i - 1 } else { 0 },
        KeyPress::Down | KeyPress::Char('j') => if i < n - 1 { i + 1 } else { i },
        _ => i,
    }
}

/// What the MAC address generator does on a key.
#[derive(Clone, Copy, Debug, PartialEq, Eq, Structural)]
pub enum MacKey {
    Regenerate,
    More,
    Fewer,
    CopyAll,
    Back,
    Ignore,
}

pub open spec fn mac_key_spec(k: KeyPress) -> MacKey {
    match k {
        KeyPress::Enter => MacKey::Regenerate,
        KeyPress::Char('+') => MacKey::More,
        KeyPress::Char('-') => MacKey::Fewer,
        KeyPress::Copy => MacKey::CopyAll,
        KeyPress::Esc => MacKey::Back,
        _ => MacKey::Ignore,
    }
}

pub fn mac_key(k: KeyPress) -> (res: MacKey)
    ensures
        res == mac_key_spec(k),
{
    match k {
        KeyPress::Enter => MacKey::Regenerate,
        KeyPress::Char('+') => MacKey::More,
        KeyPress::Char('-') => MacKey::Fewer,
        KeyPress::Copy => MacKey::CopyAll,
        KeyPress::Esc => MacKey::Back,
        _ => MacKey::Ignore,
    }
}

} // verus!
