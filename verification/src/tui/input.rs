//! Keyboard input, as the interface reads it.
use vstd::prelude::*;
use crate::tui::app::Tab;

verus! {

/// A key press as the terminal reports it: the keys the interface tells
/// apart, and every other key.
#[derive(Debug, Clone, Copy, PartialEq, Eq, Structural)]
pub enum KeyInput {
    Char(char),
    Up,
    Down,
    Backspace,
    Esc,
    Enter,
    Other,
}

/// What a key press asks of the interface.
#[derive(Debug, Clone, Copy, PartialEq, Eq, Structural)]
pub enum InputEvent {
    Quit,
    Up,
    Down,
    Top,
    Bottom,
    SortCpu,
    SortMemory,
    TogglePause,
    ToggleTree,
    ToggleHelp,
    EnterFilter,
    InitiateKill,
    SwitchTab(Tab),
    Char(char),
    Backspace,
    Esc,
    Enter,
    NoInput,
}

/// The event of a key press: `q` quits; the arrows and `j` move; `k` asks to
/// kill the selected process; `g` goes to the top and `G` with Shift to the
/// bottom; `s` and `m` sort by CPU and memory; `p` pauses; `/` filters;
/// `t` toggles the container view and `?` the help; `1` to `4` switch to the
/// Fleet, EKG, Sentinel and Trace tabs; any other character is typed as
/// itself.
pub open spec fn key_event(key: KeyInput, shift: bool) -> InputEvent {
    match key {
        KeyInput::Char(c) => if c == 'q' {
            InputEvent::Quit
        } else if c == 'k' {
            InputEvent::InitiateKill
        } else if c == 'j' {
            InputEvent::Down
        } else if c == 'g' {
            InputEvent::Top
        } else if c == 'G' {
            if shift {
                InputEvent::Bottom
            } else {
                InputEvent::Char('G')
            }
        } else if c == 's' {
            InputEvent::SortCpu
        } else if c == 'm' {
            InputEvent::SortMemory
        } else if c == 'p' {
            InputEvent::TogglePause
        } else if c == '/' {
            InputEvent::EnterFilter
        } else if c == 't' {
            InputEvent::ToggleTree
        } else if c == '?' {
            InputEvent::ToggleHelp
        } else if c == '1' {
            InputEvent::SwitchTab(Tab::Fleet)
        } else if c == '2' {
            InputEvent::SwitchTab(Tab::Ekg)
        } else if c == '3' {
            InputEvent::SwitchTab(Tab::Sentinel)
        } else if c == '4' {
            InputEvent::SwitchTab(Tab::Trace)
        } else {
            InputEvent::Char(c)
        },
        KeyInput::Up => InputEvent::Up,
        KeyInput::Down => InputEvent::Down,
        KeyInput::Backspace => InputEvent::Backspace,
        KeyInput::Esc => InputEvent::Esc,
        KeyInput::Enter => InputEvent::Enter,
        KeyInput::Other => InputEvent::NoInput,
    }
}

/// The event of a key press (see [`key_event`]); `shift` says whether Shift
/// was held.
pub fn map_key(key: KeyInput, shift: bool) -> (r: InputEvent)
    ensures
        r == key_event(key, shift),
{
    match key {
        KeyInput::Char(c) => {
            if c == 'q' {
                InputEvent::Quit
            } else if c == 'k' {
                InputEvent::InitiateKill
            } else if c == 'j' {
                InputEvent::Down
            } else if c == 'g' {
                InputEvent::Top
            } else if c == 'G' {
                if shift {
                    InputEvent::Bottom
                } else {
                    InputEvent::Char('G')
                }
            } else if c == 's' {
                InputEvent::SortCpu
            } else if c == 'm' {
                InputEvent::SortMemory
            } else if c == 'p' {
                InputEvent::TogglePause
            } else if c == '/' {
                InputEvent::EnterFilter
            } else if c == 't' {
                InputEvent::ToggleTree
            } else if c == '?' {
                InputEvent::ToggleHelp
            } else if c == '1' {
                InputEvent::SwitchTab(Tab::Fleet)
            } else if c == '2' {
                InputEvent::SwitchTab(Tab::Ekg)
            } else if c == '3' {
                InputEvent::SwitchTab(Tab::Sentinel)
            } else if c == '4' {
                InputEvent::SwitchTab(Tab::Trace)
            } else {
                InputEvent::Char(c)
            }
        },
        KeyInput::Up => InputEvent::Up,
        KeyInput::Down => InputEvent::Down,
        KeyInput::Backspace => InputEvent::Backspace,
        KeyInput::Esc => InputEvent::Esc,
        KeyInput::Enter => InputEvent::Enter,
        KeyInput::Other => InputEvent::NoInput,
    }
}

/// The key bindings: the arrows move up and down, Backspace, `Esc` and
/// Enter are themselves and any other key is nothing, whether or not Shift
/// is held; `q` quits, `k` asks to kill, `j` moves down, `g` goes to the
/// top and `G` with Shift to the bottom (without Shift it is typed), `s`
/// and `m` sort by CPU and memory, `p` pauses, `/` filters, `t` toggles the
/// container view, `?` the help, and `1` to `4` switch to the Fleet, EKG,
/// Sentinel and Trace tabs. Every other character is typed as itself.
pub proof fn lemma_key_bindings(shift: bool, c: char)
    ensures
        key_event(KeyInput::Up, shift) == InputEvent::Up,
        key_event(KeyInput::Down, shift) == InputEvent::Down,
        key_event(KeyInput::Backspace, shift) == InputEvent::Backspace,
        key_event(KeyInput::Esc, shift) == InputEvent::Esc,
        key_event(KeyInput::Enter, shift) == InputEvent::Enter,
        key_event(KeyInput::Other, shift) == InputEvent::NoInput,
        key_event(KeyInput::Char('q'), shift) == InputEvent::Quit,
        key_event(KeyInput::Char('k'), shift) == InputEvent::InitiateKill,
        key_event(KeyInput::Char('j'), shift) == InputEvent::Down,
        key_event(KeyInput::Char('g'), shift) == InputEvent::Top,
        key_event(KeyInput::Char('G'), true) == InputEvent::Bottom,
        key_event(KeyInput::Char('G'), false) == InputEvent::Char('G'),
        key_event(KeyInput::Char('s'), shift) == InputEvent::SortCpu,
        key_event(KeyInput::Char('m'), shift) == InputEvent::SortMemory,
        key_event(KeyInput::Char('p'), shift) == InputEvent::TogglePause,
        key_event(KeyInput::Char('/'), shift) == InputEvent::EnterFilter,
        key_event(KeyInput::Char('t'), shift) == InputEvent::ToggleTree,
        key_event(KeyInput::Char('?'), shift) == InputEvent::ToggleHelp,
        key_event(KeyInput::Char('1'), shift) == InputEvent::SwitchTab(Tab::Fleet),
        key_event(KeyInput::Char('2'), shift) == InputEvent::SwitchTab(Tab::Ekg),
        key_event(KeyInput::Char('3'), shift) == InputEvent::SwitchTab(Tab::Sentinel),
        key_event(KeyInput::Char('4'), shift) == InputEvent::SwitchTab(Tab::Trace),
        c != 'q' && c != 'k' && c != 'j' && c != 'g' && c != 'G' && c != 's' && c != 'm' && c != 'p' && c != '/'
            && c != 't' && c != '?' && c != '1' && c != '2' && c != '3' && c != '4' ==> key_event(
            KeyInput::Char(c),
            shift,
        ) == InputEvent::Char(c),
{
}

} // verus!
