//! What a key press does to the interface, and what the interface asks of
//! the outside world in return.
use vstd::prelude::*;
use crate::system::model::{SortMode, ViewMode, ViewRow};
use crate::text::{push_char, string_of, to_chars};
use crate::tui::app::{
    buffers_bounded, clamp_selection, pipeline_fresh, same_data, AppState, InputMode, Tab,
};
use crate::tui::projection::projection_of;
use crate::tui::input::InputEvent;

verus! {

broadcast use vstd::string::group_string_axioms;

/// The signals the interface sends to a process.
#[derive(Debug, Clone, Copy, PartialEq, Eq, Structural)]
pub enum SignalKind {
    /// `SIGTERM`: asks the process to end.
    Term,
    /// `SIGKILL`: ends the process.
    Kill,
}

/// What the interface asks of the outside world after a key press.
#[derive(Debug, Clone, Copy, PartialEq, Eq, Structural)]
pub enum Command {
    /// Nothing: draw the next frame.
    Stay,
    /// Leave the interface.
    Quit,
    /// Fade in the lens that was just switched to.
    FadeTab,
    /// Send `signal` to process `pid`, then report with
    /// [`AppState::finish_signal`].
    Send { pid: u32, signal: SignalKind },
}

/// How sending a signal went.
#[derive(Debug, Clone, Copy, PartialEq, Eq, Structural)]
pub enum SignalOutcome {
    Delivered,
    /// `EPERM`.
    PermissionDenied,
    /// `ESRCH`.
    NoSuchProcess,
    /// Any other error.
    Failed,
}

/// The settings that key presses change.
pub struct Controls {
    pub view_mode: ViewMode,
    pub sort_mode: SortMode,
    pub active_tab: Tab,
    pub input_mode: InputMode,
    pub paused: bool,
    pub show_help: bool,
    pub query: Seq<char>,
}

pub open spec fn controls_of(s: AppState) -> Controls {
    Controls {
        view_mode: s.view_mode,
        sort_mode: s.sort_mode,
        active_tab: s.active_tab,
        input_mode: s.input_mode,
        paused: s.paused,
        show_help: s.show_help,
        query: s.filter_query@,
    }
}

/// The other view mode.
pub open spec fn toggled(m: ViewMode) -> ViewMode {
    match m {
        ViewMode::Flat => ViewMode::Container,
        ViewMode::Container => ViewMode::Flat,
    }
}

/// Whether the selection moves: in normal mode, with the help closed.
pub open spec fn can_navigate(s: AppState) -> bool {
    s.input_mode == InputMode::Normal && !s.show_help
}

/// The settings after `ev`. With the help open, only `Esc` (which closes
/// it), `?`, tab switches and typing act. `/` starts filtering; `k` asks for
/// confirmation where a process is targeted; `Esc` leaves any mode and clears
/// the filter; typed characters extend the filter while filtering, and `n`
/// or `N` cancels a confirmation; Backspace shortens the filter while
/// filtering; `s` and `m` choose the sort; `p` pauses; `t` toggles the
/// container view and `?` the help, in normal mode.
pub open spec fn next_controls(s: AppState, ev: InputEvent) -> Controls {
    let c = controls_of(s);
    match ev {
        InputEvent::SwitchTab(t) => Controls { active_tab: t, ..c },
        InputEvent::EnterFilter => if !s.show_help {
            Controls { input_mode: InputMode::Filter, ..c }
        } else {
            c
        },
        InputEvent::InitiateKill => if !s.show_help && s.input_mode == InputMode::Normal
            && s.target_pid is Some {
            Controls { input_mode: InputMode::Confirm, ..c }
        } else {
            c
        },
        InputEvent::Esc => if s.show_help {
            Controls { show_help: false, ..c }
        } else {
            Controls { input_mode: InputMode::Normal, query: Seq::empty(), ..c }
        },
        InputEvent::Char(ch) => match s.input_mode {
            InputMode::Filter => Controls { query: c.query.push(ch), ..c },
            InputMode::Confirm => if ch == 'n' || ch == 'N' {
                Controls { input_mode: InputMode::Normal, ..c }
            } else {
                c
            },
            InputMode::Normal => c,
        },
        InputEvent::Backspace => if s.input_mode == InputMode::Filter && c.query.len() > 0 {
            Controls { query: c.query.drop_last(), ..c }
        } else {
            c
        },
        InputEvent::SortCpu => if !s.show_help {
            Controls { sort_mode: SortMode::Cpu, ..c }
        } else {
            c
        },
        InputEvent::SortMemory => if !s.show_help {
            Controls { sort_mode: SortMode::Memory, ..c }
        } else {
            c
        },
        InputEvent::TogglePause => if !s.show_help {
            Controls { paused: !s.paused, ..c }
        } else {
            c
        },
        InputEvent::ToggleTree => if can_navigate(s) {
            Controls { view_mode: toggled(s.view_mode), ..c }
        } else {
            c
        },
        InputEvent::ToggleHelp => if s.input_mode == InputMode::Normal {
            Controls { show_help: !s.show_help, ..c }
        } else {
            c
        },
        _ => c,
    }
}

/// Whether `ev` projects the rows again: when the filter, the sort or the
/// view mode may have changed.
pub open spec fn reprojects(s: AppState, ev: InputEvent) -> bool {
    match ev {
        InputEvent::Esc => !s.show_help,
        InputEvent::Char(_) => s.input_mode == InputMode::Filter,
        InputEvent::Backspace => s.input_mode == InputMode::Filter,
        InputEvent::SortCpu => !s.show_help,
        InputEvent::SortMemory => !s.show_help,
        InputEvent::ToggleTree => can_navigate(s),
        _ => false,
    }
}

/// The selection after `ev`, where the rows then number `len`. Typing into
/// the filter selects the first row; other re-projections keep the
/// selection on a row (see [`clamp_selection`]); the arrows, `j`, `g` and
/// `G` move it one row up or down, to the top or to the bottom, staying
/// within the rows; nothing else moves it.
pub open spec fn selection_after(s: AppState, ev: InputEvent, len: nat) -> Option<usize> {
    let last: int = if len == 0 { 0 } else { len - 1 };
    match ev {
        InputEvent::Char(_) if s.input_mode == InputMode::Filter => Some(0),
        InputEvent::Up if can_navigate(s) => match s.selected {
            Some(i) => Some(if i == 0 { 0 } else { (i - 1) as usize }),
            None => Some(0),
        },
        InputEvent::Down if can_navigate(s) => match s.selected {
            Some(i) => Some(if i >= last { i } else { (i + 1) as usize }),
            None => Some(0),
        },
        InputEvent::Top if can_navigate(s) => Some(0),
        InputEvent::Bottom if can_navigate(s) => Some(last as usize),
        _ => if reprojects(s, ev) {
            clamp_selection(s.selected, len)
        } else {
            s.selected
        },
    }
}

/// Whether `c` answers a confirmation with `SIGTERM`.
pub open spec fn is_term_key(c: char) -> bool {
    c == 't' || c == 'T'
}

/// Whether `c` answers a confirmation with `SIGKILL`.
pub open spec fn is_kill_key(c: char) -> bool {
    c == 'k' || c == 'K'
}

/// The signal that `ev` sends, if any: while confirming, with a process
/// targeted, `t` or `T` sends `SIGTERM` and `k` or `K` sends `SIGKILL`.
pub open spec fn signal_of(s: AppState, ev: InputEvent) -> Option<SignalKind> {
    if s.input_mode == InputMode::Confirm && s.target_pid is Some {
        match ev {
            InputEvent::InitiateKill => if !s.show_help {
                Some(SignalKind::Kill)
            } else {
                None
            },
            InputEvent::ToggleTree => Some(SignalKind::Term),
            InputEvent::Char(c) => if is_term_key(c) {
                Some(SignalKind::Term)
            } else if is_kill_key(c) {
                Some(SignalKind::Kill)
            } else {
                None
            },
            _ => None,
        }
    } else {
        None
    }
}

/// What the interface asks after `ev`: to quit on `q`, to fade in a lens
/// that a tab switch changed to, and to send the signal of [`signal_of`] to
/// the targeted process.
pub open spec fn command_of(s: AppState, ev: InputEvent) -> Command {
    match ev {
        InputEvent::Quit => Command::Quit,
        InputEvent::SwitchTab(t) => if s.active_tab != t {
            Command::FadeTab
        } else {
            Command::Stay
        },
        _ => match signal_of(s, ev) {
            Some(k) => Command::Send { pid: s.target_pid->0, signal: k },
            None => Command::Stay,
        },
    }
}

/// The target once the selection is `sel` over `rows`: the pid of the
/// selected row where it is a process row, none where it is a header or past
/// the end, and `prev` where nothing is selected.
pub open spec fn settled_target(sel: Option<usize>, rows: Seq<ViewRow>, prev: Option<u32>) -> Option<u32> {
    match sel {
        Some(idx) => if idx < rows.len() {
            match rows[idx as int] {
                ViewRow::Process { pid, .. } => Some(pid),
                _ => None,
            }
        } else {
            None
        },
        None => prev,
    }
}

/// The message left by a failed signal.
pub open spec fn signal_error_text(o: SignalOutcome) -> Option<Seq<char>> {
    match o {
        SignalOutcome::Delivered => None,
        SignalOutcome::PermissionDenied => Some("Error: Permission Denied (Run as root)"@),
        SignalOutcome::NoSuchProcess => Some("Error: Process no longer exists"@),
        SignalOutcome::Failed => Some("Error: Signal failed"@),
    }
}

impl AppState {
    /// Reacts to a key press (see [`next_controls`], [`selection_after`] and
    /// [`command_of`]), then targets the process of the selected row (see
    /// [`settled_target`]).
    pub fn handle_input(&mut self, ev: InputEvent) -> (r: Command)
        ensures
            controls_of(*final(self)) == next_controls(*old(self), ev),
            same_data(*final(self), *old(self)),
            final(self).error_message == old(self).error_message,
            reprojects(*old(self), ev) ==> pipeline_fresh(*final(self)),
            !reprojects(*old(self), ev) ==> final(self).view_pipeline == old(self).view_pipeline,
            final(self).selected == selection_after(*old(self), ev, final(self).view_pipeline@.len()),
            final(self).target_pid == settled_target(
                final(self).selected,
                final(self).view_pipeline@,
                old(self).target_pid,
            ),
            r == command_of(*old(self), ev),
            pipeline_fresh(*old(self)) ==> pipeline_fresh(*final(self)),
            buffers_bounded(*old(self)) ==> buffers_bounded(*final(self)),
            ev == InputEvent::SortCpu && !old(self).show_help ==> final(self).sort_mode == SortMode::Cpu,
            ev == InputEvent::SortMemory && !old(self).show_help ==> final(self).sort_mode == SortMode::Memory,
            reprojects(*old(self), ev) && final(self).filter_query@.len() > 0 ==> projection_of(
                final(self).snapshots@,
                final(self).view_mode,
                final(self).sort_mode,
                Some(final(self).filter_query@),
                final(self).view_pipeline@,
            ),
            forall|i: usize, pid: u32, lvl: u8|
                final(self).selected == Some(i) && i < final(self).view_pipeline@.len()
                    && final(self).view_pipeline@[i as int] == (ViewRow::Process { pid: pid, indent_level: lvl })
                    ==> final(self).target_pid == Some(pid),
            forall|i: usize|
                final(self).selected == Some(i) && (i >= final(self).view_pipeline@.len()
                    || final(self).view_pipeline@[i as int] is ContainerHeader) ==> final(self).target_pid is None,
            final(self).selected is None ==> final(self).target_pid == old(self).target_pid,
    {
        let r = self.react(ev);
        self.sync_target();
        r
    }

    fn react(&mut self, ev: InputEvent) -> (r: Command)
        ensures
            controls_of(*final(self)) == next_controls(*old(self), ev),
            same_data(*final(self), *old(self)),
            final(self).error_message == old(self).error_message,
            final(self).target_pid == old(self).target_pid,
            reprojects(*old(self), ev) ==> pipeline_fresh(*final(self)),
            !reprojects(*old(self), ev) ==> final(self).view_pipeline == old(self).view_pipeline,
            final(self).selected == selection_after(*old(self), ev, final(self).view_pipeline@.len()),
            r == command_of(*old(self), ev),
            !reprojects(*old(self), ev) ==> {
                &&& final(self).snapshots == old(self).snapshots
                &&& final(self).view_mode == old(self).view_mode
                &&& final(self).sort_mode == old(self).sort_mode
                &&& final(self).filter_query@ == old(self).filter_query@
            },
    {
        match ev {
            InputEvent::Quit => Command::Quit,
            InputEvent::SwitchTab(tab) => {
                if self.active_tab != tab {
                    self.active_tab = tab;
                    Command::FadeTab
                } else {
                    Command::Stay
                }
            },
            InputEvent::EnterFilter => {
                if !self.show_help {
                    self.input_mode = InputMode::Filter;
                }
                Command::Stay
            },
            InputEvent::InitiateKill => {
                if !self.show_help {
                    if self.input_mode == InputMode::Normal && self.target_pid.is_some() {
                        self.input_mode = InputMode::Confirm;
                    } else if self.input_mode == InputMode::Confirm {
                        if let Some(pid) = self.target_pid {
                            return Command::Send { pid, signal: SignalKind::Kill };
                        }
                    }
                }
                Command::Stay
            },
            InputEvent::Esc => {
                if self.show_help {
                    self.show_help = false;
                } else {
                    self.input_mode = InputMode::Normal;
                    self.filter_query = String::new();
                    self.refresh_pipeline();
                }
                Command::Stay
            },
            InputEvent::Char(c) => self.react_char(c),
            InputEvent::Backspace => {
                if self.input_mode == InputMode::Filter {
                    let chars = to_chars(self.filter_query.as_str());
                    if chars.len() > 0 {
                        self.filter_query = string_of(&chars, 0, chars.len() - 1);
                    }
                    self.refresh_pipeline();
                }
                Command::Stay
            },
            InputEvent::Up | InputEvent::Down | InputEvent::Top | InputEvent::Bottom => {
                self.navigate(ev);
                Command::Stay
            },
            InputEvent::SortCpu => {
                if !self.show_help {
                    self.sort_mode = SortMode::Cpu;
                    self.refresh_pipeline();
                }
                Command::Stay
            },
            InputEvent::SortMemory => {
                if !self.show_help {
                    self.sort_mode = SortMode::Memory;
                    self.refresh_pipeline();
                }
                Command::Stay
            },
            InputEvent::TogglePause => {
                if !self.show_help {
                    self.paused = !self.paused;
                }
                Command::Stay
            },
            InputEvent::ToggleTree => {
                if self.input_mode == InputMode::Normal && !self.show_help {
                    self.view_mode = match self.view_mode {
                        ViewMode::Flat => ViewMode::Container,
                        ViewMode::Container => ViewMode::Flat,
                    };
                    self.refresh_pipeline();
                } else if self.input_mode == InputMode::Confirm {
                    if let Some(pid) = self.target_pid {
                        return Command::Send { pid, signal: SignalKind::Term };
                    }
                }
                Command::Stay
            },
            InputEvent::ToggleHelp => {
                if self.input_mode == InputMode::Normal {
                    self.show_help = !self.show_help;
                }
                Command::Stay
            },
            InputEvent::Enter | InputEvent::NoInput => Command::Stay,
        }
    }

    fn react_char(&mut self, c: char) -> (r: Command)
        ensures
            controls_of(*final(self)) == next_controls(*old(self), InputEvent::Char(c)),
            same_data(*final(self), *old(self)),
            final(self).error_message == old(self).error_message,
            final(self).target_pid == old(self).target_pid,
            reprojects(*old(self), InputEvent::Char(c)) ==> pipeline_fresh(*final(self)),
            !reprojects(*old(self), InputEvent::Char(c)) ==> final(self).view_pipeline
                == old(self).view_pipeline,
            final(self).selected == selection_after(
                *old(self),
                InputEvent::Char(c),
                final(self).view_pipeline@.len(),
            ),
            r == command_of(*old(self), InputEvent::Char(c)),
    {
        match self.input_mode {
            InputMode::Filter => {
                push_char(&mut self.filter_query, c);
                self.refresh_pipeline();
                self.selected = Some(0);
                Command::Stay
            },
            InputMode::Confirm => {
                if c == 't' || c == 'T' {
                    match self.target_pid {
                        Some(pid) => Command::Send { pid, signal: SignalKind::Term },
                        None => Command::Stay,
                    }
                } else if c == 'k' || c == 'K' {
                    match self.target_pid {
                        Some(pid) => Command::Send { pid, signal: SignalKind::Kill },
                        None => Command::Stay,
                    }
                } else {
                    if c == 'n' || c == 'N' {
                        self.input_mode = InputMode::Normal;
                    }
                    Command::Stay
                }
            },
            InputMode::Normal => Command::Stay,
        }
    }

    fn navigate(&mut self, ev: InputEvent)
        requires
            ev is Up || ev is Down || ev is Top || ev is Bottom,
        ensures
            *final(self) == (AppState { selected: final(self).selected, ..*old(self) }),
            final(self).selected == selection_after(*old(self), ev, old(self).view_pipeline@.len()),
    {
        if self.input_mode == InputMode::Normal && !self.show_help {
            let len = self.view_pipeline.len();
            let last = if len == 0 { 0 } else { len - 1 };
            let next = match ev {
                InputEvent::Up => match self.selected {
                    Some(i) => if i == 0 { 0 } else { i - 1 },
                    None => 0,
                },
                InputEvent::Down => match self.selected {
                    Some(i) => if i >= last { i } else { i + 1 },
                    None => 0,
                },
                InputEvent::Top => 0,
                _ => last,
            };
            self.selected = Some(next);
        }
    }

    /// Reports how sending a signal went: back to normal mode, with the
    /// error's message where it failed (see [`signal_error_text`]). Returns
    /// whether it was delivered, which the interface marks with a flash.
    pub fn finish_signal(&mut self, outcome: SignalOutcome) -> (delivered: bool)
        ensures
            *final(self) == (AppState {
                input_mode: InputMode::Normal,
                error_message: final(self).error_message,
                ..*old(self)
            }),
            match signal_error_text(outcome) {
                Some(t) => final(self).error_message matches Some(m) && m@ == t,
                None => final(self).error_message == old(self).error_message,
            },
            delivered == (outcome == SignalOutcome::Delivered),
            pipeline_fresh(*old(self)) ==> pipeline_fresh(*final(self)),
            buffers_bounded(*old(self)) ==> buffers_bounded(*final(self)),
    {
        self.input_mode = InputMode::Normal;
        match outcome {
            SignalOutcome::Delivered => true,
            SignalOutcome::PermissionDenied => {
                self.error_message = Some("Error: Permission Denied (Run as root)".to_string());
                false
            },
            SignalOutcome::NoSuchProcess => {
                self.error_message = Some("Error: Process no longer exists".to_string());
                false
            },
            SignalOutcome::Failed => {
                self.error_message = Some("Error: Signal failed".to_string());
                false
            },
        }
    }
}

/// Typing a character into the filter and erasing it gives the settings
/// back.
pub proof fn lemma_type_then_erase(s: AppState, typed: AppState, c: char)
    requires
        s.input_mode == InputMode::Filter,
        controls_of(typed) == next_controls(s, InputEvent::Char(c)),
    ensures
        next_controls(typed, InputEvent::Backspace) == controls_of(s),
{
    assert(s.filter_query@.push(c).drop_last() =~= s.filter_query@);
}

/// Toggling the container view twice gives the settings back.
pub proof fn lemma_toggle_tree_twice(s: AppState, toggled_once: AppState)
    requires
        can_navigate(s),
        controls_of(toggled_once) == next_controls(s, InputEvent::ToggleTree),
    ensures
        next_controls(toggled_once, InputEvent::ToggleTree) == controls_of(s),
{
}

/// Pausing twice gives the settings back.
pub proof fn lemma_pause_twice(s: AppState, paused_once: AppState)
    requires
        !s.show_help,
        controls_of(paused_once) == next_controls(s, InputEvent::TogglePause),
    ensures
        next_controls(paused_once, InputEvent::TogglePause) == controls_of(s),
{
}

/// Opening and closing the help gives the settings back.
pub proof fn lemma_help_twice(s: AppState, opened: AppState)
    requires
        s.input_mode == InputMode::Normal,
        controls_of(opened) == next_controls(s, InputEvent::ToggleHelp),
    ensures
        next_controls(opened, InputEvent::ToggleHelp) == controls_of(s),
{
}

/// `Esc` with the help closed leaves any mode for normal mode with an empty
/// filter, and confirms nothing.
pub proof fn lemma_escape_resets(s: AppState)
    requires
        !s.show_help,
    ensures
        next_controls(s, InputEvent::Esc).input_mode == InputMode::Normal,
        next_controls(s, InputEvent::Esc).query.len() == 0,
        command_of(s, InputEvent::Esc) == Command::Stay,
{
}

/// A signal is only ever sent while confirming, and only to the targeted
/// process: no key press sends one from normal or filter mode.
pub proof fn lemma_signals_need_confirmation(s: AppState, ev: InputEvent)
    ensures
        command_of(s, ev) matches Command::Send { pid, .. } ==> {
            &&& s.input_mode == InputMode::Confirm
            &&& s.target_pid == Some(pid)
        },
        s.input_mode != InputMode::Confirm ==> !(command_of(s, ev) is Send),
{
}

/// What each key event does to the settings. Tab switches always land on
/// their tab; with the help closed, `/` starts filtering, `Esc` returns to
/// normal mode with an empty filter, `s` sorts by CPU, `m` by memory and `p`
/// flips the pause; with the help open, `Esc` closes it; in normal mode `?`
/// flips the help and `t` (help closed) switches to the other view mode;
/// typing while filtering appends the character to the query, Backspace
/// removes its last character, and `n` or `N` leaves a confirmation. The
/// remaining events change no setting.
pub proof fn lemma_event_effects(s: AppState, ev: InputEvent)
    ensures
        ev matches InputEvent::SwitchTab(t) ==> next_controls(s, ev).active_tab == t,
        ev == InputEvent::EnterFilter && !s.show_help ==> next_controls(s, ev).input_mode == InputMode::Filter,
        ev == InputEvent::InitiateKill && !s.show_help && s.input_mode == InputMode::Normal && s.target_pid is Some
            ==> next_controls(s, ev).input_mode == InputMode::Confirm,
        ev == InputEvent::Esc && s.show_help ==> !next_controls(s, ev).show_help && next_controls(s, ev).query
            == s.filter_query@ && next_controls(s, ev).input_mode == s.input_mode,
        ev == InputEvent::Esc && !s.show_help ==> next_controls(s, ev).input_mode == InputMode::Normal
            && next_controls(s, ev).query.len() == 0,
        ev == InputEvent::Backspace && s.input_mode == InputMode::Filter && s.filter_query@.len() > 0 ==> {
            &&& next_controls(s, ev).query.len() + 1 == s.filter_query@.len()
            &&& next_controls(s, ev).query == s.filter_query@.take(s.filter_query@.len() - 1)
        },
        ev == InputEvent::SortCpu && !s.show_help ==> next_controls(s, ev).sort_mode == SortMode::Cpu,
        ev == InputEvent::SortMemory && !s.show_help ==> next_controls(s, ev).sort_mode == SortMode::Memory,
        ev == InputEvent::TogglePause && !s.show_help ==> next_controls(s, ev).paused != s.paused,
        ev == InputEvent::ToggleTree && s.input_mode == InputMode::Normal && !s.show_help
            ==> next_controls(s, ev).view_mode != s.view_mode,
        ev == InputEvent::ToggleHelp && s.input_mode == InputMode::Normal ==> next_controls(s, ev).show_help
            != s.show_help,
        s.show_help && (ev == InputEvent::SortCpu || ev == InputEvent::SortMemory || ev == InputEvent::TogglePause
            || ev == InputEvent::EnterFilter || ev == InputEvent::ToggleTree) ==> next_controls(s, ev)
            == controls_of(s),
        (ev == InputEvent::Quit || ev == InputEvent::Up || ev == InputEvent::Down || ev == InputEvent::Top || ev
            == InputEvent::Bottom || ev == InputEvent::Enter || ev == InputEvent::NoInput) ==> next_controls(s, ev)
            == controls_of(s),
{
}

/// Typing `c` while filtering appends it to the query; typing `n` or `N`
/// while confirming leaves the confirmation; typing in normal mode changes
/// no setting.
pub proof fn lemma_typing(s: AppState, c: char)
    ensures
        s.input_mode == InputMode::Filter ==> {
            &&& next_controls(s, InputEvent::Char(c)).query.len() == s.filter_query@.len() + 1
            &&& next_controls(s, InputEvent::Char(c)).query.last() == c
            &&& next_controls(s, InputEvent::Char(c)).query.take(s.filter_query@.len() as int) == s.filter_query@
            &&& next_controls(s, InputEvent::Char(c)).input_mode == InputMode::Filter
        },
        s.input_mode == InputMode::Confirm && (c == 'n' || c == 'N') ==> next_controls(s, InputEvent::Char(c)).input_mode
            == InputMode::Normal,
        s.input_mode == InputMode::Normal ==> next_controls(s, InputEvent::Char(c)) == controls_of(s),
{
    if s.input_mode == InputMode::Filter {
        assert(s.filter_query@.push(c).take(s.filter_query@.len() as int) =~= s.filter_query@);
    }
}

/// How the selection moves over `len` rows, in normal mode with the help
/// closed: up one row but not above the first, down one row but not past the
/// last, to the first or the last row; with nothing selected, up and down
/// select the first row. Typing into the filter selects the first row.
/// Outside normal mode, or with the help open, the keys that move or change
/// nothing leave the selection as it is.
pub proof fn lemma_selection_moves(s: AppState, len: nat)
    ensures
        can_navigate(s) && s.selected is Some ==> {
            let i = s.selected->0 as int;
            &&& selection_after(s, InputEvent::Up, len) == Some((if i > 0 { i - 1 } else { 0 }) as usize)
            &&& i + 1 < len ==> selection_after(s, InputEvent::Down, len) == Some((i + 1) as usize)
            &&& i + 1 >= len ==> selection_after(s, InputEvent::Down, len) == s.selected
        },
        can_navigate(s) && s.selected is None ==> selection_after(s, InputEvent::Up, len) == Some(0usize)
            && selection_after(s, InputEvent::Down, len) == Some(0usize),
        can_navigate(s) ==> selection_after(s, InputEvent::Top, len) == Some(0usize),
        can_navigate(s) && len > 0 ==> selection_after(s, InputEvent::Bottom, len) == Some((len - 1) as usize),
        !can_navigate(s) ==> selection_after(s, InputEvent::Up, len) == s.selected && selection_after(
            s,
            InputEvent::Down,
            len,
        ) == s.selected && selection_after(s, InputEvent::Top, len) == s.selected && selection_after(
            s,
            InputEvent::Bottom,
            len,
        ) == s.selected,
        forall|c: char| s.input_mode == InputMode::Filter ==> #[trigger] selection_after(s, InputEvent::Char(c), len)
            == Some(0usize),
        selection_after(s, InputEvent::Quit, len) == s.selected,
        selection_after(s, InputEvent::NoInput, len) == s.selected,
        selection_after(s, InputEvent::TogglePause, len) == s.selected,
{
}

/// After a re-projection the selection stays where it is if it is still on
/// a row, moves to the last row if it was past it, selects the first row
/// where there was none, and is cleared where there are no rows.
pub proof fn lemma_clamp_selection(sel: Option<usize>, len: nat)
    ensures
        len == 0 ==> clamp_selection(sel, len) is None,
        len > 0 && sel is None ==> clamp_selection(sel, len) == Some(0usize),
        sel matches Some(i) && i < len ==> clamp_selection(sel, len) == sel,
        sel matches Some(i) && i >= len && len > 0 ==> clamp_selection(sel, len) == Some((len - 1) as usize),
        clamp_selection(sel, len) matches Some(j) ==> j < len,
{
}

/// The settled target: the pid of a selected process row, whatever its
/// indent level; none on a header row or past the rows; unchanged without a
/// selection.
pub proof fn lemma_settled_target(sel: Option<usize>, rows: Seq<ViewRow>, prev: Option<u32>)
    ensures
        forall|i: usize, pid: u32, lvl: u8|
            sel == Some(i) && i < rows.len() && rows[i as int] == (ViewRow::Process { pid: pid, indent_level: lvl })
                ==> settled_target(sel, rows, prev) == Some(pid),
        forall|i: usize|
            sel == Some(i) && (i >= rows.len() || rows[i as int] is ContainerHeader) ==> settled_target(
                sel,
                rows,
                prev,
            ) is None,
        sel is None ==> settled_target(sel, rows, prev) == prev,
{
}

/// What the interface asks for: `q` always quits; a tab switch to another
/// tab fades it in and one to the current tab asks nothing; while confirming
/// with a target, `t`, `T` and the tree key send SIGTERM and `k`, `K` (and
/// the kill key with the help closed) SIGKILL to the target; keys that move
/// the selection or pause ask nothing.
pub proof fn lemma_commands(s: AppState)
    ensures
        command_of(s, InputEvent::Quit) == Command::Quit,
        forall|t: Tab| t != s.active_tab ==> #[trigger] command_of(s, InputEvent::SwitchTab(t)) == Command::FadeTab,
        command_of(s, InputEvent::SwitchTab(s.active_tab)) == Command::Stay,
        s.input_mode == InputMode::Confirm && s.target_pid is Some ==> {
            let pid = s.target_pid->0;
            &&& command_of(s, InputEvent::Char('t')) == Command::Send { pid: pid, signal: SignalKind::Term }
            &&& command_of(s, InputEvent::Char('T')) == Command::Send { pid: pid, signal: SignalKind::Term }
            &&& command_of(s, InputEvent::ToggleTree) == Command::Send { pid: pid, signal: SignalKind::Term }
            &&& command_of(s, InputEvent::Char('k')) == Command::Send { pid: pid, signal: SignalKind::Kill }
            &&& command_of(s, InputEvent::Char('K')) == Command::Send { pid: pid, signal: SignalKind::Kill }
            &&& !s.show_help ==> command_of(s, InputEvent::InitiateKill) == Command::Send {
                pid: pid,
                signal: SignalKind::Kill,
            }
            &&& command_of(s, InputEvent::Char('n')) == Command::Stay
        },
        command_of(s, InputEvent::Up) == Command::Stay,
        command_of(s, InputEvent::Down) == Command::Stay,
        command_of(s, InputEvent::TogglePause) == Command::Stay,
        command_of(s, InputEvent::NoInput) == Command::Stay,
{
}

/// A delivered signal leaves no message; each failure leaves its own.
pub proof fn lemma_signal_messages()
    ensures
        signal_error_text(SignalOutcome::Delivered) is None,
        signal_error_text(SignalOutcome::PermissionDenied) is Some,
        signal_error_text(SignalOutcome::NoSuchProcess) is Some,
        signal_error_text(SignalOutcome::Failed) is Some,
        signal_error_text(SignalOutcome::PermissionDenied) != signal_error_text(SignalOutcome::NoSuchProcess),
        signal_error_text(SignalOutcome::PermissionDenied) != signal_error_text(SignalOutcome::Failed),
        signal_error_text(SignalOutcome::NoSuchProcess) != signal_error_text(SignalOutcome::Failed),
{
    reveal_strlit("Error: Permission Denied (Run as root)");
    reveal_strlit("Error: Process no longer exists");
    reveal_strlit("Error: Signal failed");
    assert("Error: Permission Denied (Run as root)"@.len() != "Error: Process no longer exists"@.len());
    assert("Error: Permission Denied (Run as root)"@.len() != "Error: Signal failed"@.len());
    assert("Error: Process no longer exists"@.len() != "Error: Signal failed"@.len());
}

/// The two view modes are each other's toggle.
pub proof fn lemma_toggled(m: ViewMode)
    ensures
        toggled(m) != m,
        toggled(toggled(m)) == m,
{
}

} // verus!
