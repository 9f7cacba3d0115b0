use vstd::prelude::*;
use crate::app::{
    clamped_cursor, flipped, moved_cursor, moved_preview_cursor, next_reason, next_source,
    recomputed, toggled, App, Focus, Mode, ReasonFilter, SortMode, SourceFilter,
};
use crate::resolve::Request;
use crate::text::{chars_of, slice_chars, string_of, string_push, string_views};

verus! {

/// A key as the browser sees it.
#[derive(Debug, Clone, Copy, PartialEq, Eq, Structural)]
pub enum Key {
    Char(char),
    Enter,
    Esc,
    Backspace,
    Tab,
    Up,
    Down,
    PageUp,
    PageDown,
    Home,
    End,
    /// Any other key: ignored.
    Other,
}

/// A key press, with whether Control was held.
#[derive(Debug, Clone, Copy, PartialEq, Eq, Structural)]
pub struct KeyPress {
    pub key: Key,
    pub ctrl: bool,
}

/// What the caller has to do after a key: leave, run the removal, or hand
/// a preview request to the worker.
pub struct Outcome {
    pub quit: bool,
    pub apply: bool,
    pub request: Option<Request>,
}

/// An outcome that asks for nothing.
pub open spec fn quiet(out: Outcome) -> bool {
    !out.quit && !out.apply && out.request is None
}

/// How far a key moves a cursor: arrows and `j`/`k` by one, the page keys
/// by ten; 0 for every other key.
pub open spec fn step_of(k: Key) -> int {
    if k == Key::Up || k == Key::Char('k') {
        -1
    } else if k == Key::Down || k == Key::Char('j') {
        1
    } else if k == Key::PageUp {
        -10
    } else if k == Key::PageDown {
        10
    } else {
        0
    }
}

/// Whether `k` goes to the top.
pub open spec fn is_home(k: Key) -> bool {
    k == Key::Home || k == Key::Char('g')
}

/// Whether `k` goes to the bottom.
pub open spec fn is_end(k: Key) -> bool {
    k == Key::End || k == Key::Char('G')
}

/// The help screen closes on any key.
pub open spec fn help_key(before: App, after: App, out: Outcome) -> bool {
    quiet(out) && after == (App { mode: Mode::Normal, ..before })
}

/// Typing into the search prompt: Esc or Enter closes it, Backspace drops
/// the last character, any other character without Control is appended;
/// the list cursor goes to the top whenever the text changes.
pub open spec fn filter_key(before: App, k: KeyPress, after: App, out: Outcome) -> bool {
    &&& quiet(out)
    &&& if k.key == Key::Esc || k.key == Key::Enter {
        after == (App { mode: Mode::Normal, ..before })
    } else if k.key == Key::Backspace {
        &&& after == (App { filter: after.filter, cursor: 0, ..before })
        &&& after.filter@ == (if before.filter@.len() > 0 {
            before.filter@.drop_last()
        } else {
            before.filter@
        })
    } else if k.key is Char && !k.ctrl {
        &&& after == (App { filter: after.filter, cursor: 0, ..before })
        &&& after.filter@ == before.filter@.push(k.key->0)
    } else {
        after == before
    }
}

/// The removal prompt: `y`, `Y` or Enter runs it, Esc, `n`, `N` or `q`
/// cancels it; other keys are ignored.
pub open spec fn confirm_key(before: App, k: KeyPress, after: App, out: Outcome) -> bool {
    if k.key == Key::Char('y') || k.key == Key::Char('Y') || k.key == Key::Enter {
        &&& out.apply && !out.quit && out.request is None
        &&& after == (App { mode: Mode::Normal, ..before })
    } else if k.key == Key::Esc || k.key == Key::Char('n') || k.key == Key::Char('N') || k.key
        == Key::Char('q') {
        &&& quiet(out)
        &&& after == (App { mode: Mode::Normal, status: after.status, ..before })
        &&& after.status@ == "apply cancelled"@
    } else {
        quiet(out) && after == before
    }
}

/// The command keys of the normal mode, on `s0`, the state with the stale
/// status message cleared.
pub open spec fn command_key(s0: App, k: Key, after: App, out: Outcome) -> bool {
    if k == Key::Char('q') {
        out.quit && !out.apply && out.request is None && after == s0
    } else if k == Key::Char('?') {
        quiet(out) && after == (App { mode: Mode::Help, ..s0 })
    } else if k == Key::Tab {
        quiet(out) && after == (App {
            focus: if s0.focus == Focus::List {
                Focus::Preview
            } else {
                Focus::List
            },
            ..s0
        })
    } else if k == Key::Char('/') || k == Key::Char(':') {
        quiet(out) && after == (App { mode: Mode::Filter, ..s0 })
    } else if k == Key::Char('s') {
        quiet(out) && after == clamped_cursor(App { sort: toggled(s0.sort), ..s0 })
    } else if k == Key::Char('o') {
        quiet(out) && after == clamped_cursor(App { source: next_source(s0.source), ..s0 })
    } else if k == Key::Char('e') {
        quiet(out) && after == clamped_cursor(App { reason: next_reason(s0.reason), ..s0 })
    } else if k == Key::Esc {
        &&& quiet(out)
        &&& if s0.filter@.len() > 0 {
            after == (App { filter: after.filter, cursor: 0, ..s0 }) && after.filter@.len() == 0
        } else {
            after == s0
        }
    } else if k == Key::Char('c') {
        &&& !out.quit && !out.apply
        &&& recomputed(App { cascade: !s0.cascade, status: after.status, ..s0 }, after, out.request)
        &&& after.status@ == (if after.cascade {
            "mode: -Rnsc (cascade)"@
        } else {
            "mode: -Rns"@
        })
    } else if k == Key::Char('a') {
        &&& quiet(out)
        &&& if s0.targets_spec().len() == 0 {
            &&& after == (App { status: after.status, ..s0 })
            &&& after.status@ == "nothing checked — nothing to apply"@
        } else {
            after == (App { mode: Mode::Confirm, ..s0 })
        }
    } else if (k == Key::Char(' ') || k == Key::Char('x') || k == Key::Enter) && s0.focus
        == Focus::List {
        &&& !out.quit && !out.apply
        &&& s0.cursor >= s0.visible_spec().len() ==> out.request is None && after == s0
        &&& s0.cursor < s0.visible_spec().len() ==> {
            let name = s0.pkgs@[s0.visible_spec()[s0.cursor as int] as int].name@;
            &&& string_views(after.checked@).to_set() == flipped(
                string_views(s0.checked@).to_set(),
                name,
            )
            &&& recomputed(App { checked: after.checked, ..s0 }, after, out.request)
        }
    } else {
        quiet(out) && after == s0
    }
}

/// The movement keys of the normal mode: they move the cursor of the
/// focused pane.
pub open spec fn move_key(s0: App, k: Key, after: App) -> bool {
    if s0.focus == Focus::Preview {
        if is_home(k) {
            after == moved_preview_cursor(s0, isize::MIN as int)
        } else if is_end(k) {
            after == moved_preview_cursor(s0, isize::MAX as int)
        } else if step_of(k) != 0 {
            after == moved_preview_cursor(s0, step_of(k))
        } else {
            after == s0
        }
    } else {
        if is_home(k) {
            after == (App { cursor: 0, ..s0 })
        } else if is_end(k) {
            after == (App {
                cursor: (if s0.visible_spec().len() == 0 {
                    0
                } else {
                    s0.visible_spec().len() - 1
                }) as usize,
                ..s0
            })
        } else if step_of(k) != 0 {
            after == moved_cursor(s0, step_of(k))
        } else {
            after == s0
        }
    }
}

/// Whether `k` is one of the movement keys.
pub open spec fn is_move(k: Key) -> bool {
    is_home(k) || is_end(k) || step_of(k) != 0
}

/// What a key does in the normal mode: the stale status message goes, then
/// the key acts as a command or moves a cursor.
pub open spec fn normal_key(before: App, k: KeyPress, after: App, out: Outcome) -> bool {
    let s0 = App { status: after.status, ..before };
    if is_move(k.key) {
        quiet(out) && after.status@.len() == 0 && move_key(s0, k.key, after)
    } else {
        &&& command_key(s0, k.key, after, out)
        &&& !(k.key == Key::Char('c') || (k.key == Key::Char('a') && s0.targets_spec().len()
            == 0)) ==> after.status@.len() == 0
    }
}

/// What a key press does to the browser, in each mode.
pub open spec fn key_handled(before: App, k: KeyPress, after: App, out: Outcome) -> bool {
    match before.mode {
        Mode::Help => help_key(before, after, out),
        Mode::Filter => filter_key(before, k, after, out),
        Mode::Confirm => confirm_key(before, k, after, out),
        Mode::Normal => normal_key(before, k, after, out),
    }
}

impl App {
    /// Handles one key press: the decisions of the browser's event loop.
    /// The caller runs the removal, leaves, or passes the preview request
    /// on, as the outcome says.
    pub fn handle_key(&mut self, k: KeyPress) -> (out: Outcome)
        requires
            old(self).wf(),
            old(self).requested < u64::MAX,
            old(self).mode == Mode::Normal && old(self).focus == Focus::List ==> isize::MIN <= (
            old(self).cursor as isize) + step_of(k.key) <= isize::MAX,
        ensures
            final(self).wf(),
            key_handled(*old(self), k, *final(self), out),
    {
        match self.mode {
            Mode::Help => {
                self.mode = Mode::Normal;
                Outcome { quit: false, apply: false, request: None }
            },
            Mode::Filter => {
                self.filter_key(k);
                Outcome { quit: false, apply: false, request: None }
            },
            Mode::Confirm => self.confirm_key(k),
            Mode::Normal => {
                self.status = String::new();
                if is_move_key(k.key) {
                    self.move_key(k.key);
                    Outcome { quit: false, apply: false, request: None }
                } else {
                    self.command_key(k.key)
                }
            },
        }
    }

    fn filter_key(&mut self, k: KeyPress)
        requires
            old(self).wf(),
        ensures
            final(self).wf(),
            filter_key(
                *old(self),
                k,
                *final(self),
                Outcome { quit: false, apply: false, request: None },
            ),
    {
        if k.key == Key::Esc || k.key == Key::Enter {
            self.mode = Mode::Normal;
        } else if k.key == Key::Backspace {
            let cs = chars_of(self.filter.as_str());
            if cs.len() > 0 {
                let kept = slice_chars(&cs, 0, cs.len() - 1);
                self.filter = string_of(&kept);
            }
            self.cursor = 0;
        } else {
            match k.key {
                Key::Char(c) => {
                    if !k.ctrl {
                        string_push(&mut self.filter, c);
                        self.cursor = 0;
                    }
                },
                _ => {},
            }
        }
    }

    fn confirm_key(&mut self, k: KeyPress) -> (out: Outcome)
        requires
            old(self).wf(),
        ensures
            final(self).wf(),
            confirm_key(*old(self), k, *final(self), out),
    {
        if k.key == Key::Char('y') || k.key == Key::Char('Y') || k.key == Key::Enter {
            self.mode = Mode::Normal;
            Outcome { quit: false, apply: true, request: None }
        } else if k.key == Key::Esc || k.key == Key::Char('n') || k.key == Key::Char('N') || k.key
            == Key::Char('q') {
            self.mode = Mode::Normal;
            self.status = String::from_str("apply cancelled");
            Outcome { quit: false, apply: false, request: None }
        } else {
            Outcome { quit: false, apply: false, request: None }
        }
    }

    fn move_key(&mut self, k: Key)
        requires
            old(self).focus == Focus::List ==> isize::MIN <= (old(self).cursor as isize) + step_of(
                k,
            ) <= isize::MAX,
        ensures
            move_key(*old(self), k, *final(self)),
    {
        let step = step_size(k);
        if self.focus == Focus::Preview {
            if k == Key::Home || k == Key::Char('g') {
                self.move_preview_cursor(isize::MIN);
            } else if k == Key::End || k == Key::Char('G') {
                self.move_preview_cursor(isize::MAX);
            } else if step != 0 {
                self.move_preview_cursor(step);
            }
        } else {
            if k == Key::Home || k == Key::Char('g') {
                self.cursor = 0;
            } else if k == Key::End || k == Key::Char('G') {
                let n = self.visible().len();
                self.cursor = if n == 0 {
                    0
                } else {
                    n - 1
                };
            } else if step != 0 {
                self.move_cursor(step);
            }
        }
    }

    fn command_key(&mut self, k: Key) -> (out: Outcome)
        requires
            old(self).wf(),
            old(self).requested < u64::MAX,
            old(self).status@.len() == 0,
        ensures
            final(self).wf(),
            command_key(App { status: final(self).status, ..*old(self) }, k, *final(self), out),
            !(k == Key::Char('c') || (k == Key::Char('a') && old(self).targets_spec().len() == 0))
                ==> final(self).status == old(self).status,
    {
        let none = Outcome { quit: false, apply: false, request: None };
        if k == Key::Char('q') {
            Outcome { quit: true, apply: false, request: None }
        } else if k == Key::Char('?') {
            self.mode = Mode::Help;
            none
        } else if k == Key::Tab {
            self.focus = if self.focus == Focus::List {
                Focus::Preview
            } else {
                Focus::List
            };
            none
        } else if k == Key::Char('/') || k == Key::Char(':') {
            self.mode = Mode::Filter;
            none
        } else if k == Key::Char('s') {
            self.sort.toggle();
            self.clamp_cursor();
            none
        } else if k == Key::Char('o') {
            self.source.cycle();
            self.clamp_cursor();
            none
        } else if k == Key::Char('e') {
            self.reason.cycle();
            self.clamp_cursor();
            none
        } else if k == Key::Esc {
            if !self.filter.as_str().is_empty() {
                self.filter = String::new();
                self.cursor = 0;
            }
            none
        } else if k == Key::Char('c') {
            self.cascade = !self.cascade;
            let request = self.recompute();
            self.status = if self.cascade {
                String::from_str("mode: -Rnsc (cascade)")
            } else {
                String::from_str("mode: -Rns")
            };
            Outcome { quit: false, apply: false, request }
        } else if k == Key::Char('a') {
            if self.apply_targets().len() == 0 {
                self.status = String::from_str("nothing checked — nothing to apply");
            } else {
                self.mode = Mode::Confirm;
            }
            none
        } else if (k == Key::Char(' ') || k == Key::Char('x') || k == Key::Enter) && self.focus
            == Focus::List {
            let request = self.toggle_cursor();
            Outcome { quit: false, apply: false, request }
        } else {
            none
        }
    }
}

/// How far a key moves a cursor (0 for the keys that do not move one).
pub fn step_size(k: Key) -> (r: isize)
    ensures
        r == step_of(k),
{
    if k == Key::Up || k == Key::Char('k') {
        -1
    } else if k == Key::Down || k == Key::Char('j') {
        1
    } else if k == Key::PageUp {
        -10
    } else if k == Key::PageDown {
        10
    } else {
        0
    }
}

/// Whether `k` is one of the movement keys.
fn is_move_key(k: Key) -> (r: bool)
    ensures
        r == is_move(k),
{
    k == Key::Home || k == Key::Char('g') || k == Key::End || k == Key::Char('G') || step_size(k)
        != 0
}

/// Only `q` in the normal mode leaves.
pub proof fn law_only_q_quits(before: App, k: KeyPress, after: App, out: Outcome)
    requires
        key_handled(before, k, after, out),
        out.quit,
    ensures
        before.mode == Mode::Normal,
        k.key == Key::Char('q'),
        after.checked == before.checked,
{
}

/// The removal only runs when confirmed at the removal prompt, and never
/// together with leaving.
pub proof fn law_apply_needs_confirm(before: App, k: KeyPress, after: App, out: Outcome)
    requires
        key_handled(before, k, after, out),
        out.apply,
    ensures
        before.mode == Mode::Confirm,
        k.key == Key::Char('y') || k.key == Key::Char('Y') || k.key == Key::Enter,
        after.mode == Mode::Normal,
        !out.quit,
        after.checked == before.checked,
{
}

/// A preview request is only made when the checked set or the cascade
/// mode changes hands to pacman: by toggling a package or cascade in the
/// normal mode.
pub proof fn law_requests_only_from_toggles(before: App, k: KeyPress, after: App, out: Outcome)
    requires
        key_handled(before, k, after, out),
        out.request is Some,
    ensures
        before.mode == Mode::Normal,
        k.key == Key::Char('c') || k.key == Key::Char(' ') || k.key == Key::Char('x') || k.key
            == Key::Enter,
{
}

/// In the normal mode the command keys do what the key table says: `s`
/// switches between name and size order, `o` steps the source filter
/// (all → repo → AUR → all), `e` steps the reason filter (all → explicit →
/// dep → all), each leaving the other two as they are; `c` flips cascade,
/// Tab switches the pane, `?` opens help, `/` and `:` open the search;
/// none of them changes what is checked or leaves.
pub proof fn law_normal_command_keys(before: App, k: KeyPress, after: App, out: Outcome)
    requires
        key_handled(before, k, after, out),
        before.mode == Mode::Normal,
    ensures
        k.key == Key::Char('s') ==> after.source == before.source && after.reason == before.reason
            && (before.sort == SortMode::Name ==> after.sort == SortMode::Size) && (before.sort
            == SortMode::Size ==> after.sort == SortMode::Name),
        k.key == Key::Char('o') ==> after.sort == before.sort && after.reason == before.reason && (
        before.source == SourceFilter::All ==> after.source == SourceFilter::Repo) && (
        before.source == SourceFilter::Repo ==> after.source == SourceFilter::Aur) && (
        before.source == SourceFilter::Aur ==> after.source == SourceFilter::All),
        k.key == Key::Char('e') ==> after.sort == before.sort && after.source == before.source && (
        before.reason == ReasonFilter::All ==> after.reason == ReasonFilter::Explicit) && (
        before.reason == ReasonFilter::Explicit ==> after.reason == ReasonFilter::Dep) && (
        before.reason == ReasonFilter::Dep ==> after.reason == ReasonFilter::All),
        k.key == Key::Char('c') ==> after.cascade == !before.cascade,
        k.key == Key::Tab ==> after.focus != before.focus,
        k.key == Key::Char('?') ==> after.mode == Mode::Help,
        k.key == Key::Char('/') || k.key == Key::Char(':') ==> after.mode == Mode::Filter,
        k.key == Key::Char('s') || k.key == Key::Char('o') || k.key == Key::Char('e') || k.key
            == Key::Char('c') || k.key == Key::Tab || k.key == Key::Char('?') || k.key == Key::Char(
            '/',
        ) || k.key == Key::Char(':') ==> after.checked == before.checked && !out.quit
            && !out.apply && after.filter == before.filter,
{
}

/// Typing into the search: a character (without Control) is appended and
/// the list goes back to its top; Backspace drops the last character;
/// Esc and Enter close the prompt and keep the text; nothing is checked,
/// applied or left.
pub proof fn law_search_typing(before: App, k: KeyPress, after: App, out: Outcome)
    requires
        key_handled(before, k, after, out),
        before.mode == Mode::Filter,
    ensures
        !out.quit && !out.apply && out.request is None,
        after.checked == before.checked,
        k.key is Char && !k.ctrl ==> after.filter@ == before.filter@.push(k.key->0)
            && after.cursor == 0 && after.mode == Mode::Filter,
        k.key == Key::Backspace ==> after.filter@ == before.filter@.take(
            before.filter@.len() - 1,
        ) || (before.filter@.len() == 0 && after.filter@.len() == 0),
        k.key == Key::Esc || k.key == Key::Enter ==> after.mode == Mode::Normal && after.filter
            == before.filter,
{
    if k.key == Key::Backspace && before.filter@.len() > 0 {
        assert(before.filter@.drop_last() =~= before.filter@.take(before.filter@.len() - 1));
    }
}

/// At the removal prompt `y`, `Y` and Enter run the removal, Esc, `n`, `N`
/// and `q` cancel it (saying so), and every other key is ignored.
pub proof fn law_confirm_prompt(before: App, k: KeyPress, after: App, out: Outcome)
    requires
        key_handled(before, k, after, out),
        before.mode == Mode::Confirm,
    ensures
        !out.quit && out.request is None,
        after.checked == before.checked,
        k.key == Key::Char('y') || k.key == Key::Char('Y') || k.key == Key::Enter ==> out.apply
            && after.mode == Mode::Normal,
        k.key == Key::Esc || k.key == Key::Char('n') || k.key == Key::Char('N') || k.key
            == Key::Char('q') ==> !out.apply && after.mode == Mode::Normal && after.status@
            == "apply cancelled"@,
        !(k.key == Key::Char('y') || k.key == Key::Char('Y') || k.key == Key::Enter || k.key
            == Key::Esc || k.key == Key::Char('n') || k.key == Key::Char('N') || k.key
            == Key::Char('q')) ==> !out.apply && after == before,
{
}

/// Moving in the list (normal mode, list focused): up and `k` go one row
/// up, down and `j` one row down, the page keys ten rows, never past the
/// ends; Home and `g` go to the first row, End and `G` to the last.
pub proof fn law_list_movement(before: App, k: KeyPress, after: App, out: Outcome)
    requires
        key_handled(before, k, after, out),
        before.mode == Mode::Normal,
        before.focus == Focus::List,
        before.cursor < before.visible_spec().len() <= isize::MAX,
    ensures
        k.key == Key::Down || k.key == Key::Char('j') ==> after.cursor == (if before.cursor + 1
            < before.visible_spec().len() {
            before.cursor + 1
        } else {
            before.cursor as int
        }),
        k.key == Key::Up || k.key == Key::Char('k') ==> after.cursor == (if before.cursor > 0 {
            before.cursor - 1
        } else {
            0
        }),
        k.key == Key::PageDown ==> after.cursor == (if before.cursor + 10
            < before.visible_spec().len() {
            before.cursor + 10
        } else {
            before.visible_spec().len() - 1
        }),
        k.key == Key::PageUp ==> after.cursor == (if before.cursor >= 10 {
            before.cursor - 10
        } else {
            0
        }),
        k.key == Key::Home || k.key == Key::Char('g') ==> after.cursor == 0,
        k.key == Key::End || k.key == Key::Char('G') ==> after.cursor
            == before.visible_spec().len() - 1,
        is_move(k.key) ==> after.checked == before.checked && after.filter == before.filter
            && after.sort == before.sort,
{
    let s0 = App { status: after.status, ..before };
    assert(s0.visible_spec() == before.visible_spec());
    assert((before.cursor as isize) as int == before.cursor as int);
}

} // verus!
