use vstd::prelude::*;
use crate::app::{removal_size, summary_spec, App, Focus, Mode};
use crate::db::{depends_on_test, pkg_names, required_by, Pkg};
use crate::numbers::{decimal, decimal_chars, decimal_string, human_size, human_size_spec};
use crate::order::{sort_seq, str_views};
use crate::privilege::display_spec;
use crate::resolve::{opt_string_view, string_pair_views};
use crate::text::{join, join_strings, string_of, string_views};
use crate::ui::{fit, fit_spec, join_fit, join_fit_spec, min_int, sat_sub};

verus! {

/// What a line of the preview pane is, which decides its style.
#[derive(Debug, Clone, Copy, PartialEq, Eq, Structural)]
pub enum LineKind {
    /// The hint shown while nothing is checked.
    Hint,
    /// A checked package that goes.
    Selected,
    /// A package that pacman pulls in.
    Pulled,
    Blank,
    /// The heading over the blocking dependents.
    Blocked,
    /// A dependent that blocks the removal without cascade.
    Breakage,
    /// How many more blocking dependents were left out.
    More,
    /// The warning that a HoldPkg is among the targets.
    HoldPkg,
    /// pacman's own error text.
    Error,
    /// The checked names that are not installed.
    Missing,
}

/// One line of the preview pane: its text, a second part styled apart,
/// and whether the preview cursor is on it.
pub struct PreviewLine {
    pub kind: LineKind,
    pub text: String,
    pub note: String,
    pub highlighted: bool,
}

/// The preview pane: title and lines.
pub struct PreviewView {
    pub title: String,
    pub lines: Vec<PreviewLine>,
}

/// A preview line as plain values.
pub struct LineModel {
    pub kind: LineKind,
    pub text: Seq<char>,
    pub note: Seq<char>,
    pub highlighted: bool,
}

/// The plain values of a preview line.
pub open spec fn line_model(l: PreviewLine) -> LineModel {
    LineModel { kind: l.kind, text: l.text@, note: l.note@, highlighted: l.highlighted }
}

/// The plain values of preview lines.
pub open spec fn line_models(ls: Seq<PreviewLine>) -> Seq<LineModel> {
    ls.map_values(|l: PreviewLine| line_model(l))
}

/// A line with text only, not highlighted.
pub open spec fn plain(kind: LineKind, text: Seq<char>) -> LineModel {
    LineModel { kind, text, note: seq![], highlighted: false }
}

/// The lines of removal entries `names`, marked with `mark`, the first being
/// entry `first`; the entry `cursor` is highlighted.
pub open spec fn entry_models(
    names: Seq<Seq<char>>,
    kind: LineKind,
    mark: Seq<char>,
    first: int,
    cursor: Option<int>,
) -> Seq<LineModel> {
    Seq::new(
        names.len(),
        |k: int|
            LineModel {
                kind,
                text: mark + names[k],
                note: seq![],
                highlighted: cursor == Some(first + k),
            },
    )
}

/// The most blocking dependents listed.
pub open spec fn shown_breakages() -> int {
    50
}

/// The line of one blocking dependent.
pub open spec fn breakage_model(b: (Seq<char>, Seq<char>)) -> LineModel {
    LineModel { kind: LineKind::Breakage, text: "! "@ + b.0, note: " needs "@ + b.1, highlighted: false }
}

/// The blocking dependents: a heading, the first fifty, and how many more.
pub open spec fn breakage_models(brk: Seq<(Seq<char>, Seq<char>)>) -> Seq<LineModel> {
    if brk.len() == 0 {
        seq![]
    } else {
        seq![plain(LineKind::Blank, seq![]), plain(LineKind::Blocked, "BLOCKED without -c (required by):"@)]
            + Seq::new(
            min_int(brk.len() as int, shown_breakages()) as nat,
            |k: int| breakage_model(brk[k]),
        ) + (if brk.len() > shown_breakages() {
            seq![plain(LineKind::More, "… and "@ + decimal((brk.len() - shown_breakages()) as nat) + " more"@)]
        } else {
            seq![]
        })
    }
}

/// The hint line shown while nothing is checked.
pub open spec fn hint_models(a: App) -> Seq<LineModel> {
    if a.checked@.len() == 0 {
        seq![plain(LineKind::Hint, "check packages with <space> — preview appears here"@)]
    } else {
        seq![]
    }
}

/// The HoldPkg warning, the error text and the names not installed, each
/// after a blank line, when there are any.
pub open spec fn notice_models(a: App) -> Seq<LineModel> {
    (if a.preview.hold_pkg {
        seq![
            plain(LineKind::Blank, seq![]),
            plain(
                LineKind::HoldPkg,
                "HoldPkg in target list — pacman refuses --print; toggle cascade off or uncheck it."@,
            ),
        ]
    } else {
        seq![]
    }) + (match a.preview.error {
        Some(e) => seq![plain(LineKind::Blank, seq![]), plain(LineKind::Error, e@)],
        None => seq![],
    }) + (if a.preview.missing@.len() > 0 {
        seq![
            plain(LineKind::Blank, seq![]),
            plain(
                LineKind::Missing,
                "not installed: "@ + join(string_views(a.preview.missing@), ", "@),
            ),
        ]
    } else {
        seq![]
    })
}

/// The preview cursor, when the preview pane has focus.
pub open spec fn focused_cursor(a: App) -> Option<int> {
    if a.focus == Focus::Preview {
        Some(a.preview_cursor as int)
    } else {
        None
    }
}

/// The lines of the preview pane: the checked packages that go, then those
/// pulled in, then what blocks the removal and pacman's complaints.
pub open spec fn preview_lines_spec(a: App) -> Seq<LineModel> {
    let sel = sort_seq(a.preview.spec_selected(a.checked@));
    let pul = sort_seq(a.preview.spec_pulled(a.checked@));
    hint_models(a) + entry_models(sel, LineKind::Selected, "+ "@, 0, focused_cursor(a))
        + entry_models(pul, LineKind::Pulled, "↳ "@, sel.len() as int, focused_cursor(a))
        + breakage_models(string_pair_views(a.preview.breakages@)) + notice_models(a)
}

/// The title of the preview pane: the mode, whether a result is pending,
/// the cursor position when focused, the total size and count.
pub open spec fn preview_title_spec(a: App) -> Seq<char> {
    let n = a.entries_spec().len();
    " Would remove "@ + (if a.cascade {
        "-Rnsc"@
    } else {
        "-Rns"@
    }) + (if a.preview_pending {
        " …"@
    } else {
        seq![]
    }) + (if a.focus == Focus::Preview && n > 0 {
        " ["@ + decimal((a.preview_cursor + 1) as nat) + "/"@ + decimal(n) + "]"@
    } else {
        seq![]
    }) + " ("@ + human_size_spec(
        removal_size(string_views(a.preview.removed@), a.idx@, a.pkgs@) as nat,
    ) + ": "@ + decimal(a.preview.removed@.len()) + " pkgs) "@
}

/// The scroll offset that keeps line `line` (the cursor's, if any) in a
/// pane of `height` rows, and never scrolls past the last of `n_lines`.
pub open spec fn follow_scroll(scroll: int, line: Option<int>, height: int, n_lines: int) -> int {
    let s = if height == 0 {
        0
    } else {
        match line {
            Some(l) => if l < scroll {
                l
            } else if l >= scroll + height {
                l + 1 - height
            } else {
                scroll
            },
            None => scroll,
        }
    };
    min_int(s, sat_sub(n_lines, height))
}

/// The line of the preview pane that holds the preview cursor, if any.
pub open spec fn cursor_line(a: App) -> Option<int> {
    if a.preview_cursor < a.entries_spec().len() {
        Some(hint_models(a).len() + a.preview_cursor)
    } else {
        None
    }
}

fn push_line(lines: &mut Vec<PreviewLine>, kind: LineKind, text: String, note: String, highlighted: bool)
    ensures
        line_models(final(lines)@) == line_models(old(lines)@).push(
            LineModel { kind, text: text@, note: note@, highlighted },
        ),
{
    let ghost before = lines@;
    lines.push(PreviewLine { kind, text, note, highlighted });
    assert(line_models(lines@) =~= line_models(before).push(
        LineModel { kind, text: text@, note: note@, highlighted },
    ));
}

fn push_plain(lines: &mut Vec<PreviewLine>, kind: LineKind, text: &str)
    ensures
        line_models(final(lines)@) == line_models(old(lines)@).push(plain(kind, text@)),
{
    push_line(lines, kind, String::from_str(text), String::new(), false);
}

fn push_blank(lines: &mut Vec<PreviewLine>)
    ensures
        line_models(final(lines)@) == line_models(old(lines)@).push(plain(LineKind::Blank, seq![])),
{
    push_line(lines, LineKind::Blank, String::new(), String::new(), false);
}

fn push_entries(
    lines: &mut Vec<PreviewLine>,
    names: &Vec<&str>,
    kind: LineKind,
    mark: &str,
    first: usize,
    cursor: Option<usize>,
)
    ensures
        line_models(final(lines)@) == line_models(old(lines)@) + entry_models(
            str_views(names@),
            kind,
            mark@,
            first as int,
            match cursor {
                Some(c) => Some(c as int),
                None => None,
            },
        ),
{
    let ghost base = line_models(lines@);
    let ghost cur = match cursor {
        Some(c) => Some(c as int),
        None => None,
    };
    let ghost all = entry_models(str_views(names@), kind, mark@, first as int, cur);
    let mut k: usize = 0;
    assert(all.take(0) =~= Seq::<LineModel>::empty());
    assert(base + all.take(0) =~= base);
    while k < names.len()
        invariant
            k <= names.len(),
            all == entry_models(str_views(names@), kind, mark@, first as int, cur),
            cur == match cursor {
                Some(c) => Some(c as int),
                None => None,
            },
            line_models(lines@) == base + all.take(k as int),
        decreases names.len() - k,
    {
        let mut text = String::from_str(mark);
        text.append(names[k]);
        let hl = match cursor {
            Some(c) => first as u128 + k as u128 == c as u128,
            None => false,
        };
        push_line(lines, kind, text, String::new(), hl);
        proof {
            assert(all[k as int] == LineModel { kind, text: text@, note: seq![], highlighted: hl });
            assert(all.take(k + 1) =~= all.take(k as int).push(all[k as int]));
            assert(base + all.take(k + 1) =~= (base + all.take(k as int)).push(all[k as int]));
        }
        k += 1;
    }
    assert(all.take(names.len() as int) =~= all);
}

fn push_breakages(lines: &mut Vec<PreviewLine>, brk: &Vec<(String, String)>)
    ensures
        line_models(final(lines)@) == line_models(old(lines)@) + breakage_models(
            string_pair_views(brk@),
        ),
{
    let ghost base = line_models(lines@);
    let ghost bv = string_pair_views(brk@);
    if brk.len() == 0 {
        assert(base + breakage_models(bv) =~= base);
        return;
    }
    push_blank(lines);
    push_plain(lines, LineKind::Blocked, "BLOCKED without -c (required by):");
    let ghost head = line_models(lines@);
    let n = if brk.len() < 50 {
        brk.len()
    } else {
        50
    };
    let ghost listed = Seq::new(n as nat, |k: int| breakage_model(bv[k]));
    let mut k: usize = 0;
    assert(head + listed.take(0) =~= head);
    while k < n
        invariant
            k <= n <= brk@.len(),
            bv == string_pair_views(brk@),
            listed == Seq::new(n as nat, |k: int| breakage_model(bv[k])),
            line_models(lines@) == head + listed.take(k as int),
        decreases n - k,
    {
        let mut text = String::from_str("! ");
        text.append(brk[k].0.as_str());
        let mut note = String::from_str(" needs ");
        note.append(brk[k].1.as_str());
        push_line(lines, LineKind::Breakage, text, note, false);
        proof {
            assert(listed[k as int] == LineModel {
                kind: LineKind::Breakage,
                text: text@,
                note: note@,
                highlighted: false,
            });
            assert(head + listed.take(k + 1) =~= (head + listed.take(k as int)).push(
                listed[k as int],
            ));
        }
        k += 1;
    }
    assert(listed.take(n as int) =~= listed);
    if brk.len() > 50 {
        let mut more = String::from_str("… and ");
        more.append(decimal_string((brk.len() - 50) as u64).as_str());
        more.append(" more");
        push_line(lines, LineKind::More, more, String::new(), false);
    }
    proof {
        assert(line_models(lines@) =~= base + breakage_models(bv));
    }
}

impl App {
    fn preview_title(&self, n_entries: usize) -> (r: String)
        requires
            self.wf(),
            n_entries == self.entries_spec().len(),
            removal_size(string_views(self.preview.removed@), self.idx@, self.pkgs@) <= u64::MAX,
        ensures
            r@ == preview_title_spec(*self),
    {
        let mut t = String::from_str(" Would remove ");
        t.append(if self.cascade {
            "-Rnsc"
        } else {
            "-Rns"
        });
        if self.preview_pending {
            t.append(" …");
        }
        if self.focus == Focus::Preview && n_entries > 0 {
            t.append(" [");
            t.append(string_of(&decimal_chars(self.preview_cursor as u128 + 1)).as_str());
            t.append("/");
            t.append(decimal_string(n_entries as u64).as_str());
            t.append("]");
        }
        t.append(" (");
        t.append(human_size(self.total_removal_size()).as_str());
        t.append(": ");
        t.append(decimal_string(self.preview.removed.len() as u64).as_str());
        t.append(" pkgs) ");
        t
    }

    fn notices(&self, lines: &mut Vec<PreviewLine>)
        ensures
            line_models(final(lines)@) == line_models(old(lines)@) + notice_models(*self),
    {
        let ghost base = line_models(lines@);
        if self.preview.hold_pkg {
            push_blank(lines);
            push_plain(
                lines,
                LineKind::HoldPkg,
                "HoldPkg in target list — pacman refuses --print; toggle cascade off or uncheck it.",
            );
        }
        match &self.preview.error {
            Some(e) => {
                push_blank(lines);
                push_line(lines, LineKind::Error, e.clone(), String::new(), false);
            },
            None => {},
        }
        if self.preview.missing.len() > 0 {
            push_blank(lines);
            let mut text = String::from_str("not installed: ");
            text.append(join_strings(&self.preview.missing, ", ").as_str());
            push_line(lines, LineKind::Missing, text, String::new(), false);
        }
        proof {
            assert(line_models(lines@) =~= base + notice_models(*self));
        }
    }

    /// The preview pane for a pane of `height` rows. Its scroll offset
    /// follows the preview cursor: it only ever derives from the (clamped)
    /// cursor, so overscroll cannot bank up phantom presses.
    pub fn preview_view(&mut self, height: usize) -> (v: PreviewView)
        requires
            old(self).wf(),
            removal_size(string_views(old(self).preview.removed@), old(self).idx@, old(self).pkgs@)
                <= u64::MAX,
        ensures
            v.title@ == preview_title_spec(*old(self)),
            line_models(v.lines@) == preview_lines_spec(*old(self)),
            *final(self) == (App {
                preview_scroll: follow_scroll(
                    old(self).preview_scroll as int,
                    cursor_line(*old(self)),
                    height as int,
                    preview_lines_spec(*old(self)).len() as int,
                ) as usize,
                ..*old(self)
            }),
    {
        let entries = self.preview_entries();
        let n_entries = entries.len();
        let title = self.preview_title(n_entries);
        let sel = self.preview.selected(&self.checked);
        let pul = self.preview.pulled(&self.checked);
        let cursor = if self.focus == Focus::Preview {
            Some(self.preview_cursor)
        } else {
            None
        };
        let mut lines: Vec<PreviewLine> = Vec::new();
        let off: usize = if self.checked.len() == 0 {
            push_plain(&mut lines, LineKind::Hint, "check packages with <space> — preview appears here");
            1
        } else {
            0
        };
        assert(line_models(lines@) =~= hint_models(*self));
        push_entries(&mut lines, &sel, LineKind::Selected, "+ ", 0, cursor);
        push_entries(&mut lines, &pul, LineKind::Pulled, "↳ ", sel.len(), cursor);
        push_breakages(&mut lines, &self.preview.breakages);
        self.notices(&mut lines);
        let ghost lv = line_models(lines@);
        assert(lv =~= preview_lines_spec(*self));
        let mut scroll = self.preview_scroll;
        if height == 0 {
            scroll = 0;
        } else if self.preview_cursor < n_entries {
            let line = off + self.preview_cursor;
            if line < scroll {
                scroll = line;
            } else if line - scroll >= height {
                scroll = line - (height - 1);
            }
        }
        let nl = lines.len();
        let max_scroll = if nl >= height {
            nl - height
        } else {
            0
        };
        if scroll > max_scroll {
            scroll = max_scroll;
        }
        self.preview_scroll = scroll;
        PreviewView { title, lines }
    }
}

/// The calendar date, `YYYY-MM-DD` in UTC, that chrono prints for the unix
/// time `secs`; `None` where chrono finds `secs` out of its range.
pub uninterp spec fn utc_date(secs: i64) -> Option<Seq<char>>;

/// chrono's `DateTime::from_timestamp(secs, 0)` printed with
/// `format("%Y-%m-%d")`. Nothing is stated of the date it prints: the
/// result is named `utc_date(secs)`; `None` is what `from_timestamp` gives
/// out of range.
#[verifier::external_body]
fn format_date(secs: i64) -> (r: Option<String>)
    ensures
        opt_string_view(r) == utc_date(secs),
{
    match chrono::DateTime::from_timestamp(secs, 0) {
        Some(d) => Some(d.format("%Y-%m-%d").to_string()),
        None => None,
    }
}

/// A printed date, or `?` when there is none.
pub open spec fn date_text(d: Option<Seq<char>>) -> Seq<char> {
    match d {
        Some(t) => t,
        None => "?"@,
    }
}

/// The install date of `p` as the info pane prints it.
pub open spec fn install_date_text(p: Pkg) -> Seq<char> {
    match p.install_date {
        Some(t) => date_text(utc_date(t)),
        None => "?"@,
    }
}

/// ` · label: a,b` for a non-empty list, nothing for an empty one.
pub open spec fn listed(label: Seq<char>, items: Seq<Seq<char>>) -> Seq<char> {
    if items.len() > 0 {
        " · "@ + label + ": "@ + join(items, ","@)
    } else {
        seq![]
    }
}

/// The details line of the info pane, with the install date `date`.
pub open spec fn meta_spec(p: Pkg, date: Seq<char>) -> Seq<char> {
    "installed "@ + date + " · "@ + (if p.as_dep {
        "dep"@
    } else {
        "explicit"@
    }) + " · "@ + (if p.foreign {
        "AUR/foreign"@
    } else {
        "repo"@
    }) + listed("groups"@, string_views(p.groups@)) + listed("license"@, string_views(p.licenses@))
        + listed("provides"@, string_views(p.provides@)) + (if p.url@.len() > 0 {
        " · "@ + p.url@
    } else {
        seq![]
    })
}

fn append_listed(s: &mut String, label: &str, items: &Vec<String>)
    ensures
        final(s)@ == old(s)@ + listed(label@, string_views(items@)),
{
    if items.len() > 0 {
        s.append(" · ");
        s.append(label);
        s.append(": ");
        s.append(join_strings(items, ",").as_str());
    } else {
        assert(old(s)@ + listed(label@, string_views(items@)) =~= old(s)@);
    }
}

/// The details line of the info pane: install date (`?` when there is
/// none), reason, source, groups, licenses, provides and URL.
pub fn meta_line(p: &Pkg, date: Option<String>) -> (r: String)
    ensures
        r@ == meta_spec(*p, date_text(opt_string_view(date))),
{
    let mut m = String::from_str("installed ");
    match &date {
        Some(d) => m.append(d.as_str()),
        None => m.append("?"),
    }
    m.append(" · ");
    m.append(if p.as_dep {
        "dep"
    } else {
        "explicit"
    });
    m.append(" · ");
    m.append(if p.foreign {
        "AUR/foreign"
    } else {
        "repo"
    });
    append_listed(&mut m, "groups", &p.groups);
    append_listed(&mut m, "license", &p.licenses);
    append_listed(&mut m, "provides", &p.provides);
    if !p.url.as_str().is_empty() {
        m.append(" · ");
        m.append(p.url.as_str());
    }
    proof {
        if p.url@.len() == 0 {
            assert(m@ =~= meta_spec(*p, date_text(opt_string_view(date))));
        }
    }
    m
}

/// What the info pane shows of a package, line by line.
pub struct InfoView {
    pub name: String,
    /// ` version  size`.
    pub head: String,
    pub desc: String,
    pub meta: String,
    pub depends: String,
    pub optional: String,
    pub required_by: String,
}

/// `v` shows package `p` of `a` in a pane `w` characters wide.
pub open spec fn info_shows(a: App, p: Pkg, v: InfoView, w: int) -> bool {
    &&& v.name@ == p.name@
    &&& v.head@ == " "@ + p.version@ + "  "@ + human_size_spec(p.size as nat)
    &&& v.desc@ == fit_spec(p.desc@, w)
    &&& v.meta@ == fit_spec(meta_spec(p, install_date_text(p)), w)
    &&& v.depends@ == join_fit_spec("depends"@, string_views(p.depends@), w)
    &&& v.optional@ == join_fit_spec("optional"@, string_views(p.optdepends@), w)
    &&& v.required_by@ == join_fit_spec(
        "required by"@,
        sort_seq(pkg_names(a.pkgs@.filter(depends_on_test(p)))),
        w,
    )
}

/// Owned copies of borrowed names.
fn owned(v: &Vec<&str>) -> (r: Vec<String>)
    ensures
        string_views(r@) == str_views(v@),
{
    let mut r: Vec<String> = Vec::new();
    let mut i: usize = 0;
    while i < v.len()
        invariant
            i <= v.len(),
            string_views(r@) == str_views(v@).take(i as int),
        decreases v.len() - i,
    {
        let ghost before = string_views(r@);
        r.push(String::from_str(v[i]));
        assert(string_views(r@) =~= before.push(v@[i as int]@));
        assert(str_views(v@).take(i + 1) =~= str_views(v@).take(i as int).push(v@[i as int]@));
        i += 1;
    }
    assert(str_views(v@).take(v.len() as int) =~= str_views(v@));
    r
}

impl App {
    fn info_of(&self, p: &Pkg, w: usize) -> (v: InfoView)
        ensures
            info_shows(*self, *p, v, w as int),
    {
        let mut head = String::from_str(" ");
        head.append(p.version.as_str());
        head.append("  ");
        head.append(human_size(p.size).as_str());
        let date = match p.install_date {
            Some(t) => format_date(t),
            None => None,
        };
        let meta = meta_line(p, date);
        let req = owned(&required_by(self.pkgs.as_slice(), p));
        InfoView {
            name: p.name.clone(),
            head,
            desc: fit(p.desc.as_str(), w),
            meta: fit(meta.as_str(), w),
            depends: join_fit("depends", p.depends.as_slice(), w),
            optional: join_fit("optional", p.optdepends.as_slice(), w),
            required_by: join_fit("required by", req.as_slice(), w),
        }
    }

    /// The info pane, `w` characters wide, for the package under the cursor
    /// of the focused pane; `None` when there is none.
    pub fn info_view(&self, w: usize) -> (r: Option<InfoView>)
        requires
            self.wf(),
        ensures
            match self.hovered_spec() {
                Some(i) => r matches Some(v) && info_shows(*self, self.pkgs@[i as int], v, w as int),
                None => r is None,
            },
    {
        match self.hovered() {
            Some(p) => Some(self.info_of(p, w)),
            None => None,
        }
    }
}

/// The text of the bottom line: the search prompt while typing, else the
/// status message, else the summary.
pub open spec fn prompt_spec(a: App) -> Seq<char> {
    if a.mode == Mode::Filter {
        ":"@ + a.filter@ + "▌"@
    } else if a.status@.len() > 0 {
        a.status@
    } else {
        summary_spec(a)
    }
}

/// The removal prompt: the command, the explicit targets, the total.
pub struct ConfirmView {
    pub command: String,
    pub explicit: String,
    pub total: String,
}

/// The explicit targets as the removal prompt lists them: the first five,
/// and how many more.
pub open spec fn explicit_spec(targets: Seq<Seq<char>>) -> Seq<char> {
    "explicit: "@ + join(targets.take(min_int(targets.len() as int, 5)), " "@) + (if targets.len()
        > 5 {
        " (+"@ + decimal((targets.len() - 5) as nat) + " more)"@
    } else {
        seq![]
    })
}

/// The totals line of the removal prompt.
pub open spec fn total_spec(a: App) -> Seq<char> {
    "total removed: "@ + decimal(a.preview.removed@.len()) + " pkgs, "@ + human_size_spec(
        removal_size(string_views(a.preview.removed@), a.idx@, a.pkgs@) as nat,
    )
}

/// The status shown once the packages are loaded.
pub open spec fn loaded_spec(a: App) -> Seq<char> {
    "loaded "@ + decimal(a.pkgs@.len()) + " packages — privilege: "@ + display_spec(a.priv_)
}

/// The hint printed after a failed removal that dependents blocked.
pub open spec fn blocked_hint_spec(a: App, success: bool) -> Option<Seq<char>> {
    if !success && !a.cascade && a.preview.breakages@.len() > 0 {
        Some(
            "hint: "@ + decimal(a.preview.breakages@.len())
                + " dependents block -Rns; press 'c' for -Rnsc cascade mode."@,
        )
    } else {
        None
    }
}

impl App {
    /// The bottom line.
    pub fn prompt_text(&self) -> (r: String)
        requires
            self.wf(),
        ensures
            r@ == prompt_spec(*self),
    {
        if self.mode == Mode::Filter {
            let mut t = String::from_str(":");
            t.append(self.filter.as_str());
            t.append("▌");
            t
        } else if !self.status.as_str().is_empty() {
            self.status.clone()
        } else {
            self.state_summary()
        }
    }

    /// The removal prompt.
    pub fn confirm_view(&self) -> (r: ConfirmView)
        requires
            self.wf(),
            removal_size(string_views(self.preview.removed@), self.idx@, self.pkgs@) <= u64::MAX,
        ensures
            r.command@ == join(self.command_words(), " "@),
            r.explicit@ == explicit_spec(self.targets_spec()),
            r.total@ == total_spec(*self),
    {
        let targets = self.apply_targets();
        let ghost tv = string_views(targets@);
        let n = if targets.len() < 5 {
            targets.len()
        } else {
            5
        };
        let mut shown: Vec<String> = Vec::new();
        let mut i: usize = 0;
        while i < n
            invariant
                i <= n <= targets@.len(),
                tv == string_views(targets@),
                string_views(shown@) == tv.take(i as int),
            decreases n - i,
        {
            let ghost before = string_views(shown@);
            shown.push(targets[i].clone());
            assert(string_views(shown@) =~= before.push(tv[i as int]));
            assert(tv.take(i + 1) =~= tv.take(i as int).push(tv[i as int]));
            i += 1;
        }
        let mut explicit = String::from_str("explicit: ");
        explicit.append(join_strings(&shown, " ").as_str());
        if targets.len() > 5 {
            explicit.append(" (+");
            explicit.append(decimal_string((targets.len() - 5) as u64).as_str());
            explicit.append(" more)");
        }
        let mut total = String::from_str("total removed: ");
        total.append(decimal_string(self.preview.removed.len() as u64).as_str());
        total.append(" pkgs, ");
        total.append(human_size(self.total_removal_size()).as_str());
        ConfirmView { command: self.command_preview(), explicit, total }
    }

    /// The status shown once the packages are loaded.
    pub fn loaded_status(&self) -> (r: String)
        ensures
            r@ == loaded_spec(*self),
    {
        let mut t = String::from_str("loaded ");
        t.append(decimal_string(self.pkgs.len() as u64).as_str());
        t.append(" packages — privilege: ");
        t.append(self.priv_.display());
        t
    }

    /// The status shown once the packages are loaded again after a removal.
    pub fn reloaded_status(&self) -> (r: String)
        ensures
            r@ == "reloaded "@ + decimal(self.pkgs@.len()) + " packages"@,
    {
        let mut t = String::from_str("reloaded ");
        t.append(decimal_string(self.pkgs.len() as u64).as_str());
        t.append(" packages");
        t
    }

    /// After a removal that did not succeed without cascade while dependents
    /// blocked it: the hint to switch cascade on.
    pub fn blocked_hint(&self, success: bool) -> (r: Option<String>)
        ensures
            opt_string_view(r) == blocked_hint_spec(*self, success),
    {
        if !success && !self.cascade && self.preview.breakages.len() > 0 {
            let mut t = String::from_str("hint: ");
            t.append(decimal_string(self.preview.breakages.len() as u64).as_str());
            t.append(" dependents block -Rns; press 'c' for -Rnsc cascade mode.");
            Some(t)
        } else {
            None
        }
    }
}

/// The preview scroll always keeps the cursor's line in the pane, and
/// never scrolls past the last line.
pub proof fn law_scroll_keeps_cursor_visible(scroll: int, line: int, height: int, n_lines: int)
    requires
        0 <= scroll,
        0 <= line < n_lines,
        height > 0,
    ensures
        follow_scroll(scroll, Some(line), height, n_lines) <= line < follow_scroll(
            scroll,
            Some(line),
            height,
            n_lines,
        ) + height,
        0 <= follow_scroll(scroll, Some(line), height, n_lines) <= sat_sub(n_lines, height),
{
}

proof fn lemma_tail_kinds(a: App)
    ensures
        forall|k: int|
            0 <= k < breakage_models(string_pair_views(a.preview.breakages@)).len() ==> {
                let l = #[trigger] breakage_models(string_pair_views(a.preview.breakages@))[k];
                l.kind != LineKind::Selected && l.kind != LineKind::Pulled && !l.highlighted
            },
        forall|k: int|
            0 <= k < notice_models(a).len() ==> {
                let l = #[trigger] notice_models(a)[k];
                l.kind != LineKind::Selected && l.kind != LineKind::Pulled && !l.highlighted
            },
{
    let bv = string_pair_views(a.preview.breakages@);
    if bv.len() > 0 {
        let head = seq![plain(LineKind::Blank, seq![]), plain(LineKind::Blocked, "BLOCKED without -c (required by):"@)];
        let listed = Seq::new(
            min_int(bv.len() as int, shown_breakages()) as nat,
            |k: int| breakage_model(bv[k]),
        );
        let more = if bv.len() > shown_breakages() {
            seq![plain(LineKind::More, "… and "@ + decimal((bv.len() - shown_breakages()) as nat) + " more"@)]
        } else {
            seq![]
        };
        assert(breakage_models(bv) == head + listed + more);
        assert forall|k: int| 0 <= k < breakage_models(bv).len() implies {
            let l = #[trigger] breakage_models(bv)[k];
            l.kind != LineKind::Selected && l.kind != LineKind::Pulled && !l.highlighted
        } by {
            if k < 2 {
                assert(breakage_models(bv)[k] == head[k]);
            } else if k < 2 + listed.len() {
                assert(breakage_models(bv)[k] == listed[k - 2]);
            } else {
                assert(breakage_models(bv)[k] == more[k - 2 - listed.len()]);
            }
        }
    }
}

/// The removal entries of the preview pane: a `+ ` line names a checked
/// package that goes, a `↳ ` line an unchecked one that pacman pulls in;
/// every removed package has its line; only the line under the preview
/// cursor is highlighted, and only while the preview pane has focus.
pub proof fn law_preview_entries(a: App)
    ensures
        ({
            let ls = preview_lines_spec(a);
            let removed = string_views(a.preview.removed@);
            let off = if a.checked@.len() == 0 {
                1int
            } else {
                0
            };
            &&& forall|k: int|
                0 <= k < ls.len() && (#[trigger] ls[k]).kind == LineKind::Selected ==> exists|n: Seq<
                    char,
                >| ls[k].text == "+ "@ + n && string_views(a.checked@).contains(n) && removed.contains(n)
            &&& forall|k: int|
                0 <= k < ls.len() && (#[trigger] ls[k]).kind == LineKind::Pulled ==> exists|n: Seq<
                    char,
                >| ls[k].text == "↳ "@ + n && !string_views(a.checked@).contains(n) && removed.contains(n)
            &&& forall|n: Seq<char>|
                #[trigger] removed.contains(n) ==> exists|k: int|
                    0 <= k < ls.len() && (ls[k].text == "+ "@ + n || ls[k].text == "↳ "@ + n)
            &&& forall|k: int|
                0 <= k < ls.len() && (#[trigger] ls[k]).highlighted ==> a.focus == Focus::Preview
                    && k == off + a.preview_cursor
        }),
{
    broadcast use vstd::seq_lib::group_filter_ensures;
    broadcast use vstd::seq_lib::group_to_multiset_ensures;

    let ls = preview_lines_spec(a);
    let removed = string_views(a.preview.removed@);
    let checked = a.checked@;
    let sel0 = a.preview.spec_selected(checked);
    let pul0 = a.preview.spec_pulled(checked);
    let sel = sort_seq(sel0);
    let pul = sort_seq(pul0);
    crate::order::lemma_sort_seq_facts(sel0);
    crate::order::lemma_sort_seq_facts(pul0);
    crate::resolve::law_selected_and_pulled_split_removed(a.preview, checked);
    lemma_tail_kinds(a);
    let hint = hint_models(a);
    let e1 = entry_models(sel, LineKind::Selected, "+ "@, 0, focused_cursor(a));
    let e2 = entry_models(pul, LineKind::Pulled, "↳ "@, sel.len() as int, focused_cursor(a));
    let b = breakage_models(string_pair_views(a.preview.breakages@));
    let nm = notice_models(a);
    let off = hint.len() as int;
    assert(ls == hint + e1 + e2 + b + nm);
    assert forall|k: int| 0 <= k < ls.len() implies {
        &&& ((#[trigger] ls[k]).kind == LineKind::Selected ==> off <= k < off + sel.len() && ls[k] == e1[k - off])
        &&& (ls[k].kind == LineKind::Pulled ==> off + sel.len() <= k < off + sel.len() + pul.len() && ls[k] == e2[k - off - sel.len()])
        &&& (ls[k].highlighted ==> off <= k < off + sel.len() + pul.len() && a.focus == Focus::Preview && k == off + a.preview_cursor)
    } by {
        if k < off {
            assert(ls[k] == hint[k]);
        } else if k < off + sel.len() {
            assert(ls[k] == e1[k - off]);
        } else if k < off + sel.len() + pul.len() {
            assert(ls[k] == e2[k - off - sel.len()]);
        } else if k < off + sel.len() + pul.len() + b.len() {
            assert(ls[k] == b[k - off - sel.len() - pul.len()]);
        } else {
            assert(ls[k] == nm[k - off - sel.len() - pul.len() - b.len()]);
        }
    }
    assert forall|k: int|
        0 <= k < ls.len() && (#[trigger] ls[k]).kind == LineKind::Selected implies exists|n: Seq<char>|
        ls[k].text == "+ "@ + n && string_views(a.checked@).contains(n) && removed.contains(n) by {
        let n = sel[k - off];
        assert(sel.contains(n));
        assert(sel0.to_multiset().count(n) > 0);
        assert(sel0.contains(n));
        removed.lemma_filter_contains_rev(crate::resolve::keep(checked, true), n);
    }
    assert forall|k: int|
        0 <= k < ls.len() && (#[trigger] ls[k]).kind == LineKind::Pulled implies exists|n: Seq<char>|
        ls[k].text == "↳ "@ + n && !string_views(a.checked@).contains(n) && removed.contains(n) by {
        let n = pul[k - off - sel.len()];
        assert(pul.contains(n));
        assert(pul0.to_multiset().count(n) > 0);
        assert(pul0.contains(n));
        removed.lemma_filter_contains_rev(crate::resolve::keep(checked, false), n);
    }
    assert forall|n: Seq<char>| #[trigger] removed.contains(n) implies exists|k: int|
        0 <= k < ls.len() && (ls[k].text == "+ "@ + n || ls[k].text == "↳ "@ + n) by {
        let i = choose|i: int| 0 <= i < removed.len() && removed[i] == n;
        if string_views(checked).contains(n) {
            assert(crate::resolve::keep(checked, true)(removed[i]));
            removed.lemma_filter_contains(crate::resolve::keep(checked, true), i);
            assert(sel0.to_multiset().count(n) > 0);
            assert(sel.contains(n));
            let j = choose|j: int| 0 <= j < sel.len() && sel[j] == n;
            assert(ls[off + j] == e1[j]);
        } else {
            assert(crate::resolve::keep(checked, false)(removed[i]));
            removed.lemma_filter_contains(crate::resolve::keep(checked, false), i);
            assert(pul0.to_multiset().count(n) > 0);
            assert(pul.contains(n));
            let j = choose|j: int| 0 <= j < pul.len() && pul[j] == n;
            assert(ls[off + sel.len() + j] == e2[j]);
        }
    }
}

} // verus!
