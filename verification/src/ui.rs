use vstd::prelude::*;
use crate::app::{is_visible_list, reason_label, shows, sort_label, source_label, App, Focus};
use crate::db::Pkg;
use crate::numbers::{decimal, decimal_string, human_size, human_size_spec};
use crate::resolve::{contains_string, is_checked};
use crate::text::{chars_of, join, slice_chars, string_of, string_views};

verus! {

/// `s` cut to `w` characters, the cut marked with `…`.
pub open spec fn fit_spec(s: Seq<char>, w: int) -> Seq<char> {
    if s.len() <= w {
        s
    } else if w == 0 {
        seq![]
    } else {
        s.take(w - 1).push('…')
    }
}

/// Truncates to `w` chars, marking with `…` when cut.
pub fn fit(s: &str, w: usize) -> (r: String)
    ensures
        r@ == fit_spec(s@, w as int),
{
    let cs = chars_of(s);
    if cs.len() <= w {
        return string_of(&cs);
    }
    if w == 0 {
        return String::new();
    }
    let mut out = slice_chars(&cs, 0, w - 1);
    out.push('…');
    assert(out@ =~= s@.take(w - 1).push('…'));
    string_of(&out)
}

/// The greedy part of `join_fit`: items added to `s` while the text stays
/// within `w` characters; with how many were shown in total.
pub open spec fn fit_items(s: Seq<char>, items: Seq<Seq<char>>, shown: nat, w: int) -> (Seq<char>, nat)
    decreases items.len(),
{
    if items.len() == 0 {
        (s, shown)
    } else {
        let add = if shown == 0 {
            items[0]
        } else {
            ", "@ + items[0]
        };
        if s.len() + add.len() > w {
            (s, shown)
        } else {
            fit_items(s + add, items.drop_first(), shown + 1, w)
        }
    }
}

/// `label (n): a, b, c +k more`, as many items as fit in `w` characters,
/// or `label: none`.
pub open spec fn join_fit_spec(label: Seq<char>, items: Seq<Seq<char>>, w: int) -> Seq<char> {
    if items.len() == 0 {
        label + ": none"@
    } else {
        let head = label + " ("@ + decimal(items.len()) + "): "@;
        let (s, shown) = fit_items(head, items, 0, w);
        if shown < items.len() {
            s + " +"@ + decimal((items.len() - shown) as nat) + " more"@
        } else {
            s
        }
    }
}

proof fn lemma_fit_items_shown(s: Seq<char>, items: Seq<Seq<char>>, shown: nat, w: int)
    ensures
        shown <= fit_items(s, items, shown, w).1 <= shown + items.len(),
    decreases items.len(),
{
    if items.len() > 0 {
        let add = if shown == 0 {
            items[0]
        } else {
            ", "@ + items[0]
        };
        if s.len() + add.len() <= w {
            lemma_fit_items_shown(s + add, items.drop_first(), shown + 1, w);
        }
    }
}

/// `label (n): a, b, c +k more`, fitted to `w` chars (overflow clipped).
pub fn join_fit(label: &str, items: &[String], w: usize) -> (r: String)
    ensures
        r@ == join_fit_spec(label@, string_views(items@), w as int),
{
    let ghost iv = string_views(items@);
    if items.len() == 0 {
        let mut s = String::from_str(label);
        s.append(": none");
        return s;
    }
    let mut s = String::from_str(label);
    s.append(" (");
    s.append(decimal_string(items.len() as u64).as_str());
    s.append("): ");
    let mut len: usize = chars_of(s.as_str()).len();
    let mut shown: usize = 0;
    let mut i: usize = 0;
    let mut stopped = false;
    let ghost head = s@;
    proof {
        assert(iv.skip(0) =~= iv);
    }
    while i < items.len() && !stopped
        invariant
            i <= items.len(),
            iv == string_views(items@),
            shown == i,
            len == s@.len(),
            fit_items(head, iv, 0, w as int) == if stopped {
                (s@, shown as nat)
            } else {
                fit_items(s@, iv.skip(i as int), shown as nat, w as int)
            },
        decreases items.len() - i + (if stopped { 0int } else { 1int }),
    {
        let item = chars_of(items[i].as_str());
        let ghost rest = iv.skip(i as int);
        let ghost old_s = s@;
        let ghost add = if shown == 0 {
            item@
        } else {
            ", "@ + item@
        };
        proof {
            reveal_strlit(", ");
            assert(rest[0] == items@[i as int]@);
            assert(rest.drop_first() =~= iv.skip(i + 1));
            assert(item@ == items@[i as int]@);
        }
        let fits = if len > w {
            false
        } else if shown == 0 {
            item.len() <= w - len
        } else {
            item.len() <= w - len && 2 <= w - len - item.len()
        };
        if !fits {
            assert(old_s.len() + add.len() > w);
            stopped = true;
        } else {
            if shown > 0 {
                s.append(", ");
            }
            s.append(items[i].as_str());
            assert(s@ =~= old_s + add);
            len = len + item.len() + (if shown > 0 {
                2
            } else {
                0
            });
            shown += 1;
            i += 1;
        }
    }
    proof {
        if !stopped {
            assert(iv.skip(i as int) =~= Seq::<Seq<char>>::empty());
        }
        lemma_fit_items_shown(head, iv, 0, w as int);
    }
    if shown < items.len() {
        s.append(" +");
        s.append(decimal_string((items.len() - shown) as u64).as_str());
        s.append(" more");
    }
    s
}

/// The badge of a package: `E`xplicit or `D`ep, `+` when foreign.
pub open spec fn badge_spec(p: Pkg) -> Seq<char> {
    (if p.as_dep {
        seq!['D']
    } else {
        seq!['E']
    }) + (if p.foreign {
        seq!['+']
    } else {
        seq![]
    })
}

/// The badge of a package: `E`xplicit or `D`ep, `+` when foreign/AUR.
pub fn badge(pkg: &Pkg) -> (r: String)
    ensures
        r@ == badge_spec(*pkg),
{
    let mut b: Vec<char> = Vec::new();
    b.push(if pkg.as_dep {
        'D'
    } else {
        'E'
    });
    if pkg.foreign {
        b.push('+');
    }
    assert(b@ =~= badge_spec(*pkg));
    string_of(&b)
}

/// `a - b`, or 0 when `b` is larger.
pub open spec fn sat_sub(a: int, b: int) -> int {
    if a >= b {
        a - b
    } else {
        0
    }
}

/// The smaller of `a` and `b`.
pub open spec fn min_int(a: int, b: int) -> int {
    if a <= b {
        a
    } else {
        b
    }
}

/// The rows `start..end` of a list of `len` entries that a pane of `height`
/// rows shows: the cursor kept near the middle, the window kept inside the
/// list.
pub open spec fn window_spec(cursor: int, height: int, len: int) -> (int, int) {
    let start = min_int(sat_sub(cursor, sat_sub(height, 1) / 2), sat_sub(len, min_int(height, len)));
    (start, min_int(start + height, len))
}

/// The rows of the list that a pane of `height` rows shows, as `(start, end)`.
pub fn list_window(cursor: usize, height: usize, len: usize) -> (r: (usize, usize))
    ensures
        (r.0 as int, r.1 as int) == window_spec(cursor as int, height as int, len as int),
        r.0 <= r.1 <= len,
{
    let half = if height >= 1 {
        (height - 1) / 2
    } else {
        0
    };
    let a = if cursor >= half {
        cursor - half
    } else {
        0
    };
    let shown = if height <= len {
        height
    } else {
        len
    };
    let b = len - shown;
    let start = if a <= b {
        a
    } else {
        b
    };
    let end = if height <= len - start {
        start + height
    } else {
        len
    };
    (start, end)
}

/// A rectangle of the screen.
#[derive(Debug, Clone, Copy, PartialEq, Eq, Structural)]
pub struct Area {
    pub x: u16,
    pub y: u16,
    pub width: u16,
    pub height: u16,
}

/// A `w` by `h` box centred in `area`, cut to the area's size.
pub fn centered(area: Area, w: u16, h: u16) -> (r: Area)
    requires
        area.x + sat_sub(area.width as int, w as int) / 2 <= u16::MAX,
        area.y + sat_sub(area.height as int, h as int) / 2 <= u16::MAX,
    ensures
        r.x == area.x + sat_sub(area.width as int, w as int) / 2,
        r.y == area.y + sat_sub(area.height as int, h as int) / 2,
        r.width == min_int(w as int, area.width as int),
        r.height == min_int(h as int, area.height as int),
{
    let dx = if area.width >= w {
        area.width - w
    } else {
        0
    };
    let dy = if area.height >= h {
        area.height - h
    } else {
        0
    };
    Area {
        x: area.x + dx / 2,
        y: area.y + dy / 2,
        width: if w <= area.width {
            w
        } else {
            area.width
        },
        height: if h <= area.height {
            h
        } else {
            area.height
        },
    }
}

/// The key cheatsheet shown under the panes.
pub open spec fn keybinds_text() -> Seq<char> {
    "spc toggle · s sort · o source · e expl/dep · / search · c cascade · Tab panel · a apply · ? help · q quit"@
}

/// The key cheatsheet, fitted to `w` characters.
pub fn keybinds_line(w: usize) -> (r: String)
    ensures
        r@ == fit_spec(keybinds_text(), w as int),
{
    fit("spc toggle · s sort · o source · e expl/dep · / search · c cascade · Tab panel · a apply · ? help · q quit", w)
}

/// One row of the package list, in pieces that are styled apart.
pub struct ListRow {
    /// The cursor mark and the check box, as `>[x] `.
    pub lead: String,
    pub name: String,
    /// ` version `.
    pub version: String,
    /// `[E+]`.
    pub badge: String,
    /// ` 1.0 MiB`.
    pub size: String,
    pub checked: bool,
}

/// What the package list pane shows.
pub struct ListView {
    pub title: String,
    pub rows: Vec<ListRow>,
}

/// The title of the list pane when `shown` packages pass the filters.
pub open spec fn list_title_spec(a: App, shown: nat) -> Seq<char> {
    " Installed ["@ + sort_label(a.sort) + "|"@ + source_label(a.source) + "|"@ + reason_label(
        a.reason,
    ) + "]"@ + (if a.filter@.len() == 0 {
        seq![]
    } else {
        " [find: "@ + a.filter@ + "]"@
    }) + " ("@ + decimal(shown) + "/"@ + decimal(a.pkgs@.len()) + ") "@
}

/// `r` is the row of entry `i` of the list.
pub open spec fn row_shows(a: App, r: ListRow, i: int) -> bool {
    let p = a.pkgs@[a.visible_spec()[i] as int];
    let checked = is_checked(a.checked@, p.name@);
    &&& r.checked == checked
    &&& r.lead@ == (if i == a.cursor && a.focus == Focus::List {
        ">"@
    } else {
        " "@
    }) + (if checked {
        "[x]"@
    } else {
        "[ ]"@
    }) + " "@
    &&& r.name@ == p.name@
    &&& r.version@ == " "@ + p.version@ + " "@
    &&& r.badge@ == "["@ + badge_spec(p) + "]"@
    &&& r.size@ == " "@ + human_size_spec(p.size as nat)
}

impl App {
    fn list_title(&self, shown: usize) -> (r: String)
        ensures
            r@ == list_title_spec(*self, shown as nat),
    {
        let mut t = String::from_str(" Installed [");
        t.append(self.sort.label());
        t.append("|");
        t.append(self.source.label());
        t.append("|");
        t.append(self.reason.label());
        t.append("]");
        if !self.filter.as_str().is_empty() {
            t.append(" [find: ");
            t.append(self.filter.as_str());
            t.append("]");
        }
        t.append(" (");
        t.append(decimal_string(shown as u64).as_str());
        t.append("/");
        t.append(decimal_string(self.pkgs.len() as u64).as_str());
        t.append(") ");
        t
    }

    fn list_row(&self, i: usize, pi: usize) -> (r: ListRow)
        requires
            i < self.visible_spec().len(),
            pi == self.visible_spec()[i as int],
            pi < self.pkgs@.len(),
        ensures
            row_shows(*self, r, i as int),
    {
        let p = &self.pkgs[pi];
        let checked = contains_string(&self.checked, &p.name);
        let mut lead = if i == self.cursor && self.focus == Focus::List {
            String::from_str(">")
        } else {
            String::from_str(" ")
        };
        lead.append(if checked {
            "[x]"
        } else {
            "[ ]"
        });
        lead.append(" ");
        let mut version = String::from_str(" ");
        version.append(p.version.as_str());
        version.append(" ");
        let mut badge_text = String::from_str("[");
        badge_text.append(badge(p).as_str());
        badge_text.append("]");
        let mut size = String::from_str(" ");
        size.append(human_size(p.size).as_str());
        ListRow { lead, name: p.name.clone(), version, badge: badge_text, size, checked }
    }

    /// The list pane for a pane of `height` rows: its title and the rows of
    /// the window that keeps the cursor in view.
    pub fn list_view(&self, height: usize) -> (v: ListView)
        ensures
            v.title@ == list_title_spec(*self, self.visible_spec().len()),
            ({
                let (start, end) = window_spec(
                    self.cursor as int,
                    height as int,
                    self.visible_spec().len() as int,
                );
                &&& v.rows@.len() == end - start
                &&& forall|k: int|
                    0 <= k < v.rows@.len() ==> row_shows(*self, #[trigger] v.rows@[k], start + k)
            }),
    {
        let vis = self.visible();
        let (start, end) = list_window(self.cursor, height, vis.len());
        let title = self.list_title(vis.len());
        let mut rows: Vec<ListRow> = Vec::new();
        let mut i = start;
        while i < end
            invariant
                start <= i <= end <= vis@.len(),
                vis@ == self.visible_spec(),
                is_visible_list(vis@, self.pkgs@, self.sort, self.source, self.reason, self.filter@),
                rows@.len() == i - start,
                forall|k: int|
                    0 <= k < rows@.len() ==> row_shows(*self, #[trigger] rows@[k], start + k),
            decreases end - i,
        {
            assert(shows(self.pkgs@, self.source, self.reason, self.filter@, vis@[i as int] as int));
            let row = self.list_row(i, vis[i]);
            rows.push(row);
            i += 1;
        }
        ListView { title, rows }
    }
}

/// The window of rows always shows the cursor's row, when the list has
/// that row and the pane has any rows.
pub proof fn law_window_shows_cursor(cursor: int, height: int, len: int)
    requires
        0 <= cursor < len,
        height > 0,
    ensures
        window_spec(cursor, height, len).0 <= cursor < window_spec(cursor, height, len).1,
        window_spec(cursor, height, len).1 - window_spec(cursor, height, len).0 == min_int(
            height,
            len,
        ),
{
}

/// Fitting never makes text wider than the width, and leaves text that
/// fits as it is.
pub proof fn law_fit_within_width(s: Seq<char>, w: int)
    requires
        w >= 0,
    ensures
        fit_spec(s, w).len() <= w,
        s.len() <= w ==> fit_spec(s, w) == s,
        s.len() > w > 0 ==> fit_spec(s, w).last() == '…' && fit_spec(s, w).len() == w
            && fit_spec(s, w).take(w - 1) == s.take(w - 1),
{
    if s.len() > w > 0 {
        assert(fit_spec(s, w).take(w - 1) =~= s.take(w - 1));
    }
}

/// The items each with `, ` in front, one after another.
spec fn prefixed(items: Seq<Seq<char>>) -> Seq<char>
    decreases items.len(),
{
    if items.len() == 0 {
        seq![]
    } else {
        ", "@ + items[0] + prefixed(items.drop_first())
    }
}

proof fn lemma_prefixed_push(t: Seq<Seq<char>>, x: Seq<char>)
    ensures
        prefixed(t.push(x)) == prefixed(t) + ", "@ + x,
    decreases t.len(),
{
    if t.len() == 0 {
        assert(t.push(x).drop_first() =~= Seq::<Seq<char>>::empty());
        assert(prefixed(t.push(x).drop_first()) == Seq::<char>::empty());
        assert(t.push(x)[0] == x);
        assert(prefixed(t) == Seq::<char>::empty());
        assert(prefixed(t.push(x)) =~= prefixed(t) + ", "@ + x);
    } else {
        lemma_prefixed_push(t.drop_first(), x);
        assert(t.push(x).drop_first() =~= t.drop_first().push(x));
        assert(prefixed(t.push(x)) =~= prefixed(t) + ", "@ + x);
    }
}

proof fn lemma_join_prefixed(items: Seq<Seq<char>>)
    requires
        items.len() > 0,
    ensures
        join(items, ", "@) == items[0] + prefixed(items.drop_first()),
    decreases items.len(),
{
    if items.len() == 1 {
        assert(items.drop_first() =~= Seq::<Seq<char>>::empty());
        assert(join(items, ", "@) =~= items[0] + prefixed(items.drop_first()));
    } else {
        let dl = items.drop_last();
        lemma_join_prefixed(dl);
        lemma_prefixed_push(dl.drop_first(), items.last());
        assert(items.drop_first() =~= dl.drop_first().push(items.last()));
        assert(join(items, ", "@) =~= items[0] + prefixed(items.drop_first()));
    }
}

proof fn lemma_fit_all(s: Seq<char>, items: Seq<Seq<char>>, shown: nat, w: int)
    requires
        shown > 0,
        (s + prefixed(items)).len() <= w,
    ensures
        fit_items(s, items, shown, w) == (s + prefixed(items), shown + items.len()),
    decreases items.len(),
{
    if items.len() == 0 {
        assert(s + prefixed(items) =~= s);
    } else {
        let add = ", "@ + items[0];
        assert(s + prefixed(items) =~= (s + add) + prefixed(items.drop_first()));
        lemma_fit_all(s + add, items.drop_first(), shown + 1, w);
    }
}

proof fn lemma_fit_items_prefix(s: Seq<char>, items: Seq<Seq<char>>, shown: nat, w: int)
    ensures
        fit_items(s, items, shown, w).0.len() >= s.len(),
        fit_items(s, items, shown, w).0.take(s.len() as int) == s,
    decreases items.len(),
{
    if items.len() > 0 {
        let add = if shown == 0 {
            items[0]
        } else {
            ", "@ + items[0]
        };
        if s.len() + add.len() <= w {
            lemma_fit_items_prefix(s + add, items.drop_first(), shown + 1, w);
            let r = fit_items(s + add, items.drop_first(), shown + 1, w).0;
            assert(r.take(s.len() as int) =~= (r.take((s + add).len() as int)).take(s.len() as int));
            assert((s + add).take(s.len() as int) =~= s);
        } else {
            assert(s.take(s.len() as int) =~= s);
        }
    } else {
        assert(s.take(s.len() as int) =~= s);
    }
}

/// `join_fit` lists `label: none` for no items; else it starts with
/// `label (n): `, and when all items joined by `, ` fit in the width they
/// all follow, with nothing more.
pub proof fn law_join_fit_shape(label: Seq<char>, items: Seq<Seq<char>>, w: int)
    ensures
        items.len() == 0 ==> join_fit_spec(label, items, w) == label + ": none"@,
        items.len() > 0 ==> ({
            let head = label + " ("@ + decimal(items.len()) + "): "@;
            &&& join_fit_spec(label, items, w).len() >= head.len()
            &&& join_fit_spec(label, items, w).take(head.len() as int) == head
            &&& (head + join(items, ", "@)).len() <= w ==> join_fit_spec(label, items, w) == head
                + join(items, ", "@)
        }),
{
    if items.len() > 0 {
        let head = label + " ("@ + decimal(items.len()) + "): "@;
        lemma_fit_items_prefix(head, items, 0, w);
        let r = fit_items(head, items, 0, w);
        lemma_fit_items_shown(head, items, 0, w);
        if r.1 < items.len() {
            let out = r.0 + " +"@ + decimal((items.len() - r.1) as nat) + " more"@;
            assert(out.take(head.len() as int) =~= r.0.take(head.len() as int));
        }
        if (head + join(items, ", "@)).len() <= w {
            lemma_join_prefixed(items);
            let rest = items.drop_first();
            assert(head + join(items, ", "@) =~= (head + items[0]) + prefixed(rest));
            lemma_fit_all(head + items[0], rest, 1, w);
            assert(head.len() + items[0].len() <= w);
        }
    }
}

} // verus!
