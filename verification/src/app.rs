use vstd::prelude::*;
pub use crate::numbers::human_size;
use crate::db::{idx_in_range, idx_lookup, lemma_idx_lookup_in_range, lookup, Pkg};
use crate::order::{
    insert_unique, lemma_sorted_set, lemma_sorted_set_facts, sort_seq, sorted_set, str_views,
    strictly_sorted,
};
use crate::privilege::{pacman_argv_spec, prefix_spec, Privilege};
use crate::resolve::{is_empty_preview, Preview, Request};
use crate::text::{
    chars_of_string, contains, contains_chars, join, join_strings, lowercase, string_views,
    strings_of, to_lowercase, views,
};

verus! {

/// Which pane has the keyboard.
#[derive(Debug, Clone, Copy, PartialEq, Eq, Structural)]
pub enum Focus {
    List,
    Preview,
}

/// How the package list is ordered.
#[derive(Debug, Clone, Copy, PartialEq, Eq, Structural)]
pub enum SortMode {
    Name,
    Size,
}

impl Default for SortMode {
    fn default() -> (r: Self)
        ensures
            r == SortMode::Name,
    {
        SortMode::Name
    }
}

/// The other sort mode.
pub open spec fn toggled(m: SortMode) -> SortMode {
    match m {
        SortMode::Name => SortMode::Size,
        SortMode::Size => SortMode::Name,
    }
}

/// The label shown for a sort mode.
pub open spec fn sort_label(m: SortMode) -> Seq<char> {
    match m {
        SortMode::Name => "name"@,
        SortMode::Size => "size↓"@,
    }
}

impl SortMode {
    /// Switches between name and size order.
    pub fn toggle(&mut self)
        ensures
            *final(self) == toggled(*old(self)),
    {
        *self = match self {
            SortMode::Name => SortMode::Size,
            SortMode::Size => SortMode::Name,
        };
    }

    /// The label shown for the mode.
    pub fn label(&self) -> (r: &'static str)
        ensures
            r@ == sort_label(*self),
    {
        match self {
            SortMode::Name => "name",
            SortMode::Size => "size↓",
        }
    }
}

/// Which packages the list shows by origin.
#[derive(Debug, Clone, Copy, PartialEq, Eq, Structural)]
pub enum SourceFilter {
    All,
    Repo,
    Aur,
}

impl Default for SourceFilter {
    fn default() -> (r: Self)
        ensures
            r == SourceFilter::All,
    {
        SourceFilter::All
    }
}

/// The next source filter: all → repo → AUR → all.
pub open spec fn next_source(f: SourceFilter) -> SourceFilter {
    match f {
        SourceFilter::All => SourceFilter::Repo,
        SourceFilter::Repo => SourceFilter::Aur,
        SourceFilter::Aur => SourceFilter::All,
    }
}

/// Whether the source filter `f` lets `p` through.
pub open spec fn source_matches(f: SourceFilter, p: Pkg) -> bool {
    match f {
        SourceFilter::All => true,
        SourceFilter::Repo => !p.foreign,
        SourceFilter::Aur => p.foreign,
    }
}

/// The label shown for a source filter.
pub open spec fn source_label(f: SourceFilter) -> Seq<char> {
    match f {
        SourceFilter::All => "all"@,
        SourceFilter::Repo => "repo"@,
        SourceFilter::Aur => "AUR"@,
    }
}

impl SourceFilter {
    /// Moves to the next filter: all → repo → AUR → all.
    pub fn cycle(&mut self)
        ensures
            *final(self) == next_source(*old(self)),
    {
        *self = match self {
            SourceFilter::All => SourceFilter::Repo,
            SourceFilter::Repo => SourceFilter::Aur,
            SourceFilter::Aur => SourceFilter::All,
        };
    }

    /// The label shown for the filter.
    pub fn label(&self) -> (r: &'static str)
        ensures
            r@ == source_label(*self),
    {
        match self {
            SourceFilter::All => "all",
            SourceFilter::Repo => "repo",
            SourceFilter::Aur => "AUR",
        }
    }

    /// Whether the filter lets `p` through.
    pub fn matches(&self, p: &Pkg) -> (r: bool)
        ensures
            r == source_matches(*self, *p),
    {
        match self {
            SourceFilter::All => true,
            SourceFilter::Repo => !p.foreign,
            SourceFilter::Aur => p.foreign,
        }
    }
}

/// Which packages the list shows by install reason.
#[derive(Debug, Clone, Copy, PartialEq, Eq, Structural)]
pub enum ReasonFilter {
    All,
    Explicit,
    Dep,
}

impl Default for ReasonFilter {
    fn default() -> (r: Self)
        ensures
            r == ReasonFilter::All,
    {
        ReasonFilter::All
    }
}

/// The next reason filter: all → explicit → dep → all.
pub open spec fn next_reason(f: ReasonFilter) -> ReasonFilter {
    match f {
        ReasonFilter::All => ReasonFilter::Explicit,
        ReasonFilter::Explicit => ReasonFilter::Dep,
        ReasonFilter::Dep => ReasonFilter::All,
    }
}

/// Whether the reason filter `f` lets `p` through.
pub open spec fn reason_matches(f: ReasonFilter, p: Pkg) -> bool {
    match f {
        ReasonFilter::All => true,
        ReasonFilter::Explicit => !p.as_dep,
        ReasonFilter::Dep => p.as_dep,
    }
}

/// The label shown for a reason filter.
pub open spec fn reason_label(f: ReasonFilter) -> Seq<char> {
    match f {
        ReasonFilter::All => "all"@,
        ReasonFilter::Explicit => "expl"@,
        ReasonFilter::Dep => "dep"@,
    }
}

impl ReasonFilter {
    /// Moves to the next filter: all → explicit → dep → all.
    pub fn cycle(&mut self)
        ensures
            *final(self) == next_reason(*old(self)),
    {
        *self = match self {
            ReasonFilter::All => ReasonFilter::Explicit,
            ReasonFilter::Explicit => ReasonFilter::Dep,
            ReasonFilter::Dep => ReasonFilter::All,
        };
    }

    /// The label shown for the filter.
    pub fn label(&self) -> (r: &'static str)
        ensures
            r@ == reason_label(*self),
    {
        match self {
            ReasonFilter::All => "all",
            ReasonFilter::Explicit => "expl",
            ReasonFilter::Dep => "dep",
        }
    }

    /// Whether the filter lets `p` through.
    pub fn matches(&self, p: &Pkg) -> (r: bool)
        ensures
            r == reason_matches(*self, *p),
    {
        match self {
            ReasonFilter::All => true,
            ReasonFilter::Explicit => !p.as_dep,
            ReasonFilter::Dep => p.as_dep,
        }
    }
}

/// What the keys currently do.
#[derive(Debug, Clone, Copy, PartialEq, Eq, Structural)]
pub enum Mode {
    Normal,
    Filter,
    Confirm,
    Help,
}

/// Toggling the sort mode twice gives the mode back.
pub proof fn law_sort_toggle_twice(m: SortMode)
    ensures
        toggled(toggled(m)) == m,
{
}

/// Cycling the source filter three times gives the filter back.
pub proof fn law_source_cycle_three(f: SourceFilter)
    ensures
        next_source(next_source(next_source(f))) == f,
{
}

/// Cycling the reason filter three times gives the filter back.
pub proof fn law_reason_cycle_three(f: ReasonFilter)
    ensures
        next_reason(next_reason(next_reason(f))) == f,
{
}

/// The whole state of the browser.
pub struct App {
    pub pkgs: Vec<Pkg>,
    /// Name index of `pkgs`: each name with its position.
    pub idx: Vec<(String, usize)>,
    pub priv_: Privilege,
    /// The checked package names, each once.
    pub checked: Vec<String>,
    pub cascade: bool,
    pub filter: String,
    pub sort: SortMode,
    pub source: SourceFilter,
    pub reason: ReasonFilter,
    pub mode: Mode,
    pub focus: Focus,
    /// Index into `visible()` for the list cursor.
    pub cursor: usize,
    /// Cursor into `preview_entries()` when the preview pane is focused.
    pub preview_cursor: usize,
    /// Scroll offset for the preview pane; auto-follows `preview_cursor`.
    pub preview_scroll: usize,
    pub preview: Preview,
    /// Generation of the preview request currently wanted.
    pub preview_gen: u64,
    pub preview_pending: bool,
    /// Generation of the last preview request made.
    pub requested: u64,
    pub status: String,
}

/// Whether the text filter `filter` lets `p` through: an empty filter lets
/// everything through, else the lowercased filter must occur in the
/// lowercased name or description.
pub open spec fn text_matches(filter: Seq<char>, p: Pkg) -> bool {
    ||| filter.len() == 0
    ||| contains(lowercase(p.name@), lowercase(filter))
    ||| contains(lowercase(p.desc@), lowercase(filter))
}

/// Whether package `i` of `pkgs` passes the source, reason and text filters.
pub open spec fn shows(
    pkgs: Seq<Pkg>,
    source: SourceFilter,
    reason: ReasonFilter,
    filter: Seq<char>,
    i: int,
) -> bool {
    &&& 0 <= i < pkgs.len()
    &&& source_matches(source, pkgs[i])
    &&& reason_matches(reason, pkgs[i])
    &&& text_matches(filter, pkgs[i])
}

/// The list order: by position for name order (`pkgs` is kept sorted by
/// name), else largest size first, equal sizes by position.
pub open spec fn list_before(pkgs: Seq<Pkg>, sort: SortMode, a: int, b: int) -> bool {
    if sort == SortMode::Size {
        pkgs[a].size > pkgs[b].size || (pkgs[a].size == pkgs[b].size && a < b)
    } else {
        a < b
    }
}

/// `v` lists, in list order, exactly the positions of `pkgs` that pass the filters.
pub open spec fn is_visible_list(
    v: Seq<usize>,
    pkgs: Seq<Pkg>,
    sort: SortMode,
    source: SourceFilter,
    reason: ReasonFilter,
    filter: Seq<char>,
) -> bool {
    &&& forall|k: int| 0 <= k < v.len() ==> shows(pkgs, source, reason, filter, #[trigger] v[k] as int)
    &&& forall|i: int| shows(pkgs, source, reason, filter, i) ==> #[trigger] v.contains(i as usize)
    &&& forall|a: int, b: int|
        0 <= a < b < v.len() ==> list_before(pkgs, sort, #[trigger] v[a] as int, #[trigger] v[b] as int)
}

/// Inserts `x`, a position after all in `v`, into `v` kept in list order.
fn insert_in_list_order(v: &mut Vec<usize>, pkgs: &Vec<Pkg>, sort: SortMode, x: usize)
    requires
        x < pkgs@.len(),
        forall|k: int| 0 <= k < old(v)@.len() ==> #[trigger] old(v)@[k] < x,
        forall|a: int, b: int|
            0 <= a < b < old(v)@.len() ==> list_before(
                pkgs@,
                sort,
                #[trigger] old(v)@[a] as int,
                #[trigger] old(v)@[b] as int,
            ),
    ensures
        final(v)@.to_set() == old(v)@.to_set().insert(x),
        forall|k: int| 0 <= k < final(v)@.len() ==> #[trigger] final(v)@[k] <= x,
        forall|a: int, b: int|
            0 <= a < b < final(v)@.len() ==> list_before(
                pkgs@,
                sort,
                #[trigger] final(v)@[a] as int,
                #[trigger] final(v)@[b] as int,
            ),
{
    let ghost old_v = v@;
    let mut p = v.len();
    if sort == SortMode::Size {
        while p > 0 && pkgs[v[p - 1]].size < pkgs[x].size
            invariant
                p <= v@.len(),
                v@ == old_v,
                x < pkgs@.len(),
                forall|k: int| 0 <= k < old_v.len() ==> #[trigger] old_v[k] < pkgs@.len(),
                forall|q: int| p <= q < old_v.len() ==> pkgs@[#[trigger] old_v[q] as int].size
                    < pkgs@[x as int].size,
            decreases p,
        {
            p -= 1;
        }
    }
    v.insert(p, x);
    proof {
        let nv = v@;
        assert(nv =~= old_v.insert(p as int, x));
        assert forall|a: int, b: int| 0 <= a < b < nv.len() implies list_before(
            pkgs@,
            sort,
            #[trigger] nv[a] as int,
            #[trigger] nv[b] as int,
        ) by {
            if b < p {
                assert(nv[a] == old_v[a] && nv[b] == old_v[b]);
            } else if b == p {
                assert(nv[a] == old_v[a]);
                if sort == SortMode::Size {
                    assert(!(pkgs@[old_v[p - 1] as int].size < pkgs@[x as int].size));
                    if a < p - 1 {
                        assert(list_before(pkgs@, sort, old_v[a] as int, old_v[p - 1] as int));
                    }
                }
            } else if a == p {
                assert(nv[b] == old_v[b - 1]);
            } else if a < p {
                assert(nv[a] == old_v[a] && nv[b] == old_v[b - 1]);
            } else {
                assert(nv[a] == old_v[a - 1] && nv[b] == old_v[b - 1]);
            }
        }
        assert forall|e: usize| nv.to_set().contains(e) <==> old_v.to_set().insert(x).contains(e) by {
            if nv.contains(e) {
                let k = choose|k: int| 0 <= k < nv.len() && nv[k] == e;
                if k < p {
                    assert(old_v[k] == e);
                } else if k > p {
                    assert(old_v[k - 1] == e);
                }
            }
            if old_v.contains(e) {
                let k = choose|k: int| 0 <= k < old_v.len() && old_v[k] == e;
                if k < p {
                    assert(nv[k] == e);
                } else {
                    assert(nv[k + 1] == e);
                }
            }
            if e == x {
                assert(nv[p as int] == e);
            }
        }
        assert(nv.to_set() =~= old_v.to_set().insert(x));
        assert forall|k: int| 0 <= k < nv.len() implies #[trigger] nv[k] <= x by {
            if k < p {
                assert(nv[k] == old_v[k]);
            } else if k > p {
                assert(nv[k] == old_v[k - 1]);
            }
        }
    }
}


proof fn lemma_list_before_order(pkgs: Seq<Pkg>, sort: SortMode)
    ensures
        forall|a: int| !list_before(pkgs, sort, a, a),
        forall|a: int, b: int, c: int|
            #![trigger list_before(pkgs, sort, a, b), list_before(pkgs, sort, b, c)]
            list_before(pkgs, sort, a, b) && list_before(pkgs, sort, b, c) ==> list_before(
                pkgs,
                sort,
                a,
                c,
            ),
        forall|a: int, b: int|
            #![trigger list_before(pkgs, sort, a, b)]
            a == b || list_before(pkgs, sort, a, b) || list_before(pkgs, sort, b, a),
        forall|a: int, b: int|
            #![trigger list_before(pkgs, sort, a, b)]
            list_before(pkgs, sort, a, b) ==> !list_before(pkgs, sort, b, a),
{
}

/// Two lists of the same positions, both in list order, are equal.
proof fn lemma_list_order_unique(v1: Seq<usize>, v2: Seq<usize>, pkgs: Seq<Pkg>, sort: SortMode)
    requires
        forall|a: int, b: int|
            0 <= a < b < v1.len() ==> list_before(pkgs, sort, #[trigger] v1[a] as int, #[trigger] v1[b] as int),
        forall|a: int, b: int|
            0 <= a < b < v2.len() ==> list_before(pkgs, sort, #[trigger] v2[a] as int, #[trigger] v2[b] as int),
        forall|e: usize| v1.contains(e) <==> v2.contains(e),
    ensures
        v1 == v2,
    decreases v1.len(),
{
    lemma_list_before_order(pkgs, sort);
    if v1.len() == 0 {
        if v2.len() > 0 {
            assert(v2.contains(v2[0]));
        }
        assert(v1 =~= v2);
    } else {
        assert(v1.contains(v1[0]));
        assert(v2.len() > 0);
        assert(v2.contains(v2[0]));
        let j = choose|j: int| 0 <= j < v2.len() && v2[j] == v1[0];
        let k = choose|k: int| 0 <= k < v1.len() && v1[k] == v2[0];
        if j > 0 {
            assert(list_before(pkgs, sort, v2[0] as int, v1[0] as int));
        }
        if k > 0 {
            assert(list_before(pkgs, sort, v1[0] as int, v2[0] as int));
        }
        assert(v1[0] == v2[0]);
        let t1 = v1.drop_first();
        let t2 = v2.drop_first();
        assert forall|e: usize| t1.contains(e) <==> t2.contains(e) by {
            if t1.contains(e) {
                let i = choose|i: int| 0 <= i < t1.len() && t1[i] == e;
                assert(v1[i + 1] == e);
                assert(list_before(pkgs, sort, v1[0] as int, v1[i + 1] as int));
                assert(v2.contains(e));
                let m = choose|m: int| 0 <= m < v2.len() && v2[m] == e;
                if m == 0 {
                    assert(e == v1[0]);
                }
                assert(t2[m - 1] == e);
            }
            if t2.contains(e) {
                let i = choose|i: int| 0 <= i < t2.len() && t2[i] == e;
                assert(v2[i + 1] == e);
                assert(list_before(pkgs, sort, v2[0] as int, v2[i + 1] as int));
                assert(v1.contains(e));
                let m = choose|m: int| 0 <= m < v1.len() && v1[m] == e;
                if m == 0 {
                    assert(e == v2[0]);
                }
                assert(t1[m - 1] == e);
            }
        }
        assert forall|a: int, b: int| 0 <= a < b < t1.len() implies list_before(
            pkgs,
            sort,
            #[trigger] t1[a] as int,
            #[trigger] t1[b] as int,
        ) by {
            assert(t1[a] == v1[a + 1] && t1[b] == v1[b + 1]);
        }
        assert forall|a: int, b: int| 0 <= a < b < t2.len() implies list_before(
            pkgs,
            sort,
            #[trigger] t2[a] as int,
            #[trigger] t2[b] as int,
        ) by {
            assert(t2[a] == v2[a + 1] && t2[b] == v2[b + 1]);
        }
        lemma_list_order_unique(t1, t2, pkgs, sort);
        assert(v1 =~= seq![v1[0]] + t1);
        assert(v2 =~= seq![v2[0]] + t2);
    }
}

impl App {
    /// The state's own consistency: every index entry points at a package,
    /// and no name is checked twice.
    pub open spec fn wf(&self) -> bool {
        &&& idx_in_range(self.idx@, self.pkgs@.len() as int)
        &&& string_views(self.checked@).no_duplicates()
    }

    /// The positions of `pkgs` that the list shows, in list order.
    pub open spec fn visible_spec(&self) -> Seq<usize> {
        choose|v: Seq<usize>|
            is_visible_list(v, self.pkgs@, self.sort, self.source, self.reason, self.filter@)
    }

    /// Indices into `pkgs` matching the current text/source/reason filters,
    /// ordered by the active sort (size is largest-first).
    pub fn visible(&self) -> (v: Vec<usize>)
        ensures
            v@ == self.visible_spec(),
            is_visible_list(v@, self.pkgs@, self.sort, self.source, self.reason, self.filter@),
    {
        let f = chars_of_string(&to_lowercase(self.filter.as_str()));
        let ghost lf = lowercase(self.filter@);
        let filter_empty = self.filter.as_str().is_empty();
        let mut v: Vec<usize> = Vec::new();
        let mut i: usize = 0;
        while i < self.pkgs.len()
            invariant
                i <= self.pkgs.len(),
                f@ == lf,
                lf == lowercase(self.filter@),
                filter_empty == (self.filter@.len() == 0),
                forall|k: int| 0 <= k < v@.len() ==> #[trigger] v@[k] < i,
                forall|k: int|
                    0 <= k < v@.len() ==> shows(
                        self.pkgs@,
                        self.source,
                        self.reason,
                        self.filter@,
                        #[trigger] v@[k] as int,
                    ),
                forall|j: int|
                    0 <= j < i && shows(self.pkgs@, self.source, self.reason, self.filter@, j)
                        ==> #[trigger] v@.contains(j as usize),
                forall|a: int, b: int|
                    0 <= a < b < v@.len() ==> list_before(
                        self.pkgs@,
                        self.sort,
                        #[trigger] v@[a] as int,
                        #[trigger] v@[b] as int,
                    ),
            decreases self.pkgs.len() - i,
        {
            let p = &self.pkgs[i];
            let pass = if !self.source.matches(p) || !self.reason.matches(p) {
                false
            } else if filter_empty {
                true
            } else {
                contains_chars(&chars_of_string(&to_lowercase(p.name.as_str())), &f)
                    || contains_chars(&chars_of_string(&to_lowercase(p.desc.as_str())), &f)
            };
            assert(pass == shows(self.pkgs@, self.source, self.reason, self.filter@, i as int));
            if pass {
                let ghost before = v@;
                insert_in_list_order(&mut v, &self.pkgs, self.sort, i);
                proof {
                    assert forall|k: int| 0 <= k < v@.len() implies shows(
                        self.pkgs@,
                        self.source,
                        self.reason,
                        self.filter@,
                        #[trigger] v@[k] as int,
                    ) by {
                        assert(v@.to_set().contains(v@[k]));
                        assert(before.to_set().insert(i).contains(v@[k]));
                        if v@[k] != i {
                            let m = choose|m: int| 0 <= m < before.len() && before[m] == v@[k];
                        }
                    }
                    assert forall|j: int|
                        0 <= j < i + 1 && shows(self.pkgs@, self.source, self.reason, self.filter@, j)
                            implies #[trigger] v@.contains(j as usize) by {
                        if j < i {
                            assert(before.contains(j as usize));
                            assert(before.to_set().contains(j as usize));
                        }
                        assert(v@.to_set().contains(j as usize));
                    }
                    assert forall|k: int| 0 <= k < v@.len() implies #[trigger] v@[k] < i + 1 by {
                    }
                }
            } else {
                assert forall|j: int|
                    0 <= j < i + 1 && shows(self.pkgs@, self.source, self.reason, self.filter@, j)
                        implies #[trigger] v@.contains(j as usize) by {
                }
            }
            i += 1;
        }
        proof {
            let u = self.visible_spec();
            assert(is_visible_list(v@, self.pkgs@, self.sort, self.source, self.reason, self.filter@));
            assert(is_visible_list(u, self.pkgs@, self.sort, self.source, self.reason, self.filter@));
            assert forall|e: usize| v@.contains(e) <==> u.contains(e) by {
                if v@.contains(e) {
                    let k = choose|k: int| 0 <= k < v@.len() && v@[k] == e;
                    assert(shows(self.pkgs@, self.source, self.reason, self.filter@, v@[k] as int));
                    assert(u.contains((e as int) as usize));
                }
                if u.contains(e) {
                    let k = choose|k: int| 0 <= k < u.len() && u[k] == e;
                    assert(shows(self.pkgs@, self.source, self.reason, self.filter@, u[k] as int));
                    assert(v@.contains((e as int) as usize));
                }
            }
            lemma_list_order_unique(v@, u, self.pkgs@, self.sort);
        }
        v
    }
}

impl App {
    /// A browser over `pkgs` (sorted by name) with its name index `idx`:
    /// nothing checked, no filter, name order, list focused, no preview.
    pub fn new(pkgs: Vec<Pkg>, idx: Vec<(String, usize)>, priv_: Privilege) -> (a: App)
        requires
            idx_in_range(idx@, pkgs@.len() as int),
        ensures
            a.wf(),
            a.pkgs == pkgs,
            a.idx == idx,
            a.priv_ == priv_,
            a.checked@.len() == 0,
            !a.cascade,
            a.filter@.len() == 0,
            a.sort == SortMode::Name,
            a.source == SourceFilter::All,
            a.reason == ReasonFilter::All,
            a.mode == Mode::Normal,
            a.focus == Focus::List,
            a.cursor == 0,
            a.preview_cursor == 0,
            a.preview_scroll == 0,
            is_empty_preview(a.preview),
            a.preview_gen == 0,
            !a.preview_pending,
            a.requested == 0,
            a.status@.len() == 0,
    {
        let a = App {
            pkgs,
            idx,
            priv_,
            checked: Vec::new(),
            cascade: false,
            filter: String::new(),
            sort: SortMode::Name,
            source: SourceFilter::All,
            reason: ReasonFilter::All,
            mode: Mode::Normal,
            focus: Focus::List,
            cursor: 0,
            preview_cursor: 0,
            preview_scroll: 0,
            preview: Preview::default(),
            preview_gen: 0,
            preview_pending: false,
            requested: 0,
            status: String::new(),
        };
        assert(string_views(a.checked@) =~= Seq::<Seq<char>>::empty());
        a
    }

    /// The checked names that are installed (in the name index).
    pub open spec fn installed_checked(&self) -> Set<Seq<char>> {
        string_views(self.checked@).to_set().filter(|n: Seq<char>| idx_lookup(self.idx@, n) is Some)
    }

    /// The packages to remove: the checked names that are installed, sorted.
    pub open spec fn targets_spec(&self) -> Seq<Seq<char>> {
        sorted_set(self.installed_checked())
    }

    /// Only the explicitly checked packages go on the command line; pacman
    /// resolves cascade/orphans itself. Sorted for determinism.
    pub fn apply_targets(&self) -> (r: Vec<String>)
        ensures
            string_views(r@) == self.targets_spec(),
    {
        let mut acc: Vec<Vec<char>> = Vec::new();
        let ghost cv = string_views(self.checked@);
        let mut i: usize = 0;
        assert(views(acc@) =~= Seq::<Seq<char>>::empty());
        while i < self.checked.len()
            invariant
                i <= self.checked.len(),
                cv == string_views(self.checked@),
                strictly_sorted(views(acc@)),
                forall|n: Seq<char>|
                    views(acc@).to_set().contains(n) <==> exists|k: int|
                        0 <= k < i && #[trigger] cv[k] == n && idx_lookup(self.idx@, n) is Some,
            decreases self.checked.len() - i,
        {
            assert(cv[i as int] == self.checked@[i as int]@);
            if lookup(&self.idx, self.checked[i].as_str()).is_some() {
                let c = chars_of_string(&self.checked[i]);
                let ghost cvv = c@;
                insert_unique(&mut acc, c);
                assert forall|n: Seq<char>|
                    views(acc@).to_set().contains(n) <==> exists|k: int|
                        0 <= k < i + 1 && #[trigger] cv[k] == n && idx_lookup(self.idx@, n) is Some by {
                    if n == cvv {
                        assert(cv[i as int] == n);
                    }
                }
            }
            i += 1;
        }
        let r = strings_of(&acc);
        proof {
            assert forall|n: Seq<char>|
                views(acc@).to_set().contains(n) <==> self.installed_checked().contains(n) by {
                if views(acc@).to_set().contains(n) {
                    let k = choose|k: int|
                        0 <= k < i && #[trigger] cv[k] == n && idx_lookup(self.idx@, n) is Some;
                    assert(cv.to_set().contains(n));
                }
                if self.installed_checked().contains(n) {
                    assert(cv.to_set().contains(n));
                    let k = choose|k: int| 0 <= k < cv.len() && cv[k] == n;
                }
            }
            assert(views(acc@).to_set() =~= self.installed_checked());
            lemma_sorted_set(views(acc@), self.installed_checked());
        }
        r
    }

    /// The words of the apply command as shown: privilege prefix, `pacman
    /// -Rns [-c]`, the targets, and `…` when there are none yet.
    pub open spec fn command_words(&self) -> Seq<Seq<char>> {
        let t = self.targets_spec();
        prefix_spec(self.priv_) + pacman_argv_spec(self.cascade, t) + (if t.len() == 0 {
            seq!["…"@]
        } else {
            seq![]
        })
    }

    /// The apply command as shown in the command pane.
    pub fn command_preview(&self) -> (r: String)
        ensures
            r@ == join(self.command_words(), " "@),
    {
        let mut parts: Vec<String> = self.priv_.prefix_args();
        let targets = self.apply_targets();
        let argv = crate::privilege::pacman_argv(self.cascade, targets.as_slice());
        let ghost before = string_views(parts@);
        let mut j: usize = 0;
        while j < argv.len()
            invariant
                j <= argv.len(),
                string_views(parts@) == before + string_views(argv@).take(j as int),
            decreases argv.len() - j,
        {
            let ghost b = string_views(parts@);
            let t = argv[j].clone();
            parts.push(t);
            assert(string_views(parts@) =~= b.push(argv@[j as int]@));
            j += 1;
            assert(string_views(argv@).take(j as int) =~= string_views(argv@).take(j - 1).push(
                argv@[j - 1]@,
            ));
        }
        assert(string_views(argv@).take(argv.len() as int) =~= string_views(argv@));
        if targets.len() == 0 {
            let ghost b = string_views(parts@);
            parts.push(String::from_str("…"));
            assert(string_views(parts@) =~= b.push("…"@));
        }
        assert(string_views(parts@) =~= self.command_words());
        join_strings(&parts, " ")
    }

    /// The list cursor kept on an entry of the list (0 when it is empty).
    pub fn clamp_cursor(&mut self)
        ensures
            *final(self) == clamped_cursor(*old(self)),
    {
        let n = self.visible().len();
        self.cursor = if n == 0 {
            0
        } else if self.cursor < n - 1 {
            self.cursor
        } else {
            n - 1
        };
    }

    /// The package under the list cursor, by its position in `pkgs`.
    pub fn cursor_pkg(&self) -> (r: Option<usize>)
        ensures
            r == (if self.cursor < self.visible_spec().len() {
                Some(self.visible_spec()[self.cursor as int])
            } else {
                None
            }),
            r matches Some(i) ==> i < self.pkgs@.len(),
    {
        let v = self.visible();
        proof {
            if self.cursor < v.len() {
                assert(shows(self.pkgs@, self.source, self.reason, self.filter@, v@[self.cursor as int] as int));
            }
        }
        if self.cursor < v.len() {
            Some(v[self.cursor])
        } else {
            None
        }
    }

    /// Moves the list cursor by `delta`, kept on an entry of the list.
    pub fn move_cursor(&mut self, delta: isize)
        requires
            isize::MIN <= (old(self).cursor as isize) + delta <= isize::MAX,
        ensures
            *final(self) == moved_cursor(*old(self), delta as int),
    {
        let n = self.visible().len();
        if n == 0 {
            self.cursor = 0;
            return;
        }
        let c = self.cursor as isize + delta;
        self.cursor = if c < 0 {
            0
        } else if c as usize > n - 1 {
            n - 1
        } else {
            c as usize
        };
    }
}

/// `a` with the list cursor moved by `delta` and kept on an entry of the
/// list (0 when it is empty).
pub open spec fn moved_cursor(a: App, delta: int) -> App {
    let n = a.visible_spec().len();
    App {
        cursor: (if n == 0 {
            0
        } else {
            clamp_int((a.cursor as isize) + delta, 0, n - 1)
        }) as usize,
        ..a
    }
}

/// `a` with the preview cursor moved by `delta` and kept on an entry (0 when
/// there are none).
pub open spec fn moved_preview_cursor(a: App, delta: int) -> App {
    let n = a.entries_spec().len();
    App {
        preview_cursor: (if n == 0 {
            0
        } else {
            clamp_int((a.preview_cursor as i64) + delta, 0, n - 1)
        }) as usize,
        ..a
    }
}

/// `a` with the list cursor kept on an entry of the list (0 when it is empty).
pub open spec fn clamped_cursor(a: App) -> App {
    let n = a.visible_spec().len();
    App {
        cursor: (if n == 0 {
            0
        } else if a.cursor < n {
            a.cursor as int
        } else {
            n - 1
        }) as usize,
        ..a
    }
}

/// `x` kept within `lo..=hi`.
pub open spec fn clamp_int(x: int, lo: int, hi: int) -> int {
    if x < lo {
        lo
    } else if x > hi {
        hi
    } else {
        x
    }
}

/// What a recompute asks of the preview worker, if anything.
pub open spec fn request_matches(r: Option<Request>, generation: u64, targets: Seq<Seq<char>>, cascade: bool) -> bool {
    match r {
        Some(q) => q.generation == generation && string_views(q.targets@) == targets && q.cascade
            == cascade,
        None => false,
    }
}

impl App {
    /// Ordered removal entries: checked first, then pulled in, each part sorted.
    pub open spec fn entries_spec(&self) -> Seq<Seq<char>> {
        sort_seq(self.preview.spec_selected(self.checked@)) + sort_seq(
            self.preview.spec_pulled(self.checked@),
        )
    }

    /// Ordered removal entries: checked first, then pulled in. Backs the
    /// preview cursor.
    pub fn preview_entries(&self) -> (r: Vec<&str>)
        ensures
            str_views(r@) == self.entries_spec(),
    {
        let mut v = self.preview.selected(&self.checked);
        let mut w = self.preview.pulled(&self.checked);
        let ghost a = str_views(v@);
        let ghost b = str_views(w@);
        v.append(&mut w);
        assert(str_views(v@) =~= a + b);
        v
    }

    /// The preview cursor kept on an entry (0 when there are none).
    fn clamp_preview_cursor(&mut self)
        ensures
            final(self).preview_cursor == (if old(self).entries_spec().len() == 0 {
                0
            } else if old(self).preview_cursor < old(self).entries_spec().len() {
                old(self).preview_cursor as int
            } else {
                old(self).entries_spec().len() - 1
            }),
            *final(self) == (App { preview_cursor: final(self).preview_cursor, ..*old(self) }),
    {
        let n = self.preview_entries().len();
        self.preview_cursor = if n == 0 {
            0
        } else if self.preview_cursor < n - 1 {
            self.preview_cursor
        } else {
            n - 1
        };
    }

    /// Moves the preview cursor by `delta`, kept on an entry.
    pub fn move_preview_cursor(&mut self, delta: isize)
        ensures
            *final(self) == moved_preview_cursor(*old(self), delta as int),
    {
        let n = self.preview_entries().len();
        if n == 0 {
            self.preview_cursor = 0;
            return;
        }
        // The sum is taken exactly; a saturating one would clamp the same way.
        let c = (self.preview_cursor as i64) as i128 + delta as i128;
        self.preview_cursor = if c < 0 {
            0
        } else if c > (n - 1) as i128 {
            n - 1
        } else {
            c as usize
        };
    }

    /// Asks for an exact `pacman --print` preview of the checked packages:
    /// with nothing checked the preview is emptied at once; else the request
    /// (a new generation) is returned for the worker, and the old preview
    /// stays visible, marked pending, until the result arrives.
    pub fn recompute(&mut self) -> (req: Option<Request>)
        requires
            old(self).requested < u64::MAX,
        ensures
            recomputed(*old(self), *final(self), req),
    {
        if self.checked.len() == 0 {
            self.preview = Preview::default();
            self.preview_pending = false;
            self.preview_cursor = 0;
            self.preview_scroll = 0;
            return None;
        }
        let targets = self.apply_targets();
        self.requested = self.requested + 1;
        self.preview_gen = self.requested;
        self.preview_pending = true;
        self.preview_scroll = 0;
        Some(Request { generation: self.requested, targets, cascade: self.cascade })
    }

    /// Takes a finished worker result (the one for the wanted generation, if
    /// any arrived): it becomes the preview, no longer pending, scrolled to
    /// the top, the cursor kept on an entry.
    pub fn poll_preview(&mut self, polled: Option<Preview>)
        ensures
            polled is None ==> *final(self) == *old(self),
            polled matches Some(p) ==> {
                let fresh = App {
                    preview: p,
                    preview_pending: false,
                    preview_scroll: 0,
                    ..*old(self)
                };
                &&& final(self).preview_cursor == (if fresh.entries_spec().len() == 0 {
                    0
                } else if fresh.preview_cursor < fresh.entries_spec().len() {
                    fresh.preview_cursor as int
                } else {
                    fresh.entries_spec().len() - 1
                })
                &&& *final(self) == (App { preview_cursor: final(self).preview_cursor, ..fresh })
            },
    {
        if let Some(p) = polled {
            self.preview = p;
            self.preview_pending = false;
            self.preview_scroll = 0;
            self.clamp_preview_cursor();
        }
    }
}

/// The total installed size of the removed packages that the index knows.
pub open spec fn removal_size(removed: Seq<Seq<char>>, idx: Seq<(String, usize)>, pkgs: Seq<Pkg>) -> int
    decreases removed.len(),
{
    if removed.len() == 0 {
        0
    } else {
        removal_size(removed.drop_last(), idx, pkgs) + match idx_lookup(idx, removed.last()) {
            Some(i) => pkgs[i as int].size as int,
            None => 0int,
        }
    }
}

proof fn lemma_removal_size_monotone(removed: Seq<Seq<char>>, idx: Seq<(String, usize)>, pkgs: Seq<Pkg>, k: int)
    requires
        0 <= k <= removed.len(),
    ensures
        0 <= removal_size(removed.take(k), idx, pkgs) <= removal_size(removed, idx, pkgs),
    decreases removed.len() - k,
{
    if k < removed.len() {
        lemma_removal_size_monotone(removed, idx, pkgs, k + 1);
        assert(removed.take(k + 1).drop_last() =~= removed.take(k));
        lemma_removal_size_nonneg(removed.take(k), idx, pkgs);
    } else {
        assert(removed.take(k) =~= removed);
        lemma_removal_size_nonneg(removed, idx, pkgs);
    }
}

proof fn lemma_removal_size_nonneg(removed: Seq<Seq<char>>, idx: Seq<(String, usize)>, pkgs: Seq<Pkg>)
    ensures
        0 <= removal_size(removed, idx, pkgs),
    decreases removed.len(),
{
    if removed.len() > 0 {
        lemma_removal_size_nonneg(removed.drop_last(), idx, pkgs);
    }
}

/// What `recompute` makes of `before`: the state `after` and the request `req`.
pub open spec fn recomputed(before: App, after: App, req: Option<Request>) -> bool {
    &&& before.checked@.len() == 0 ==> {
        &&& req is None
        &&& is_empty_preview(after.preview)
        &&& after == (App {
            preview: after.preview,
            preview_pending: false,
            preview_cursor: 0,
            preview_scroll: 0,
            ..before
        })
    }
    &&& before.checked@.len() > 0 ==> {
        &&& request_matches(req, (before.requested + 1) as u64, before.targets_spec(), before.cascade)
        &&& after == (App {
            requested: (before.requested + 1) as u64,
            preview_gen: (before.requested + 1) as u64,
            preview_pending: true,
            preview_scroll: 0,
            ..before
        })
    }
}

impl App {
    /// The package that the info panel shows, by position in `pkgs`: the
    /// one under the cursor of the focused pane.
    pub open spec fn hovered_spec(&self) -> Option<usize> {
        match self.focus {
            Focus::List => if self.cursor < self.visible_spec().len() {
                Some(self.visible_spec()[self.cursor as int])
            } else {
                None
            },
            Focus::Preview => if self.preview_cursor < self.entries_spec().len() {
                idx_lookup(self.idx@, self.entries_spec()[self.preview_cursor as int])
            } else {
                None
            },
        }
    }

    /// Package under the cursor on whichever pane has focus (for the info panel).
    pub fn hovered(&self) -> (r: Option<&Pkg>)
        requires
            self.wf(),
        ensures
            match self.hovered_spec() {
                Some(i) => i < self.pkgs@.len() && r == Some(&self.pkgs@[i as int]),
                None => r is None,
            },
    {
        match self.focus {
            Focus::List => match self.cursor_pkg() {
                Some(pi) => Some(&self.pkgs[pi]),
                None => None,
            },
            Focus::Preview => {
                let entries = self.preview_entries();
                if self.preview_cursor < entries.len() {
                    let name = entries[self.preview_cursor];
                    assert(name@ == self.entries_spec()[self.preview_cursor as int]);
                    match lookup(&self.idx, name) {
                        Some(i) => {
                            proof {
                                lemma_idx_lookup_in_range(self.idx@, name@, self.pkgs@.len() as int);
                            }
                            Some(&self.pkgs[i])
                        },
                        None => None,
                    }
                } else {
                    None
                }
            },
        }
    }

    /// The total installed size of everything the preview removes, or
    /// `None` when it does not fit in a `u64`.
    pub fn checked_removal_size(&self) -> (r: Option<u64>)
        requires
            self.wf(),
        ensures
            match r {
                Some(n) => n == removal_size(string_views(self.preview.removed@), self.idx@, self.pkgs@),
                None => removal_size(string_views(self.preview.removed@), self.idx@, self.pkgs@)
                    > u64::MAX,
            },
    {
        let ghost rv = string_views(self.preview.removed@);
        let mut size: u64 = 0;
        let mut k: usize = 0;
        assert(rv.take(0) =~= Seq::<Seq<char>>::empty());
        while k < self.preview.removed.len()
            invariant
                k <= self.preview.removed.len(),
                rv == string_views(self.preview.removed@),
                self.wf(),
                size == removal_size(rv.take(k as int), self.idx@, self.pkgs@),
            decreases self.preview.removed.len() - k,
        {
            proof {
                assert(rv.take(k + 1).drop_last() =~= rv.take(k as int));
                assert(rv.take(k + 1).last() == self.preview.removed@[k as int]@);
                lemma_idx_lookup_in_range(self.idx@, rv[k as int], self.pkgs@.len() as int);
            }
            if let Some(i) = lookup(&self.idx, self.preview.removed[k].as_str()) {
                if self.pkgs[i].size > u64::MAX - size {
                    proof {
                        lemma_removal_size_monotone(rv, self.idx@, self.pkgs@, k + 1);
                    }
                    return None;
                }
                size = size + self.pkgs[i].size;
            }
            k += 1;
        }
        assert(rv.take(k as int) =~= rv);
        Some(size)
    }

    /// The total installed size of everything the preview removes.
    pub fn total_removal_size(&self) -> (r: u64)
        requires
            self.wf(),
            removal_size(string_views(self.preview.removed@), self.idx@, self.pkgs@) <= u64::MAX,
        ensures
            r == removal_size(string_views(self.preview.removed@), self.idx@, self.pkgs@),
    {
        let ghost rv = string_views(self.preview.removed@);
        let mut size: u64 = 0;
        let mut k: usize = 0;
        assert(rv.take(0) =~= Seq::<Seq<char>>::empty());
        while k < self.preview.removed.len()
            invariant
                k <= self.preview.removed.len(),
                rv == string_views(self.preview.removed@),
                self.wf(),
                removal_size(rv, self.idx@, self.pkgs@) <= u64::MAX,
                size == removal_size(rv.take(k as int), self.idx@, self.pkgs@),
            decreases self.preview.removed.len() - k,
        {
            proof {
                assert(rv.take(k + 1).drop_last() =~= rv.take(k as int));
                assert(rv.take(k + 1).last() == self.preview.removed@[k as int]@);
                lemma_removal_size_monotone(rv, self.idx@, self.pkgs@, k + 1);
                lemma_idx_lookup_in_range(self.idx@, rv[k as int], self.pkgs@.len() as int);
            }
            if let Some(i) = lookup(&self.idx, self.preview.removed[k].as_str()) {
                size = size + self.pkgs[i].size;
            }
            k += 1;
        }
        assert(rv.take(k as int) =~= rv);
        size
    }

    /// One-line summary for the bottom prompt line.
    pub fn state_summary(&self) -> (r: String)
        requires
            self.wf(),
        ensures
            r@ == summary_spec(*self),
    {
        let mut r = String::from_str("sort:");
        r.append(self.sort.label());
        r.append(" src:");
        r.append(self.source.label());
        r.append(" show:");
        r.append(self.reason.label());
        r.append(" · ");
        r.append(crate::numbers::decimal_string(self.visible().len() as u64).as_str());
        r.append("/");
        r.append(crate::numbers::decimal_string(self.pkgs.len() as u64).as_str());
        r.append(" shown · ");
        proof {
            string_views(self.checked@).unique_seq_to_set();
        }
        r.append(crate::numbers::decimal_string(self.checked.len() as u64).as_str());
        r.append(" checked");
        r
    }
}

/// The bottom-line summary: sort and filters, how many packages are shown
/// of how many, and how many are checked.
pub open spec fn summary_spec(a: App) -> Seq<char> {
    "sort:"@ + sort_label(a.sort) + " src:"@ + source_label(a.source) + " show:"@ + reason_label(
        a.reason,
    ) + " · "@ + crate::numbers::decimal(a.visible_spec().len()) + "/"@ + crate::numbers::decimal(
        a.pkgs@.len(),
    ) + " shown · "@ + crate::numbers::decimal(string_views(a.checked@).to_set().len())
        + " checked"@
}

/// `set` with `name` added if it was not in it, removed if it was.
pub open spec fn flipped(set: Set<Seq<char>>, name: Seq<char>) -> Set<Seq<char>> {
    if set.contains(name) {
        set.remove(name)
    } else {
        set.insert(name)
    }
}

/// The test "is in the name index `idx`" as a function value.
pub open spec fn indexed(idx: Seq<(String, usize)>) -> spec_fn(Seq<char>) -> bool {
    |n: Seq<char>| idx_lookup(idx, n) is Some
}

impl App {
    /// Checks `name` if it is not checked, else unchecks it.
    fn toggle_name(&mut self, name: String)
        requires
            string_views(old(self).checked@).no_duplicates(),
        ensures
            string_views(final(self).checked@).no_duplicates(),
            string_views(final(self).checked@).to_set() == flipped(
                string_views(old(self).checked@).to_set(),
                name@,
            ),
            *final(self) == (App { checked: final(self).checked, ..*old(self) }),
    {
        let ghost cv = string_views(self.checked@);
        let mut k: usize = 0;
        while k < self.checked.len() && self.checked[k] != name
            invariant
                k <= self.checked.len(),
                cv == string_views(self.checked@),
                forall|j: int| 0 <= j < k ==> cv[j] != name@,
            decreases self.checked.len() - k,
        {
            k += 1;
        }
        if k < self.checked.len() {
            assert(cv[k as int] == name@);
            self.checked.remove(k);
            proof {
                let nv = string_views(self.checked@);
                assert(nv =~= cv.remove(k as int));
                assert forall|a: int, b: int| 0 <= a < b < nv.len() implies nv[a] != nv[b] by {
                    let oa = if a < k { a } else { a + 1 };
                    let ob = if b < k { b } else { b + 1 };
                    assert(nv[a] == cv[oa] && nv[b] == cv[ob]);
                }
                assert forall|e: Seq<char>| nv.to_set().contains(e) <==> cv.to_set().remove(name@).contains(e) by {
                    if nv.contains(e) {
                        let j = choose|j: int| 0 <= j < nv.len() && nv[j] == e;
                        let oj = if j < k { j } else { j + 1 };
                        assert(cv[oj] == e);
                        assert(oj != k);
                    }
                    if cv.contains(e) && e != name@ {
                        let j = choose|j: int| 0 <= j < cv.len() && cv[j] == e;
                        assert(j != k);
                        if j < k {
                            assert(nv[j] == e);
                        } else {
                            assert(nv[j - 1] == e);
                        }
                    }
                }
                assert(nv.to_set() =~= cv.to_set().remove(name@));
                assert(cv.to_set().contains(name@));
            }
        } else {
            let ghost nm = name@;
            self.checked.push(name);
            proof {
                let nv = string_views(self.checked@);
                assert(nv =~= cv.push(nm));
                assert(!cv.contains(nm));
                cv.lemma_push_to_set_commute(nm);
                assert forall|a: int, b: int| 0 <= a < b < nv.len() implies nv[a] != nv[b] by {
                    if b == cv.len() {
                        assert(cv[a] != nm);
                    }
                }
                assert(!cv.to_set().contains(nm));
            }
        }
    }

    /// Checks or unchecks the package under the list cursor, then asks for a
    /// fresh preview; nothing happens when the list is empty.
    pub fn toggle_cursor(&mut self) -> (req: Option<Request>)
        requires
            old(self).wf(),
            old(self).requested < u64::MAX,
        ensures
            final(self).wf(),
            old(self).cursor >= old(self).visible_spec().len() ==> req is None && *final(self)
                == *old(self),
            old(self).cursor < old(self).visible_spec().len() ==> {
                let name = old(self).pkgs@[old(self).visible_spec()[old(self).cursor as int] as int].name@;
                &&& string_views(final(self).checked@).to_set() == flipped(
                    string_views(old(self).checked@).to_set(),
                    name,
                )
                &&& recomputed(App { checked: final(self).checked, ..*old(self) }, *final(self), req)
            },
    {
        match self.cursor_pkg() {
            Some(pi) => {
                let name = self.pkgs[pi].name.clone();
                self.toggle_name(name);
                self.recompute()
            },
            None => None,
        }
    }

    /// Takes a reloaded db: checked names that are no longer installed are
    /// dropped, the cursors go to the top, and a fresh preview is asked for.
    pub fn reload(&mut self, pkgs: Vec<Pkg>, idx: Vec<(String, usize)>) -> (req: Option<Request>)
        requires
            old(self).wf(),
            old(self).requested < u64::MAX,
            idx_in_range(idx@, pkgs@.len() as int),
        ensures
            final(self).wf(),
            string_views(final(self).checked@) == string_views(old(self).checked@).filter(
                indexed(idx@),
            ),
            recomputed(
                App {
                    pkgs,
                    idx,
                    checked: final(self).checked,
                    cursor: 0,
                    preview_cursor: 0,
                    preview_scroll: 0,
                    ..*old(self)
                },
                *final(self),
                req,
            ),
    {
        let ghost cv = string_views(self.checked@);
        let ghost pred = indexed(idx@);
        let mut kept: Vec<String> = Vec::new();
        let mut i: usize = 0;
        proof {
            reveal(Seq::filter);
            assert(cv.take(0).filter(pred) =~= Seq::<Seq<char>>::empty());
            assert(string_views(kept@) =~= Seq::<Seq<char>>::empty());
        }
        while i < self.checked.len()
            invariant
                i <= self.checked.len(),
                cv == string_views(self.checked@),
                pred == indexed(idx@),
                string_views(kept@) == cv.take(i as int).filter(pred),
            decreases self.checked.len() - i,
        {
            proof {
                assert(cv.take(i + 1) =~= cv.take(i as int).push(cv[i as int]));
                cv.take(i as int).lemma_filter_push(cv[i as int], pred);
                assert(cv[i as int] == self.checked@[i as int]@);
            }
            if lookup(&idx, self.checked[i].as_str()).is_some() {
                let ghost before = string_views(kept@);
                let t = self.checked[i].clone();
                kept.push(t);
                assert(string_views(kept@) =~= before.push(cv[i as int]));
            }
            i += 1;
        }
        assert(cv.take(self.checked.len() as int) =~= cv);
        proof {
            let kv = string_views(kept@);
            assert forall|a: int, b: int| 0 <= a < b < kv.len() implies kv[a] != kv[b] by {
                crate::app::lemma_filter_no_duplicates(cv, pred, a, b);
            }
        }
        self.pkgs = pkgs;
        self.idx = idx;
        self.checked = kept;
        self.cursor = 0;
        self.preview_cursor = 0;
        self.preview_scroll = 0;
        self.recompute()
    }
}

/// Filtering keeps a sequence free of duplicates.
proof fn lemma_filter_no_duplicates(s: Seq<Seq<char>>, pred: spec_fn(Seq<char>) -> bool, a: int, b: int)
    requires
        s.no_duplicates(),
        0 <= a < b < s.filter(pred).len(),
    ensures
        s.filter(pred)[a] != s.filter(pred)[b],
    decreases s.len(),
{
    reveal(Seq::filter);
    let f = s.filter(pred);
    if s.len() > 0 {
        let t = s.drop_last();
        assert forall|x: int, y: int| 0 <= x < y < t.len() implies t[x] != t[y] by {
            assert(t[x] == s[x] && t[y] == s[y]);
        }
        if pred(s.last()) {
            assert(f == t.filter(pred).push(s.last()));
            if b == f.len() - 1 {
                assert(t.filter(pred)[a] == f[a]);
                assert(t.filter(pred).contains(f[a]));
                t.lemma_filter_contains_rev(pred, f[a]);
                assert(t.contains(f[a]));
                let j = choose|j: int| 0 <= j < t.len() && t[j] == f[a];
                assert(s[j] == f[a] && j != s.len() - 1);
            } else {
                lemma_filter_no_duplicates(t, pred, a, b);
            }
        } else {
            assert(f == t.filter(pred));
            lemma_filter_no_duplicates(t, pred, a, b);
        }
    }
}

/// Toggling a name twice gives the checked set back.
pub proof fn law_toggle_twice(checked: Set<Seq<char>>, name: Seq<char>)
    ensures
        flipped(flipped(checked, name), name) == checked,
{
    assert(flipped(flipped(checked, name), name) =~= checked);
}

/// After a move the list cursor is on an entry of the list (or 0 when the
/// list is empty); moving changes nothing else.
pub proof fn law_moved_cursor_in_range(a: App, delta: int)
    ensures
        moved_cursor(a, delta).visible_spec() == a.visible_spec(),
        a.visible_spec().len() > 0 ==> moved_cursor(a, delta).cursor < a.visible_spec().len(),
        a.visible_spec().len() == 0 ==> moved_cursor(a, delta).cursor == 0,
{
}

/// After a move the preview cursor is on an entry (or 0 when there are
/// none).
pub proof fn law_moved_preview_cursor_in_range(a: App, delta: int)
    ensures
        moved_preview_cursor(a, delta).entries_spec() == a.entries_spec(),
        a.entries_spec().len() > 0 ==> moved_preview_cursor(a, delta).preview_cursor
            < a.entries_spec().len(),
        a.entries_spec().len() == 0 ==> moved_preview_cursor(a, delta).preview_cursor == 0,
{
}

/// While a preview is asked for, the old one stays visible, marked pending;
/// each request gets a new generation, the one wanted from then on.
pub proof fn law_recompute_keeps_preview(before: App, after: App, req: Option<Request>)
    requires
        recomputed(before, after, req),
        before.checked@.len() > 0,
        before.requested < u64::MAX,
    ensures
        after.preview == before.preview,
        after.preview_pending,
        req matches Some(q) && q.generation == after.preview_gen && q.generation
            > before.requested,
{
}

/// The removal targets are sorted, each once, and are exactly the checked
/// names that are installed.
pub proof fn law_targets_are_installed_checked(a: App)
    ensures
        strictly_sorted(a.targets_spec()),
        forall|n: Seq<char>|
            a.targets_spec().contains(n) <==> string_views(a.checked@).contains(n) && idx_lookup(
                a.idx@,
                n,
            ) is Some,
{
    let s = a.installed_checked();
    let t = a.targets_spec();
    lemma_sorted_set_facts(s);
    assert forall|n: Seq<char>|
        t.contains(n) <==> string_views(a.checked@).contains(n) && idx_lookup(a.idx@, n) is Some by {
        assert(t.contains(n) <==> t.to_set().contains(n));
        assert(string_views(a.checked@).contains(n) <==> string_views(a.checked@).to_set().contains(n));
    }
}

/// The package list: a package is listed exactly when it passes the source
/// filter (all / not foreign / foreign), the reason filter (all / explicit /
/// dependency) and the search, which is empty or occurs, both lowercased,
/// in its name or its description; each at most once. By name the list
/// keeps the db order; by size it goes from largest to smallest, equal sizes
/// in db order.
pub proof fn law_visible_is_the_search(
    v: Seq<usize>,
    pkgs: Seq<Pkg>,
    sort: SortMode,
    source: SourceFilter,
    reason: ReasonFilter,
    filter: Seq<char>,
)
    requires
        is_visible_list(v, pkgs, sort, source, reason, filter),
        pkgs.len() <= usize::MAX,
    ensures
        forall|i: int|
            0 <= i < pkgs.len() ==> (#[trigger] v.contains(i as usize) <==> {
                &&& (source == SourceFilter::All || (source == SourceFilter::Repo && !pkgs[i].foreign)
                    || (source == SourceFilter::Aur && pkgs[i].foreign))
                &&& (reason == ReasonFilter::All || (reason == ReasonFilter::Explicit
                    && !pkgs[i].as_dep) || (reason == ReasonFilter::Dep && pkgs[i].as_dep))
                &&& (filter.len() == 0 || contains(lowercase(pkgs[i].name@), lowercase(filter))
                    || contains(lowercase(pkgs[i].desc@), lowercase(filter)))
            }),
        forall|k: int| 0 <= k < v.len() ==> #[trigger] v[k] < pkgs.len(),
        forall|a: int, b: int|
            0 <= a < b < v.len() ==> #[trigger] v[a] != #[trigger] v[b] && (sort == SortMode::Name
                ==> v[a] < v[b]) && (sort == SortMode::Size ==> pkgs[v[a] as int].size
                >= pkgs[v[b] as int].size) && (sort == SortMode::Size && pkgs[v[a] as int].size
                == pkgs[v[b] as int].size ==> v[a] < v[b]),
{
    assert forall|i: int| 0 <= i < pkgs.len() implies (#[trigger] v.contains(i as usize) <==> {
        &&& (source == SourceFilter::All || (source == SourceFilter::Repo && !pkgs[i].foreign) || (
        source == SourceFilter::Aur && pkgs[i].foreign))
        &&& (reason == ReasonFilter::All || (reason == ReasonFilter::Explicit && !pkgs[i].as_dep)
            || (reason == ReasonFilter::Dep && pkgs[i].as_dep))
        &&& (filter.len() == 0 || contains(lowercase(pkgs[i].name@), lowercase(filter)) || contains(
            lowercase(pkgs[i].desc@),
            lowercase(filter),
        ))
    }) by {
        assert((i as usize) as int == i);
        if v.contains(i as usize) {
            let k = choose|k: int| 0 <= k < v.len() && v[k] == i as usize;
            assert(shows(pkgs, source, reason, filter, v[k] as int));
        }
        if shows(pkgs, source, reason, filter, i) {
            assert(v.contains(i as usize));
        }
    }
    assert forall|k: int| 0 <= k < v.len() implies #[trigger] v[k] < pkgs.len() by {
        assert(shows(pkgs, source, reason, filter, v[k] as int));
    }
}

} // verus!
