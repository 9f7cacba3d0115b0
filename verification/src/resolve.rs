use vstd::prelude::*;
use crate::order::{
    insert_sorted_str, insert_unique, insert_unique_pair, lemma_sort_seq, sort_seq, pair_views, sorted, str_views,
    strictly_sorted, strictly_sorted_pairs,
};
use crate::text::{
    strings_of, decode_lossy, utf8_lossy, chars_of, chars_of_string, join, join_strings, first_word, first_word_chars, has_whitespace, has_ws, lines, lines_of, split_once,
    split_once_chars, starts_with, starts_with_chars, string_of, string_views, strip_prefix,
    strip_prefix_chars, contains, contains_chars, is_ws, lemma_split_after_word, lemma_strip_own_prefix, lemma_word, occurs_at, trim, trim_chars, views,
};

verus! {

broadcast use vstd::seq_lib::group_to_multiset_ensures;

/// Exact removal preview, as `pacman -Rs[c] --print` reports it.
///
/// `-n` (nosave) only affects backup-file handling, not the package set, so
/// `-Rs[c] --print` previews `-Rns[c]` exactly.
#[derive(Debug, Clone)]
pub struct Preview {
    /// Every package pacman would remove (explicit + pulled), sorted.
    pub removed: Vec<String>,
    /// `pacman` error output that isn't a breakage/missing/HoldPkg line.
    pub error: Option<String>,
    /// Checked names that are not installed (`target not found`).
    pub missing: Vec<String>,
    /// `(dependent, requested)` from `removing X breaks dependency ... required by Y`.
    /// Only populated in non-cascade mode (transaction refused).
    pub breakages: Vec<(String, String)>,
    /// A HoldPkg (e.g. pacman) is in the target list; pacman prints no list.
    pub hold_pkg: bool,
}

/// The views of a sequence of string pairs.
pub open spec fn string_pair_views(vs: Seq<(String, String)>) -> Seq<(Seq<char>, Seq<char>)> {
    vs.map_values(|p: (String, String)| (p.0@, p.1@))
}

/// Whether `p` is the empty preview.
pub open spec fn is_empty_preview(p: Preview) -> bool {
    &&& p.removed@.len() == 0
    &&& p.error is None
    &&& p.missing@.len() == 0
    &&& p.breakages@.len() == 0
    &&& !p.hold_pkg
}

impl Default for Preview {
    fn default() -> (p: Self)
        ensures
            is_empty_preview(p),
    {
        Preview {
            removed: Vec::new(),
            error: None,
            missing: Vec::new(),
            breakages: Vec::new(),
            hold_pkg: false,
        }
    }
}

/// Whether the name `n` is in the list `checked`.
pub open spec fn is_checked(checked: Seq<String>, n: Seq<char>) -> bool {
    string_views(checked).contains(n)
}

/// Whether `n` is in `list`.
pub fn contains_string(list: &Vec<String>, n: &String) -> (b: bool)
    ensures
        b == string_views(list@).contains(n@),
{
    let mut i: usize = 0;
    while i < list.len()
        invariant
            i <= list.len(),
            forall|k: int| 0 <= k < i ==> list@[k]@ != n@,
        decreases list.len() - i,
    {
        if list[i] == *n {
            assert(string_views(list@)[i as int] == n@);
            return true;
        }
        i += 1;
    }
    proof {
        if string_views(list@).contains(n@) {
            let k = choose|k: int| 0 <= k < list@.len() && string_views(list@)[k] == n@;
            assert(list@[k]@ == n@);
        }
    }
    false
}

/// The test "is `n` checked" (for `want == true`) or "is it not" (for `want == false`).
pub open spec fn keep(checked: Seq<String>, want: bool) -> spec_fn(Seq<char>) -> bool {
    |n: Seq<char>| is_checked(checked, n) == want
}

impl Preview {
    /// The removed names that are checked, in `removed` order.
    pub open spec fn spec_selected(&self, checked: Seq<String>) -> Seq<Seq<char>> {
        string_views(self.removed@).filter(keep(checked, true))
    }

    /// The removed names that are not checked (pulled in by pacman), in `removed` order.
    pub open spec fn spec_pulled(&self, checked: Seq<String>) -> Seq<Seq<char>> {
        string_views(self.removed@).filter(keep(checked, false))
    }

    fn split_by_checked(&self, checked: &Vec<String>, want: bool) -> (r: Vec<&str>)
        ensures
            sorted(str_views(r@)),
            str_views(r@).to_multiset() == string_views(self.removed@).filter(
                keep(checked@, want),
            ).to_multiset(),
    {
        let ghost pred = keep(checked@, want);
        let ghost all = string_views(self.removed@);
        let mut r: Vec<&str> = Vec::new();
        let mut i: usize = 0;
        proof {
            reveal(Seq::filter);
            assert(all.take(0).filter(pred) =~= Seq::<Seq<char>>::empty());
            assert(str_views(r@) =~= Seq::<Seq<char>>::empty());
        }
        while i < self.removed.len()
            invariant
                i <= self.removed.len(),
                all == string_views(self.removed@),
                pred == keep(checked@, want),
                sorted(str_views(r@)),
                str_views(r@).to_multiset() == all.take(i as int).filter(pred).to_multiset(),
            decreases self.removed.len() - i,
        {
            let c = contains_string(checked, &self.removed[i]);
            proof {
                assert(all.take(i + 1) =~= all.take(i as int).push(all[i as int]));
                all.take(i as int).lemma_filter_push(all[i as int], pred);
            }
            let ghost prev = all.take(i as int).filter(pred);
            assert(all[i as int] == self.removed@[i as int]@);
            assert(pred(all[i as int]) == (c == want));
            if c == want {
                insert_sorted_str(&mut r, self.removed[i].as_str());
                assert(prev.push(all[i as int]).to_multiset() =~= prev.to_multiset().insert(
                    all[i as int],
                ));
            }
            i += 1;
        }
        assert(all.take(self.removed.len() as int) =~= all);
        r
    }

    /// The removed names that the user checked, sorted.
    pub fn selected(&self, checked: &Vec<String>) -> (r: Vec<&str>)
        ensures
            str_views(r@) == sort_seq(self.spec_selected(checked@)),
    {
        let r = self.split_by_checked(checked, true);
        proof {
            lemma_sort_seq(str_views(r@), self.spec_selected(checked@));
        }
        r
    }

    /// The removed names that pacman pulls in (not checked), sorted.
    pub fn pulled(&self, checked: &Vec<String>) -> (r: Vec<&str>)
        ensures
            str_views(r@) == sort_seq(self.spec_pulled(checked@)),
    {
        let r = self.split_by_checked(checked, false);
        proof {
            lemma_sort_seq(str_views(r@), self.spec_pulled(checked@));
        }
        r
    }
}

/// The dependent and the requested package named by a
/// `:: removing X breaks dependency '...' required by Y` line: `(Y, X)`.
#[verifier::opaque]
pub open spec fn breakage_of(l: Seq<char>) -> Option<(Seq<char>, Seq<char>)> {
    match strip_prefix(l, ":: removing "@) {
        None => None,
        Some(rest) => match split_once(rest, " breaks dependency "@) {
            None => None,
            Some((target, tail)) => match split_once(tail, " required by "@) {
                None => None,
                Some((_, dependent)) => match first_word(dependent) {
                    None => None,
                    Some(dep) => Some((dep, trim(target))),
                },
            },
        },
    }
}

/// The text pacman prints when a HoldPkg is among the targets.
pub open spec fn hold_marker() -> Seq<char> {
    "HoldPkg was found in target list"@
}

fn breakage_chars(l: &Vec<char>) -> (r: Option<(Vec<char>, Vec<char>)>)
    ensures
        match r {
            Some(p) => breakage_of(l@) == Some((p.0@, p.1@)),
            None => breakage_of(l@) is None,
        },
{
    reveal(breakage_of);
    let rest = match strip_prefix_chars(l, &chars_of(":: removing ")) {
        Some(rest) => rest,
        None => return None,
    };
    let (target, tail) = match split_once_chars(&rest, &chars_of(" breaks dependency ")) {
        Some(p) => p,
        None => return None,
    };
    let (_, dependent) = match split_once_chars(&tail, &chars_of(" required by ")) {
        Some(p) => p,
        None => return None,
    };
    let dep = match first_word_chars(&dependent) {
        Some(d) => d,
        None => return None,
    };
    Some((dep, trim_chars(&target)))
}

/// Parses one `:: removing X breaks dependency '...' required by Y` line
/// into `(Y, X)`. These lines go to stdout, the same stream as the package list.
pub fn parse_breakage(l: &str) -> (r: Option<(String, String)>)
    ensures
        match r {
            Some(p) => breakage_of(l@) == Some((p.0@, p.1@)),
            None => breakage_of(l@) is None,
        },
{
    match breakage_chars(&chars_of(l)) {
        Some((a, b)) => Some((string_of(&a), string_of(&b))),
        None => None,
    }
}

/// The lines of `s`, each trimmed.
pub open spec fn trimmed_lines(s: Seq<char>) -> Seq<Seq<char>> {
    lines(s).map_values(|l: Seq<char>| trim(l))
}

/// A trimmed stdout line that names a package: not empty, not a breakage
/// line, not the HoldPkg prompt, not other `::` chatter, no whitespace.
#[verifier::opaque]
pub open spec fn stdout_name(t: Seq<char>) -> bool {
    &&& t.len() > 0
    &&& breakage_of(t) is None
    &&& !contains(t, hold_marker())
    &&& !starts_with(t, "::"@)
    &&& !has_ws(t)
}

/// A trimmed line that reports the HoldPkg prompt.
#[verifier::opaque]
pub open spec fn hold_line(t: Seq<char>) -> bool {
    breakage_of(t) is None && contains(t, hold_marker())
}

/// The test `stdout_name` as a function value.
pub open spec fn stdout_name_test() -> spec_fn(Seq<char>) -> bool {
    |t: Seq<char>| stdout_name(t)
}

/// The package names of stdout.
pub open spec fn stdout_names(s: Seq<char>) -> Set<Seq<char>> {
    trimmed_lines(s).filter(stdout_name_test()).to_set()
}

/// The breakages reported in `s`.
pub open spec fn breakages_in(s: Seq<char>) -> Set<(Seq<char>, Seq<char>)> {
    Set::new(
        |b: (Seq<char>, Seq<char>)|
            exists|i: int|
                0 <= i < trimmed_lines(s).len() && breakage_of(#[trigger] trimmed_lines(s)[i])
                    == Some(b),
    )
}

/// Whether `s` reports the HoldPkg prompt.
pub open spec fn reports_hold(s: Seq<char>) -> bool {
    exists|i: int| 0 <= i < trimmed_lines(s).len() && hold_line(#[trigger] trimmed_lines(s)[i])
}

proof fn lemma_hold_marker_not_empty()
    ensures
        hold_marker().len() > 0,
{
    reveal_strlit("HoldPkg was found in target list");
}


/// The pairs of `v` as string pairs.
fn string_pairs_of(v: &Vec<(Vec<char>, Vec<char>)>) -> (r: Vec<(String, String)>)
    ensures
        string_pair_views(r@) == pair_views(v@),
{
    let mut r: Vec<(String, String)> = Vec::new();
    let mut j: usize = 0;
    while j < v.len()
        invariant
            j <= v.len(),
            string_pair_views(r@) == pair_views(v@).take(j as int),
        decreases v.len() - j,
    {
        let x = (string_of(&v[j].0), string_of(&v[j].1));
        let ghost before = string_pair_views(r@);
        let ghost xv = (x.0@, x.1@);
        r.push(x);
        assert(string_pair_views(r@) =~= before.push(xv));
        assert(pair_views(v@)[j as int] == xv);
        j += 1;
        assert(string_pair_views(r@) =~= pair_views(v@).take(j as int));
    }
    assert(pair_views(v@).take(v.len() as int) =~= pair_views(v@));
    r
}

/// Adds the breakage reported by `l`, if any, to the sorted set `breakages`;
/// returns whether there was one.
fn absorb_breakage(l: &Vec<char>, breakages: &mut Vec<(Vec<char>, Vec<char>)>) -> (found: bool)
    requires
        strictly_sorted_pairs(pair_views(old(breakages)@)),
    ensures
        found == breakage_of(l@) is Some,
        strictly_sorted_pairs(pair_views(final(breakages)@)),
        pair_views(final(breakages)@).to_set() == match breakage_of(l@) {
            Some(b) => pair_views(old(breakages)@).to_set().insert(b),
            None => pair_views(old(breakages)@).to_set(),
        },
{
    match breakage_chars(l) {
        Some(b) => {
            insert_unique_pair(breakages, b);
            true
        },
        None => false,
    }
}

/// One trimmed stdout line, added to what the lines before it gave.
fn absorb_stdout_line(
    l: Vec<char>,
    removed: &mut Vec<Vec<char>>,
    breakages: &mut Vec<(Vec<char>, Vec<char>)>,
    hold_pkg: &mut bool,
)
    requires
        strictly_sorted(views(old(removed)@)),
        strictly_sorted_pairs(pair_views(old(breakages)@)),
    ensures
        strictly_sorted(views(final(removed)@)),
        views(final(removed)@).to_set() == if stdout_name(l@) {
            views(old(removed)@).to_set().insert(l@)
        } else {
            views(old(removed)@).to_set()
        },
        strictly_sorted_pairs(pair_views(final(breakages)@)),
        pair_views(final(breakages)@).to_set() == match breakage_of(l@) {
            Some(b) => pair_views(old(breakages)@).to_set().insert(b),
            None => pair_views(old(breakages)@).to_set(),
        },
        *final(hold_pkg) == (*old(hold_pkg) || hold_line(l@)),
{
    reveal(stdout_name);
    reveal(hold_line);
    if l.len() == 0 {
        proof {
            reveal(breakage_of);
            reveal_strlit(":: removing ");
            assert(!contains(l@, hold_marker())) by {
                lemma_hold_marker_not_empty();
            }
        }
        return;
    }
    if absorb_breakage(&l, breakages) {
        return;
    }
    if contains_chars(&l, &chars_of("HoldPkg was found in target list")) {
        *hold_pkg = true;
    } else if starts_with_chars(&l, &chars_of("::")) || has_whitespace(&l) {
    } else {
        insert_unique(removed, l);
    }
}

/// Parses stdout of `pacman --print --print-format %n`: bare names on
/// success; `:: removing …` breakage lines and the HoldPkg prompt on
/// failure. Returns (removed, breakages, hold_pkg), the first two sorted
/// without duplicates.
pub fn parse_stdout(stdout: &str) -> (r: (Vec<String>, Vec<(String, String)>, bool))
    ensures
        strictly_sorted(string_views(r.0@)),
        string_views(r.0@).to_set() == stdout_names(stdout@),
        strictly_sorted_pairs(string_pair_views(r.1@)),
        string_pair_views(r.1@).to_set() == breakages_in(stdout@),
        r.2 == reports_hold(stdout@),
{
    let ls = lines_of(&chars_of(stdout));
    let ghost tl = trimmed_lines(stdout@);
    let ghost name_pred = stdout_name_test();
    let mut removed: Vec<Vec<char>> = Vec::new();
    let mut breakages: Vec<(Vec<char>, Vec<char>)> = Vec::new();
    let mut hold_pkg = false;
    let mut i: usize = 0;
    proof {
        reveal(Seq::filter);
        assert(tl.take(0).filter(name_pred) =~= Seq::<Seq<char>>::empty());
        assert(views(removed@) =~= Seq::<Seq<char>>::empty());
        assert(pair_views(breakages@) =~= Seq::<(Seq<char>, Seq<char>)>::empty());
    }
    while i < ls.len()
        invariant
            i <= ls.len(),
            views(ls@) == lines(stdout@),
            tl == trimmed_lines(stdout@),
            tl.len() == ls.len(),
            name_pred == stdout_name_test(),
            strictly_sorted(views(removed@)),
            views(removed@).to_set() == tl.take(i as int).filter(name_pred).to_set(),
            strictly_sorted_pairs(pair_views(breakages@)),
            forall|b: (Seq<char>, Seq<char>)|
                pair_views(breakages@).to_set().contains(b) <==> exists|k: int|
                    0 <= k < i && breakage_of(#[trigger] tl[k]) == Some(b),
            hold_pkg == exists|k: int| 0 <= k < i && hold_line(#[trigger] tl[k]),
        decreases ls.len() - i,
    {
        let l = trim_chars(&ls[i]);
        assert(l@ == tl[i as int]) by {
            assert(views(ls@)[i as int] == ls@[i as int]@);
        }
        let ghost prev_names = tl.take(i as int).filter(name_pred);
        let ghost lv = l@;
        proof {
            assert(tl.take(i + 1) =~= tl.take(i as int).push(tl[i as int]));
            tl.take(i as int).lemma_filter_push(tl[i as int], name_pred);
            prev_names.lemma_push_to_set_commute(lv);
        }
        absorb_stdout_line(l, &mut removed, &mut breakages, &mut hold_pkg);
        proof {
            assert forall|x: (Seq<char>, Seq<char>)|
                pair_views(breakages@).to_set().contains(x) <==> exists|k: int|
                    0 <= k < i + 1 && breakage_of(#[trigger] tl[k]) == Some(x) by {
                if breakage_of(tl[i as int]) == Some(x) {
                }
            }
        }
        i += 1;
    }
    assert(tl.take(ls.len() as int) =~= tl);
    let names = strings_of(&removed);
    let pairs = string_pairs_of(&breakages);
    assert(string_pair_views(pairs@).to_set() =~= breakages_in(stdout@));
    (names, pairs, hold_pkg)
}

/// The prefix of pacman's report of a target that is not installed.
pub open spec fn not_found_prefix() -> Seq<char> {
    "error: target not found: "@
}

/// The package that a trimmed stderr line reports as not installed.
#[verifier::opaque]
pub open spec fn missing_of(t: Seq<char>) -> Option<Seq<char>> {
    if breakage_of(t) is None {
        match strip_prefix(t, not_found_prefix()) {
            Some(name) => first_word(name),
            None => None,
        }
    } else {
        None
    }
}

/// A trimmed stderr line that reports the HoldPkg prompt.
#[verifier::opaque]
pub open spec fn stderr_hold_line(t: Seq<char>) -> bool {
    &&& breakage_of(t) is None
    &&& strip_prefix(t, not_found_prefix()) is None
    &&& contains(t, hold_marker())
}

/// A trimmed stderr line kept as error text: not empty and none of the above.
#[verifier::opaque]
pub open spec fn stderr_other_line(t: Seq<char>) -> bool {
    &&& t.len() > 0
    &&& breakage_of(t) is None
    &&& strip_prefix(t, not_found_prefix()) is None
    &&& !contains(t, hold_marker())
}

/// The test `stderr_other_line` as a function value.
pub open spec fn stderr_other_test() -> spec_fn(Seq<char>) -> bool {
    |t: Seq<char>| stderr_other_line(t)
}

/// The names reported as not installed in `s`.
pub open spec fn missing_in(s: Seq<char>) -> Set<Seq<char>> {
    Set::new(
        |n: Seq<char>|
            exists|i: int|
                0 <= i < trimmed_lines(s).len() && missing_of(#[trigger] trimmed_lines(s)[i])
                    == Some(n),
    )
}

/// Whether stderr text `s` reports the HoldPkg prompt.
pub open spec fn stderr_reports_hold(s: Seq<char>) -> bool {
    exists|i: int|
        0 <= i < trimmed_lines(s).len() && stderr_hold_line(#[trigger] trimmed_lines(s)[i])
}

/// The error lines of stderr text `s`, in order.
pub open spec fn stderr_others(s: Seq<char>) -> Seq<Seq<char>> {
    trimmed_lines(s).filter(stderr_other_test())
}

/// One trimmed stderr line, added to what the lines before it gave.
fn absorb_stderr_line(
    l: Vec<char>,
    breakages: &mut Vec<(Vec<char>, Vec<char>)>,
    missing: &mut Vec<Vec<char>>,
    hold_pkg: &mut bool,
    other: &mut Vec<String>,
)
    requires
        strictly_sorted_pairs(pair_views(old(breakages)@)),
        strictly_sorted(views(old(missing)@)),
    ensures
        strictly_sorted_pairs(pair_views(final(breakages)@)),
        pair_views(final(breakages)@).to_set() == match breakage_of(l@) {
            Some(b) => pair_views(old(breakages)@).to_set().insert(b),
            None => pair_views(old(breakages)@).to_set(),
        },
        strictly_sorted(views(final(missing)@)),
        views(final(missing)@).to_set() == match missing_of(l@) {
            Some(n) => views(old(missing)@).to_set().insert(n),
            None => views(old(missing)@).to_set(),
        },
        *final(hold_pkg) == (*old(hold_pkg) || stderr_hold_line(l@)),
        string_views(final(other)@) == if stderr_other_line(l@) {
            string_views(old(other)@).push(l@)
        } else {
            string_views(old(other)@)
        },
{
    reveal(missing_of);
    reveal(stderr_hold_line);
    reveal(stderr_other_line);
    if absorb_breakage(&l, breakages) {
        return;
    }
    match strip_prefix_chars(&l, &chars_of("error: target not found: ")) {
        Some(name) => {
            match first_word_chars(&name) {
                Some(n) => insert_unique(missing, n),
                None => {},
            }
        },
        None => {
            if contains_chars(&l, &chars_of("HoldPkg was found in target list")) {
                *hold_pkg = true;
            } else if l.len() > 0 {
                let t = string_of(&l);
                let ghost before = string_views(other@);
                other.push(t);
                assert(string_views(other@) =~= before.push(l@));
            }
        },
    }
}

/// Parses stderr: `error: target not found`, the transaction summary, and
/// (defensively) breakage/HoldPkg lines should they ever land there.
/// Returns (breakages, missing, hold_pkg, other_lines); the first two sorted
/// without duplicates, the last in the order of the input.
pub fn parse_stderr(stderr: &str) -> (r: (Vec<(String, String)>, Vec<String>, bool, Vec<String>))
    ensures
        strictly_sorted_pairs(string_pair_views(r.0@)),
        string_pair_views(r.0@).to_set() == breakages_in(stderr@),
        strictly_sorted(string_views(r.1@)),
        string_views(r.1@).to_set() == missing_in(stderr@),
        r.2 == stderr_reports_hold(stderr@),
        string_views(r.3@) == stderr_others(stderr@),
{
    let ls = lines_of(&chars_of(stderr));
    let ghost tl = trimmed_lines(stderr@);
    let ghost other_pred = stderr_other_test();
    let mut breakages: Vec<(Vec<char>, Vec<char>)> = Vec::new();
    let mut missing: Vec<Vec<char>> = Vec::new();
    let mut hold_pkg = false;
    let mut other: Vec<String> = Vec::new();
    let mut i: usize = 0;
    proof {
        reveal(Seq::filter);
        assert(tl.take(0).filter(other_pred) =~= Seq::<Seq<char>>::empty());
        assert(views(missing@) =~= Seq::<Seq<char>>::empty());
        assert(string_views(other@) =~= Seq::<Seq<char>>::empty());
        assert(pair_views(breakages@) =~= Seq::<(Seq<char>, Seq<char>)>::empty());
    }
    while i < ls.len()
        invariant
            i <= ls.len(),
            views(ls@) == lines(stderr@),
            tl == trimmed_lines(stderr@),
            tl.len() == ls.len(),
            other_pred == stderr_other_test(),
            strictly_sorted_pairs(pair_views(breakages@)),
            forall|b: (Seq<char>, Seq<char>)|
                pair_views(breakages@).to_set().contains(b) <==> exists|k: int|
                    0 <= k < i && breakage_of(#[trigger] tl[k]) == Some(b),
            strictly_sorted(views(missing@)),
            forall|n: Seq<char>|
                views(missing@).to_set().contains(n) <==> exists|k: int|
                    0 <= k < i && missing_of(#[trigger] tl[k]) == Some(n),
            hold_pkg == exists|k: int| 0 <= k < i && stderr_hold_line(#[trigger] tl[k]),
            string_views(other@) == tl.take(i as int).filter(other_pred),
        decreases ls.len() - i,
    {
        let l = trim_chars(&ls[i]);
        assert(l@ == tl[i as int]) by {
            assert(views(ls@)[i as int] == ls@[i as int]@);
        }
        proof {
            assert(tl.take(i + 1) =~= tl.take(i as int).push(tl[i as int]));
            tl.take(i as int).lemma_filter_push(tl[i as int], other_pred);
        }
        absorb_stderr_line(l, &mut breakages, &mut missing, &mut hold_pkg, &mut other);
        proof {
            assert forall|x: (Seq<char>, Seq<char>)|
                pair_views(breakages@).to_set().contains(x) <==> exists|k: int|
                    0 <= k < i + 1 && breakage_of(#[trigger] tl[k]) == Some(x) by {
                if breakage_of(tl[i as int]) == Some(x) {
                }
            }
            assert forall|n: Seq<char>|
                views(missing@).to_set().contains(n) <==> exists|k: int|
                    0 <= k < i + 1 && missing_of(#[trigger] tl[k]) == Some(n) by {
                if missing_of(tl[i as int]) == Some(n) {
                }
            }
        }
        i += 1;
    }
    assert(tl.take(ls.len() as int) =~= tl);
    let pairs = string_pairs_of(&breakages);
    let names = strings_of(&missing);
    assert(string_pair_views(pairs@).to_set() =~= breakages_in(stderr@));
    assert(string_views(names@).to_set() =~= missing_in(stderr@));
    (pairs, names, hold_pkg, other)
}

/// The start of pacman's summary line for a refused transaction.
pub open spec fn prepare_failure() -> Seq<char> {
    "error: failed to prepare transaction"@
}

/// The breakages that stdout and stderr report together.
pub open spec fn all_breakages(out: Seq<char>, err: Seq<char>) -> Set<(Seq<char>, Seq<char>)> {
    breakages_in(out).union(breakages_in(err))
}

/// The test "does not start with the refused-transaction summary" as a function value.
pub open spec fn not_prepare_failure() -> spec_fn(Seq<char>) -> bool {
    |l: Seq<char>| !starts_with(l, prepare_failure())
}

/// The stderr error lines that stay in the preview: the refused-transaction
/// summary is dropped when breakage lines explain the failure.
pub open spec fn kept_errors(out: Seq<char>, err: Seq<char>) -> Seq<Seq<char>> {
    if all_breakages(out, err) =~= Set::empty() {
        stderr_others(err)
    } else {
        stderr_others(err).filter(not_prepare_failure())
    }
}

/// The error text of the preview: the kept error lines joined by newlines, if any.
pub open spec fn error_text(out: Seq<char>, err: Seq<char>) -> Option<Seq<char>> {
    let kept = kept_errors(out, err);
    if kept.len() == 0 {
        None
    } else {
        Some(join(kept, "\n"@))
    }
}

/// The view of an optional string.
pub open spec fn opt_string_view(o: Option<String>) -> Option<Seq<char>> {
    match o {
        Some(s) => Some(s@),
        None => None,
    }
}

/// The preview that pacman's stdout `out` and stderr `err` describe.
pub open spec fn preview_describes(p: Preview, out: Seq<char>, err: Seq<char>, cascade: bool) -> bool {
    &&& strictly_sorted(string_views(p.removed@))
    &&& string_views(p.removed@).to_set() == stdout_names(out)
    &&& strictly_sorted(string_views(p.missing@))
    &&& string_views(p.missing@).to_set() == missing_in(err)
    &&& cascade ==> p.breakages@.len() == 0
    &&& !cascade ==> strictly_sorted_pairs(string_pair_views(p.breakages@))
    &&& !cascade ==> string_pair_views(p.breakages@).to_set() == all_breakages(out, err)
    &&& p.hold_pkg == (reports_hold(out) || stderr_reports_hold(err))
    &&& opt_string_view(p.error) == error_text(out, err)
}

/// The union of two strictly sorted pair lists, strictly sorted.
fn merge_pairs(a: Vec<(String, String)>, b: &Vec<(String, String)>) -> (r: Vec<(String, String)>)
    requires
        strictly_sorted_pairs(string_pair_views(a@)),
    ensures
        strictly_sorted_pairs(string_pair_views(r@)),
        string_pair_views(r@).to_set() == string_pair_views(a@).to_set().union(
            string_pair_views(b@).to_set(),
        ),
{
    let mut acc: Vec<(Vec<char>, Vec<char>)> = Vec::new();
    let mut i: usize = 0;
    while i < a.len()
        invariant
            i <= a.len(),
            pair_views(acc@) == string_pair_views(a@).take(i as int),
        decreases a.len() - i,
    {
        let x = (chars_of_string(&a[i].0), chars_of_string(&a[i].1));
        let ghost before = pair_views(acc@);
        let ghost xv = (x.0@, x.1@);
        acc.push(x);
        assert(pair_views(acc@) =~= before.push(xv));
        assert(string_pair_views(a@)[i as int] == xv);
        i += 1;
        assert(pair_views(acc@) =~= string_pair_views(a@).take(i as int));
    }
    assert(string_pair_views(a@).take(a.len() as int) =~= string_pair_views(a@));
    let ghost sa = string_pair_views(a@).to_set();
    let ghost sb = string_pair_views(b@);
    let mut j: usize = 0;
    while j < b.len()
        invariant
            j <= b.len(),
            sb == string_pair_views(b@),
            strictly_sorted_pairs(pair_views(acc@)),
            pair_views(acc@).to_set() == sa.union(sb.take(j as int).to_set()),
        decreases b.len() - j,
    {
        let x = (chars_of_string(&b[j].0), chars_of_string(&b[j].1));
        proof {
            assert(sb[j as int] == (x.0@, x.1@));
            assert(sb.take(j + 1) =~= sb.take(j as int).push(sb[j as int]));
            sb.take(j as int).lemma_push_to_set_commute(sb[j as int]);
        }
        insert_unique_pair(&mut acc, x);
        j += 1;
        assert(pair_views(acc@).to_set() =~= sa.union(sb.take(j as int).to_set()));
    }
    assert(sb.take(b.len() as int) =~= sb);
    string_pairs_of(&acc)
}

/// The lines of `other` that do not start with the refused-transaction summary.
fn drop_prepare_failure(other: Vec<String>) -> (r: Vec<String>)
    ensures
        string_views(r@) == string_views(other@).filter(not_prepare_failure()),
{
    let ghost ov = string_views(other@);
    let pat = chars_of("error: failed to prepare transaction");
    let mut r: Vec<String> = Vec::new();
    let mut i: usize = 0;
    proof {
        reveal(Seq::filter);
        assert(ov.take(0).filter(not_prepare_failure()) =~= Seq::<Seq<char>>::empty());
        assert(string_views(r@) =~= Seq::<Seq<char>>::empty());
    }
    while i < other.len()
        invariant
            i <= other.len(),
            ov == string_views(other@),
            pat@ == prepare_failure(),
            string_views(r@) == ov.take(i as int).filter(not_prepare_failure()),
        decreases other.len() - i,
    {
        proof {
            assert(ov.take(i + 1) =~= ov.take(i as int).push(ov[i as int]));
            ov.take(i as int).lemma_filter_push(ov[i as int], not_prepare_failure());
            assert(ov[i as int] == other@[i as int]@);
        }
        if !starts_with_chars(&chars_of_string(&other[i]), &pat) {
            let ghost before = string_views(r@);
            let t = other[i].clone();
            r.push(t);
            assert(string_views(r@) =~= before.push(ov[i as int]));
        }
        i += 1;
    }
    assert(ov.take(other.len() as int) =~= ov);
    r
}

/// The preview that pacman's stdout and stderr text describe, for a run
/// with (`cascade`) or without `-c`.
pub fn preview_from_text(stdout: &str, stderr: &str, cascade: bool) -> (p: Preview)
    ensures
        preview_describes(p, stdout@, stderr@, cascade),
{
    let (removed, out_breakages, out_hold) = parse_stdout(stdout);
    let (err_breakages, missing, err_hold, other) = parse_stderr(stderr);
    let breakages = merge_pairs(out_breakages, &err_breakages);
    let kept = if breakages.len() > 0 {
        proof {
            let b = string_pair_views(breakages@)[0];
            assert(string_pair_views(breakages@).to_set().contains(b));
            assert(!(all_breakages(stdout@, stderr@) =~= Set::empty()));
        }
        drop_prepare_failure(other)
    } else {
        proof {
            assert(all_breakages(stdout@, stderr@) =~= Set::empty()) by {
                assert forall|x| !all_breakages(stdout@, stderr@).contains(x) by {
                    if all_breakages(stdout@, stderr@).contains(x) {
                        assert(string_pair_views(breakages@).to_set().contains(x));
                    }
                }
            }
        }
        other
    };
    let error = if kept.len() == 0 {
        None
    } else {
        Some(join_strings(&kept, "\n"))
    };
    Preview {
        removed,
        error,
        missing,
        breakages: if cascade {
            Vec::new()
        } else {
            breakages
        },
        hold_pkg: out_hold || err_hold,
    }
}

/// The preview when pacman could not be run at all: nothing but the error,
/// `failed to run pacman: ` and the reason `detail`.
pub fn spawn_failure_preview(detail: &str) -> (p: Preview)
    ensures
        p.error matches Some(e) && e@ == "failed to run pacman: "@ + detail@,
        p.removed@.len() == 0,
        p.missing@.len() == 0,
        p.breakages@.len() == 0,
        !p.hold_pkg,
{
    let mut e = String::from_str("failed to run pacman: ");
    e.append(detail);
    Preview { removed: Vec::new(), error: Some(e), missing: Vec::new(), breakages: Vec::new(), hold_pkg: false }
}

/// The preview that pacman's raw stdout and stderr bytes describe.
pub fn preview_from_output(stdout: &[u8], stderr: &[u8], cascade: bool) -> (p: Preview)
    ensures
        preview_describes(p, utf8_lossy(stdout@), utf8_lossy(stderr@), cascade),
{
    let out = decode_lossy(stdout);
    let err = decode_lossy(stderr);
    preview_from_text(out.as_str(), err.as_str(), cascade)
}

/// The arguments of the preview run: `pacman -Rs [-c] --print --noconfirm
/// --print-format %n <targets>`, without the program name.
pub open spec fn preview_args_spec(targets: Seq<Seq<char>>, cascade: bool) -> Seq<Seq<char>> {
    seq!["-Rs"@] + (if cascade {
        seq!["-c"@]
    } else {
        seq![]
    }) + seq!["--print"@, "--noconfirm"@, "--print-format"@, "%n"@] + targets
}

/// Appends clones of `items` to `v`.
pub fn extend_cloned(v: &mut Vec<String>, items: &[String])
    ensures
        string_views(final(v)@) == string_views(old(v)@) + string_views(items@),
{
    let ghost start = string_views(v@);
    let mut i: usize = 0;
    while i < items.len()
        invariant
            i <= items.len(),
            string_views(v@) == start + string_views(items@).take(i as int),
        decreases items.len() - i,
    {
        let ghost before = string_views(v@);
        let t = items[i].clone();
        v.push(t);
        assert(string_views(v@) =~= before.push(items@[i as int]@));
        i += 1;
        assert(string_views(items@).take(i as int) =~= string_views(items@).take(i - 1).push(
            items@[i - 1]@,
        ));
        assert(string_views(v@) =~= start + string_views(items@).take(i as int));
    }
    assert(string_views(items@).take(items.len() as int) =~= string_views(items@));
}

/// The arguments for `pacman` that ask for the removal preview of `targets`.
pub fn preview_args(targets: &[String], cascade: bool) -> (args: Vec<String>)
    ensures
        string_views(args@) == preview_args_spec(string_views(targets@), cascade),
{
    let mut args: Vec<String> = Vec::new();
    args.push(String::from_str("-Rs"));
    if cascade {
        args.push(String::from_str("-c"));
    }
    args.push(String::from_str("--print"));
    args.push(String::from_str("--noconfirm"));
    args.push(String::from_str("--print-format"));
    args.push(String::from_str("%n"));
    extend_cloned(&mut args, targets);
    assert(string_views(args@) =~= preview_args_spec(string_views(targets@), cascade));
    args
}

/// The preview among `results` that answers request `want`: the last one
/// with that generation; results of other (stale) generations are dropped.
pub fn latest_for_generation(results: Vec<(u64, Preview)>, want: u64) -> (r: Option<Preview>)
    ensures
        match r {
            Some(p) => exists|i: int|
                #![trigger results@[i]]
                0 <= i < results@.len() && results@[i] == (want, p) && forall|j: int|
                    i < j < results@.len() ==> (#[trigger] results@[j]).0 != want,
            None => forall|i: int| 0 <= i < results@.len() ==> (#[trigger] results@[i]).0 != want,
        },
{
    let n = results.len();
    let mut k: usize = n;
    let mut found = false;
    while k > 0 && !found
        invariant
            k <= n == results.len(),
            found ==> k > 0 && results@[k - 1].0 == want,
            forall|j: int| k <= j < n && !(found && j == k - 1)
                ==> (#[trigger] results@[j]).0 != want,
        decreases k + (if found { 0int } else { 1int }),
    {
        if results[k - 1].0 == want {
            found = true;
        } else {
            k -= 1;
        }
    }
    if !found {
        return None;
    }
    let ghost rs = results@;
    let mut rest = results;
    rest.truncate(k);
    let last = rest.pop();
    assert(last == Some(rs[k - 1]));
    match last {
        Some((_, p)) => {
            assert(rs[k - 1] == (want, p));
            Some(p)
        },
        None => None,
    }
}

/// A request for a fresh preview, to be answered with its generation.
pub struct Request {
    pub generation: u64,
    pub targets: Vec<String>,
    pub cascade: bool,
}

proof fn lemma_filter_split(s: Seq<Seq<char>>, checked: Seq<String>)
    ensures
        s.filter(keep(checked, true)).to_multiset().add(s.filter(keep(checked, false)).to_multiset())
            == s.to_multiset(),
    decreases s.len(),
{
    let yes = keep(checked, true);
    let no = keep(checked, false);
    if s.len() == 0 {
        reveal(Seq::filter);
        assert(s.filter(yes) =~= Seq::<Seq<char>>::empty());
        assert(s.filter(no) =~= Seq::<Seq<char>>::empty());
        assert(s.filter(yes).to_multiset().add(s.filter(no).to_multiset()) =~= s.to_multiset());
    } else {
        let t = s.drop_last();
        let x = s.last();
        assert(s =~= t.push(x));
        t.lemma_filter_push(x, yes);
        t.lemma_filter_push(x, no);
        lemma_filter_split(t, checked);
        if yes(x) {
            assert(s.filter(yes).to_multiset() =~= t.filter(yes).to_multiset().insert(x));
            assert(s.filter(no) == t.filter(no));
        } else {
            assert(s.filter(no).to_multiset() =~= t.filter(no).to_multiset().insert(x));
            assert(s.filter(yes) == t.filter(yes));
        }
        assert(s.filter(yes).to_multiset().add(s.filter(no).to_multiset()) =~= s.to_multiset());
    }
}

/// The preview pane splits what pacman removes: each removed package is
/// either one that was checked or one pulled in, never both, none lost.
pub proof fn law_selected_and_pulled_split_removed(p: Preview, checked: Seq<String>)
    ensures
        p.spec_selected(checked).to_multiset().add(p.spec_pulled(checked).to_multiset())
            == string_views(p.removed@).to_multiset(),
        forall|n: Seq<char>| #[trigger] p.spec_selected(checked).contains(n) ==> is_checked(checked, n),
        forall|n: Seq<char>| #[trigger] p.spec_pulled(checked).contains(n) ==> !is_checked(checked, n),
{
    broadcast use vstd::seq_lib::group_filter_ensures;

    lemma_filter_split(string_views(p.removed@), checked);
    assert forall|n: Seq<char>| #[trigger] p.spec_selected(checked).contains(n) implies is_checked(
        checked,
        n,
    ) by {
        let s = p.spec_selected(checked);
        let i = choose|i: int| 0 <= i < s.len() && s[i] == n;
        assert(keep(checked, true)(s[i]));
    }
    assert forall|n: Seq<char>| #[trigger] p.spec_pulled(checked).contains(n) implies !is_checked(
        checked,
        n,
    ) by {
        let s = p.spec_pulled(checked);
        let i = choose|i: int| 0 <= i < s.len() && s[i] == n;
        assert(keep(checked, false)(s[i]));
    }
}

/// In cascade mode nothing blocks the removal: no breakages are reported.
pub proof fn law_cascade_reports_no_breakages(p: Preview, out: Seq<char>, err: Seq<char>)
    requires
        preview_describes(p, out, err, true),
    ensures
        p.breakages@.len() == 0,
{
}

/// What stdout yields as package names are single words: never empty,
/// never a breakage line, never `::` chatter, never holding whitespace.
pub proof fn law_stdout_names_are_words(out: Seq<char>, n: Seq<char>)
    requires
        stdout_names(out).contains(n),
    ensures
        n.len() > 0,
        !has_ws(n),
        !starts_with(n, "::"@),
        breakage_of(n) is None,
{
    broadcast use vstd::seq_lib::group_filter_ensures;

    let f = trimmed_lines(out).filter(stdout_name_test());
    assert(f.contains(n));
    let i = choose|i: int| 0 <= i < f.len() && f[i] == n;
    assert(stdout_name_test()(f[i]));
    reveal(stdout_name);
}

/// When breakage lines explain why pacman refused the transaction and its
/// only other complaint is the refused-transaction summary, the preview
/// shows no raw error text.
pub proof fn law_breakages_explain_refusal(out: Seq<char>, err: Seq<char>, b: (Seq<char>, Seq<char>))
    requires
        all_breakages(out, err).contains(b),
        forall|i: int|
            0 <= i < stderr_others(err).len() ==> starts_with(
                #[trigger] stderr_others(err)[i],
                prepare_failure(),
            ),
    ensures
        error_text(out, err) is None,
{
    assert(!(all_breakages(out, err) =~= Set::empty()));
    let others = stderr_others(err);
    let pred = not_prepare_failure();
    assert(others.all(|x: Seq<char>| !pred(x))) by {
        assert forall|i: int| 0 <= i < others.len() implies (|x: Seq<char>| !pred(x))(
            #[trigger] others[i],
        ) by {
            assert(starts_with(others[i], prepare_failure()));
        }
    }
    others.lemma_all_neg_filter_empty(pred);
}

/// Every trimmed stdout line that is a bare word (not empty, no
/// whitespace, not `::` chatter) is a package that pacman would remove.
pub proof fn law_stdout_bare_words_are_removed(out: Seq<char>, i: int)
    requires
        0 <= i < lines(out).len(),
        trim(lines(out)[i]).len() > 0,
        !has_ws(trim(lines(out)[i])),
        !starts_with(trim(lines(out)[i]), "::"@),
    ensures
        stdout_names(out).contains(trim(lines(out)[i])),
{
    broadcast use vstd::seq_lib::group_filter_ensures;

    let t = trim(lines(out)[i]);
    let tl = trimmed_lines(out);
    assert(tl[i] == t);
    reveal_strlit("::");
    reveal_strlit(":: removing ");
    reveal_strlit("HoldPkg was found in target list");
    if starts_with(t, ":: removing "@) {
        let p = ":: removing "@;
        assert(p.len() == 12);
        assert(t.subrange(0, 12) == p);
        assert(t[0] == t.subrange(0, 12)[0] && t[1] == t.subrange(0, 12)[1]);
        assert(p[0] == ':' && p[1] == ':');
        assert("::"@.len() == 2);
        assert(t.subrange(0, 2) =~= "::"@);
        assert(starts_with(t, "::"@));
    }
    assert(strip_prefix(t, ":: removing "@) is None);
    assert(breakage_of(t) is None) by {
        reveal(breakage_of);
    }
    if contains(t, hold_marker()) {
        let k = choose|k: int| occurs_at(t, hold_marker(), k);
        assert(t.subrange(k, k + hold_marker().len())[7] == ' ');
        assert(t[k + 7] == ' ');
        assert(is_ws(t[k + 7]));
    }
    reveal(stdout_name);
    assert(stdout_name_test()(tl[i]));
    tl.lemma_filter_contains(stdout_name_test(), i);
}

/// pacman's dry run is asked as `-Rs`, then `-c` exactly in cascade mode,
/// then `--print --noconfirm --print-format %n`, then the targets in order.
pub proof fn law_preview_args_shape(targets: Seq<Seq<char>>, cascade: bool)
    ensures
        ({
            let a = preview_args_spec(targets, cascade);
            let n = if cascade {
                6int
            } else {
                5int
            };
            &&& a.len() == n + targets.len()
            &&& a[0] == "-Rs"@
            &&& cascade ==> a[1] == "-c"@
            &&& a.subrange(n - 4, n) == seq!["--print"@, "--noconfirm"@, "--print-format"@, "%n"@]
            &&& a.subrange(n, a.len() as int) == targets
        }),
{
    let a = preview_args_spec(targets, cascade);
    let n = if cascade {
        6int
    } else {
        5int
    };
    assert(a.subrange(n - 4, n) =~= seq!["--print"@, "--noconfirm"@, "--print-format"@, "%n"@]);
    assert(a.subrange(n, a.len() as int) =~= targets);
}

/// A line `:: removing X breaks dependency D required by Y`, with single
/// words `X`, `D` and `Y`, reports that `Y` blocks the removal of `X`.
pub proof fn law_breakage_line(x: Seq<char>, d: Seq<char>, y: Seq<char>)
    requires
        x.len() > 0 && !has_ws(x),
        d.len() > 0 && !has_ws(d),
        y.len() > 0 && !has_ws(y),
    ensures
        breakage_of(":: removing "@ + x + " breaks dependency "@ + d + " required by "@ + y) == Some(
            (y, x),
        ),
{
    reveal(breakage_of);
    reveal_strlit(" breaks dependency ");
    reveal_strlit(" required by ");
    let rest = x + " breaks dependency "@ + d + " required by "@ + y;
    let tail = d + " required by "@ + y;
    assert(":: removing "@ + x + " breaks dependency "@ + d + " required by "@ + y =~= ":: removing "@
        + rest);
    lemma_strip_own_prefix(":: removing "@, rest);
    assert(rest =~= x + " breaks dependency "@ + tail);
    assert(is_ws(" breaks dependency "@[0]));
    lemma_split_after_word(x, " breaks dependency "@, tail);
    assert(is_ws(" required by "@[0]));
    lemma_split_after_word(d, " required by "@, y);
    lemma_word(y);
    lemma_word(x);
}

/// A stderr line `error: target not found: N`, with a single word `N`,
/// reports `N` as not installed.
pub proof fn law_missing_line(err: Seq<char>, i: int, n: Seq<char>)
    requires
        0 <= i < lines(err).len(),
        trim(lines(err)[i]) == not_found_prefix() + n,
        n.len() > 0 && !has_ws(n),
    ensures
        missing_in(err).contains(n),
{
    let t = trim(lines(err)[i]);
    assert(trimmed_lines(err)[i] == t);
    reveal_strlit("error: target not found: ");
    reveal_strlit(":: removing ");
    assert(breakage_of(t) is None) by {
        reveal(breakage_of);
        if starts_with(t, ":: removing "@) {
            assert(t.subrange(0, 12)[0] == ":: removing "@[0]);
            assert(t[0] == 'e');
        }
    }
    lemma_strip_own_prefix(not_found_prefix(), n);
    lemma_word(n);
    assert(missing_of(t) == Some(n)) by {
        reveal(missing_of);
    }
    assert(missing_of(trimmed_lines(err)[i]) == Some(n));
}

/// A line holding `HoldPkg was found in target list` that is not a
/// breakage line (nor, on stderr, a `target not found` line) makes the
/// preview report the HoldPkg.
pub proof fn law_holdpkg_detected(out: Seq<char>, err: Seq<char>, cascade: bool, p: Preview, i: int, j: int)
    requires
        preview_describes(p, out, err, cascade),
    ensures
        0 <= i < lines(out).len() && contains(trim(lines(out)[i]), "HoldPkg was found in target list"@)
            && !starts_with(trim(lines(out)[i]), ":: removing "@) ==> p.hold_pkg,
        0 <= j < lines(err).len() && contains(trim(lines(err)[j]), "HoldPkg was found in target list"@)
            && !starts_with(trim(lines(err)[j]), ":: removing "@) && !starts_with(
            trim(lines(err)[j]),
            "error: target not found: "@,
        ) ==> p.hold_pkg,
{
    if 0 <= i < lines(out).len() && contains(trim(lines(out)[i]), hold_marker())
        && !starts_with(trim(lines(out)[i]), ":: removing "@) {
        let t = trimmed_lines(out)[i];
        assert(breakage_of(t) is None) by {
            reveal(breakage_of);
        }
        assert(hold_line(t)) by {
            reveal(hold_line);
        }
    }
    if 0 <= j < lines(err).len() && contains(trim(lines(err)[j]), hold_marker())
        && !starts_with(trim(lines(err)[j]), ":: removing "@) && !starts_with(
        trim(lines(err)[j]),
        not_found_prefix(),
    ) {
        let t = trimmed_lines(err)[j];
        assert(breakage_of(t) is None) by {
            reveal(breakage_of);
        }
        assert(stderr_hold_line(t)) by {
            reveal(stderr_hold_line);
        }
    }
}

} // verus!
