use vstd::prelude::*;
use crate::order::{
    insert_sorted_str, insert_unique, lemma_seq_lt_facts, lemma_sort_seq, sort_seq, lt_chars, seq_lt, sorted, str_views,
    strictly_sorted,
};
use crate::numbers::{parse_i64, parse_i64_spec, parse_u64, parse_u64_spec};
use crate::text::{
    strings_of, decode_lossy, first_word, first_word_chars, utf8_lossy, chars_eq, chars_of, chars_of_string, lines, lines_of, slice_chars, string_of, string_views,
    lemma_trim_idempotent, lemma_trim_shape, trim, trim_chars, views,
};

verus! {

broadcast use vstd::seq_lib::group_to_multiset_ensures;

/// A single installed package from the local ALPM db.
#[derive(Debug, Clone)]
pub struct Pkg {
    pub name: String,
    pub version: String,
    pub desc: String,
    /// Installed size in bytes.
    pub size: u64,
    /// true = installed as dependency, false = explicitly installed.
    pub as_dep: bool,
    /// true = foreign (AUR / manual), false = from sync repos.
    pub foreign: bool,
    pub url: String,
    pub groups: Vec<String>,
    pub licenses: Vec<String>,
    /// Raw dependency specs (version constraints kept for display).
    pub depends: Vec<String>,
    /// Raw optional deps (`name: reason`).
    pub optdepends: Vec<String>,
    /// Raw provided names.
    pub provides: Vec<String>,
    /// Install time as unix epoch.
    pub install_date: Option<i64>,
}

/// Whether `c` starts a version constraint (`=`, `<` or `>`).
pub open spec fn is_constraint_char(c: char) -> bool {
    c == '=' || c == '<' || c == '>'
}

/// The index of the first constraint character of `s`, or its length.
pub open spec fn constraint_index(s: Seq<char>) -> int
    decreases s.len(),
{
    if s.len() == 0 {
        0
    } else if is_constraint_char(s[0]) {
        0
    } else {
        1 + constraint_index(s.drop_first())
    }
}

/// A dependency or provide name without its version constraint, trimmed.
pub open spec fn dep_key_spec(s: Seq<char>) -> Seq<char> {
    trim(s.take(constraint_index(s)))
}

proof fn lemma_constraint_index(s: Seq<char>, j: int)
    requires
        0 <= j <= s.len(),
        forall|k: int| 0 <= k < j ==> !is_constraint_char(#[trigger] s[k]),
        j < s.len() ==> is_constraint_char(s[j]),
    ensures
        constraint_index(s) == j,
    decreases j,
{
    if j > 0 {
        lemma_constraint_index(s.drop_first(), j - 1);
    }
}

fn dep_key_chars(s: &Vec<char>) -> (r: Vec<char>)
    ensures
        r@ == dep_key_spec(s@),
{
    let mut j: usize = 0;
    while j < s.len() && !(s[j] == '=' || s[j] == '<' || s[j] == '>')
        invariant
            j <= s.len(),
            forall|k: int| 0 <= k < j ==> !is_constraint_char(#[trigger] s@[k]),
        decreases s.len() - j,
    {
        j += 1;
    }
    proof {
        lemma_constraint_index(s@, j as int);
    }
    let head = slice_chars(s, 0, j);
    assert(head@ =~= s@.take(j as int));
    trim_chars(&head)
}

/// Normalizes a dep/provide name: strips the version constraint
/// (`libreadline.so=8-64` -> `libreadline.so`).
pub fn dep_key(s: &str) -> (r: String)
    ensures
        r@ == dep_key_spec(s@),
{
    string_of(&dep_key_chars(&chars_of(s)))
}

/// The names by which `target` can be depended on: its own name and the
/// names it provides.
pub open spec fn provided_keys(target: Pkg) -> Set<Seq<char>> {
    Set::new(
        |k: Seq<char>|
            k == target.name@ || exists|i: int|
                0 <= i < target.provides@.len() && k == dep_key_spec(
                    #[trigger] target.provides@[i]@,
                ),
    )
}

/// Whether `q` is another package that directly depends on `target`.
pub open spec fn depends_on(q: Pkg, target: Pkg) -> bool {
    &&& q.name@ != target.name@
    &&& exists|i: int|
        0 <= i < q.depends@.len() && provided_keys(target).contains(
            dep_key_spec(#[trigger] q.depends@[i]@),
        )
}

/// The test `depends_on(_, target)` as a function value.
pub open spec fn depends_on_test(target: Pkg) -> spec_fn(Pkg) -> bool {
    |q: Pkg| depends_on(q, target)
}

/// The names of `pkgs`.
pub open spec fn pkg_names(pkgs: Seq<Pkg>) -> Seq<Seq<char>> {
    pkgs.map_values(|p: Pkg| p.name@)
}

fn provided_key_list(target: &Pkg) -> (keys: Vec<Vec<char>>)
    ensures
        forall|k: Seq<char>|
            provided_keys(*target).contains(k) <==> exists|i: int|
                0 <= i < keys@.len() && #[trigger] keys@[i]@ == k,
{
    let mut keys: Vec<Vec<char>> = Vec::new();
    keys.push(chars_of_string(&target.name));
    let mut i: usize = 0;
    while i < target.provides.len()
        invariant
            i <= target.provides.len(),
            keys@.len() == i + 1,
            keys@[0]@ == target.name@,
            forall|j: int| 0 <= j < i ==> #[trigger] keys@[j + 1]@ == dep_key_spec(
                target.provides@[j]@,
            ),
        decreases target.provides.len() - i,
    {
        keys.push(dep_key_chars(&chars_of_string(&target.provides[i])));
        i += 1;
    }
    assert forall|k: Seq<char>|
        provided_keys(*target).contains(k) <==> exists|i: int|
            0 <= i < keys@.len() && #[trigger] keys@[i]@ == k by {
        if provided_keys(*target).contains(k) {
            if k == target.name@ {
                assert(keys@[0]@ == k);
            } else {
                let j = choose|j: int|
                    0 <= j < target.provides@.len() && k == dep_key_spec(
                        #[trigger] target.provides@[j]@,
                    );
                assert(keys@[j + 1]@ == k);
            }
        }
        if exists|i: int| 0 <= i < keys@.len() && #[trigger] keys@[i]@ == k {
            let i = choose|i: int| 0 <= i < keys@.len() && #[trigger] keys@[i]@ == k;
            if i > 0 {
                assert(keys@[(i - 1) + 1]@ == dep_key_spec(target.provides@[i - 1]@));
            }
        }
    }
    keys
}

fn in_key_list(keys: &Vec<Vec<char>>, k: &Vec<char>) -> (b: bool)
    ensures
        b == exists|i: int| 0 <= i < keys@.len() && #[trigger] keys@[i]@ == k@,
{
    let mut i: usize = 0;
    while i < keys.len()
        invariant
            i <= keys.len(),
            forall|j: int| 0 <= j < i ==> #[trigger] keys@[j]@ != k@,
        decreases keys.len() - i,
    {
        if crate::text::chars_eq(&keys[i], k) {
            return true;
        }
        i += 1;
    }
    false
}

fn depends_on_exec(q: &Pkg, target: &Pkg, keys: &Vec<Vec<char>>) -> (b: bool)
    requires
        forall|k: Seq<char>|
            provided_keys(*target).contains(k) <==> exists|i: int|
                0 <= i < keys@.len() && #[trigger] keys@[i]@ == k,
    ensures
        b == depends_on(*q, *target),
{
    if q.name == target.name {
        return false;
    }
    let mut i: usize = 0;
    while i < q.depends.len()
        invariant
            i <= q.depends.len(),
            q.name@ != target.name@,
            forall|k: Seq<char>|
                provided_keys(*target).contains(k) <==> exists|i: int|
                    0 <= i < keys@.len() && #[trigger] keys@[i]@ == k,
            forall|j: int| 0 <= j < i ==> !provided_keys(*target).contains(
                dep_key_spec(#[trigger] q.depends@[j]@),
            ),
        decreases q.depends.len() - i,
    {
        let key = dep_key_chars(&chars_of_string(&q.depends[i]));
        let found = in_key_list(keys, &key);
        assert(provided_keys(*target).contains(key@) == found);
        assert(key@ == dep_key_spec(q.depends@[i as int]@));
        if found {
            return true;
        }
        i += 1;
    }
    false
}

/// Names of installed packages directly depending on `target`, resolving
/// through `provides` (e.g. dependents on `sh` find bash). Sorted.
pub fn required_by<'a>(pkgs: &'a [Pkg], target: &Pkg) -> (r: Vec<&'a str>)
    ensures
        str_views(r@) == sort_seq(pkg_names(pkgs@.filter(depends_on_test(*target)))),
{
    let keys = provided_key_list(target);
    let ghost pred = depends_on_test(*target);
    let mut v: Vec<&'a str> = Vec::new();
    let mut i: usize = 0;
    proof {
        reveal(Seq::filter);
        assert(pkgs@.take(0).filter(pred) =~= Seq::<Pkg>::empty());
        assert(str_views(v@) =~= Seq::<Seq<char>>::empty());
        assert(pkg_names(Seq::<Pkg>::empty()) =~= Seq::<Seq<char>>::empty());
    }
    while i < pkgs.len()
        invariant
            i <= pkgs.len(),
            pred == depends_on_test(*target),
            forall|k: Seq<char>|
                provided_keys(*target).contains(k) <==> exists|j: int|
                    0 <= j < keys@.len() && #[trigger] keys@[j]@ == k,
            sorted(str_views(v@)),
            str_views(v@).to_multiset() == pkg_names(pkgs@.take(i as int).filter(pred)).to_multiset(),
        decreases pkgs.len() - i,
    {
        let ghost prev = pkgs@.take(i as int).filter(pred);
        proof {
            assert(pkgs@.take(i + 1) =~= pkgs@.take(i as int).push(pkgs@[i as int]));
            pkgs@.take(i as int).lemma_filter_push(pkgs@[i as int], pred);
            assert(pkg_names(prev.push(pkgs@[i as int])) =~= pkg_names(prev).push(
                pkgs@[i as int].name@,
            ));
        }
        if depends_on_exec(&pkgs[i], target, &keys) {
            insert_sorted_str(&mut v, pkgs[i].name.as_str());
        }
        i += 1;
    }
    assert(pkgs@.take(pkgs.len() as int) =~= pkgs@);
    proof {
        lemma_sort_seq(str_views(v@), pkg_names(pkgs@.filter(pred)));
    }
    v
}

/// A section of a `desc` file, named by its `%HEADER%` line.
#[derive(Debug, Clone, Copy, PartialEq, Eq, Structural)]
pub enum DescField {
    Name,
    Version,
    Desc,
    Url,
    Size,
    Reason,
    Groups,
    Licenses,
    Depends,
    OptDepends,
    Provides,
    InstallDate,
}

/// What the lines of a `desc` file read so far say.
pub struct DescModel {
    pub cur: Option<DescField>,
    pub name: Seq<char>,
    pub version: Seq<char>,
    pub desc: Seq<char>,
    pub url: Seq<char>,
    pub size: u64,
    pub as_dep: bool,
    pub install_date: Option<i64>,
    pub groups: Seq<Seq<char>>,
    pub licenses: Seq<Seq<char>>,
    pub depends: Seq<Seq<char>>,
    pub optdepends: Seq<Seq<char>>,
    pub provides: Seq<Seq<char>>,
}

/// Nothing read yet.
pub open spec fn desc_start() -> DescModel {
    DescModel {
        cur: None,
        name: seq![],
        version: seq![],
        desc: seq![],
        url: seq![],
        size: 0,
        as_dep: false,
        install_date: None,
        groups: seq![],
        licenses: seq![],
        depends: seq![],
        optdepends: seq![],
        provides: seq![],
    }
}

/// Whether `l` is a `%...%` header line (a lone `%` is one too).
pub open spec fn is_header(l: Seq<char>) -> bool {
    l.len() > 0 && l[0] == '%' && l.last() == '%'
}

/// The section that the header line `l` opens, if it is a known one.
pub open spec fn header_field(l: Seq<char>) -> Option<DescField> {
    if l == "%NAME%"@ {
        Some(DescField::Name)
    } else if l == "%VERSION%"@ {
        Some(DescField::Version)
    } else if l == "%DESC%"@ {
        Some(DescField::Desc)
    } else if l == "%URL%"@ {
        Some(DescField::Url)
    } else if l == "%SIZE%"@ {
        Some(DescField::Size)
    } else if l == "%REASON%"@ {
        Some(DescField::Reason)
    } else if l == "%GROUPS%"@ {
        Some(DescField::Groups)
    } else if l == "%LICENSE%"@ {
        Some(DescField::Licenses)
    } else if l == "%DEPENDS%"@ {
        Some(DescField::Depends)
    } else if l == "%OPTDEPENDS%"@ {
        Some(DescField::OptDepends)
    } else if l == "%PROVIDES%"@ {
        Some(DescField::Provides)
    } else if l == "%INSTALLDATE%"@ {
        Some(DescField::InstallDate)
    } else {
        None
    }
}

/// The model after reading line `l`: a header selects its section; in a
/// section, the first non-empty line sets a name, version or description,
/// one line sets a url, size, reason or install date and closes the section,
/// and every line adds to a list section.
pub open spec fn desc_step(m: DescModel, l: Seq<char>) -> DescModel {
    if is_header(l) {
        DescModel { cur: header_field(l), ..m }
    } else if l.len() == 0 {
        m
    } else {
        let t = trim(l);
        match m.cur {
            Some(DescField::Name) => if m.name.len() == 0 {
                DescModel { name: t, ..m }
            } else {
                m
            },
            Some(DescField::Version) => if m.version.len() == 0 {
                DescModel { version: t, ..m }
            } else {
                m
            },
            Some(DescField::Desc) => if m.desc.len() == 0 {
                DescModel { desc: t, ..m }
            } else {
                m
            },
            Some(DescField::Url) => DescModel { url: t, cur: None, ..m },
            Some(DescField::Size) => DescModel {
                size: match parse_u64_spec(t) {
                    Some(v) => v,
                    None => 0,
                },
                cur: None,
                ..m
            },
            Some(DescField::Reason) => DescModel { as_dep: t == "1"@, cur: None, ..m },
            Some(DescField::InstallDate) => DescModel {
                install_date: parse_i64_spec(t),
                cur: None,
                ..m
            },
            Some(DescField::Groups) => DescModel { groups: m.groups.push(t), ..m },
            Some(DescField::Licenses) => DescModel { licenses: m.licenses.push(t), ..m },
            Some(DescField::Depends) => DescModel { depends: m.depends.push(t), ..m },
            Some(DescField::OptDepends) => DescModel { optdepends: m.optdepends.push(t), ..m },
            Some(DescField::Provides) => DescModel { provides: m.provides.push(t), ..m },
            None => m,
        }
    }
}

/// The model after reading all of `ls`.
pub open spec fn desc_fold(ls: Seq<Seq<char>>) -> DescModel
    decreases ls.len(),
{
    if ls.len() == 0 {
        desc_start()
    } else {
        desc_step(desc_fold(ls.drop_last()), ls.last())
    }
}

/// What the `desc` text `text` describes: nothing when it names no package.
pub open spec fn parse_desc_spec(text: Seq<char>) -> Option<DescModel> {
    let m = desc_fold(lines(text));
    if m.name.len() == 0 {
        None
    } else {
        Some(m)
    }
}

/// Whether package `p` holds what `m` says, and is not (yet) marked foreign.
pub open spec fn pkg_holds(p: Pkg, m: DescModel) -> bool {
    &&& p.name@ == m.name
    &&& p.version@ == m.version
    &&& p.desc@ == m.desc
    &&& p.url@ == m.url
    &&& p.size == m.size
    &&& p.as_dep == m.as_dep
    &&& !p.foreign
    &&& p.install_date == m.install_date
    &&& string_views(p.groups@) == m.groups
    &&& string_views(p.licenses@) == m.licenses
    &&& string_views(p.depends@) == m.depends
    &&& string_views(p.optdepends@) == m.optdepends
    &&& string_views(p.provides@) == m.provides
}

struct DescState {
    cur: Option<DescField>,
    name: Vec<char>,
    version: Vec<char>,
    desc: Vec<char>,
    url: Vec<char>,
    size: u64,
    as_dep: bool,
    install_date: Option<i64>,
    groups: Vec<Vec<char>>,
    licenses: Vec<Vec<char>>,
    depends: Vec<Vec<char>>,
    optdepends: Vec<Vec<char>>,
    provides: Vec<Vec<char>>,
}

impl DescState {
    spec fn model(&self) -> DescModel {
        DescModel {
            cur: self.cur,
            name: self.name@,
            version: self.version@,
            desc: self.desc@,
            url: self.url@,
            size: self.size,
            as_dep: self.as_dep,
            install_date: self.install_date,
            groups: views(self.groups@),
            licenses: views(self.licenses@),
            depends: views(self.depends@),
            optdepends: views(self.optdepends@),
            provides: views(self.provides@),
        }
    }
}

fn header_field_exec(l: &Vec<char>) -> (r: Option<DescField>)
    ensures
        r == header_field(l@),
{
    if chars_eq(l, &chars_of("%NAME%")) {
        Some(DescField::Name)
    } else if chars_eq(l, &chars_of("%VERSION%")) {
        Some(DescField::Version)
    } else if chars_eq(l, &chars_of("%DESC%")) {
        Some(DescField::Desc)
    } else if chars_eq(l, &chars_of("%URL%")) {
        Some(DescField::Url)
    } else if chars_eq(l, &chars_of("%SIZE%")) {
        Some(DescField::Size)
    } else if chars_eq(l, &chars_of("%REASON%")) {
        Some(DescField::Reason)
    } else if chars_eq(l, &chars_of("%GROUPS%")) {
        Some(DescField::Groups)
    } else if chars_eq(l, &chars_of("%LICENSE%")) {
        Some(DescField::Licenses)
    } else if chars_eq(l, &chars_of("%DEPENDS%")) {
        Some(DescField::Depends)
    } else if chars_eq(l, &chars_of("%OPTDEPENDS%")) {
        Some(DescField::OptDepends)
    } else if chars_eq(l, &chars_of("%PROVIDES%")) {
        Some(DescField::Provides)
    } else if chars_eq(l, &chars_of("%INSTALLDATE%")) {
        Some(DescField::InstallDate)
    } else {
        None
    }
}

fn push_line(list: &mut Vec<Vec<char>>, t: Vec<char>)
    ensures
        views(final(list)@) == views(old(list)@).push(t@),
{
    let ghost before = views(list@);
    list.push(t);
    assert(views(list@) =~= before.push(t@));
}

fn desc_step_exec(st: &mut DescState, l: &Vec<char>)
    ensures
        final(st).model() == desc_step(old(st).model(), l@),
{
    if l.len() > 0 && l[0] == '%' && l[l.len() - 1] == '%' {
        st.cur = header_field_exec(l);
        return;
    }
    if l.len() == 0 {
        return;
    }
    let t = trim_chars(l);
    match st.cur {
        Some(DescField::Name) => {
            if st.name.len() == 0 {
                st.name = t;
            }
        },
        Some(DescField::Version) => {
            if st.version.len() == 0 {
                st.version = t;
            }
        },
        Some(DescField::Desc) => {
            if st.desc.len() == 0 {
                st.desc = t;
            }
        },
        Some(DescField::Url) => {
            st.url = t;
            st.cur = None;
        },
        Some(DescField::Size) => {
            st.size = match parse_u64(&t) {
                Some(v) => v,
                None => 0,
            };
            st.cur = None;
        },
        Some(DescField::Reason) => {
            st.as_dep = chars_eq(&t, &chars_of("1"));
            st.cur = None;
        },
        Some(DescField::InstallDate) => {
            st.install_date = parse_i64(&t);
            st.cur = None;
        },
        Some(DescField::Groups) => push_line(&mut st.groups, t),
        Some(DescField::Licenses) => push_line(&mut st.licenses, t),
        Some(DescField::Depends) => push_line(&mut st.depends, t),
        Some(DescField::OptDepends) => push_line(&mut st.optdepends, t),
        Some(DescField::Provides) => push_line(&mut st.provides, t),
        None => {},
    }
}


/// Parses the text of one `desc` file of the local ALPM db. A file that
/// names no package gives nothing. The package is not marked foreign.
pub fn parse_desc(text: &str) -> (r: Option<Pkg>)
    ensures
        match r {
            None => parse_desc_spec(text@) is None,
            Some(p) => parse_desc_spec(text@) matches Some(m) && pkg_holds(p, m),
        },
{
    let ls = lines_of(&chars_of(text));
    let mut st = DescState {
        cur: None,
        name: Vec::new(),
        version: Vec::new(),
        desc: Vec::new(),
        url: Vec::new(),
        size: 0,
        as_dep: false,
        install_date: None,
        groups: Vec::new(),
        licenses: Vec::new(),
        depends: Vec::new(),
        optdepends: Vec::new(),
        provides: Vec::new(),
    };
    let ghost lv = views(ls@);
    proof {
        assert(lv.take(0) =~= Seq::<Seq<char>>::empty());
        assert(views(st.groups@) =~= Seq::<Seq<char>>::empty());
        assert(views(st.licenses@) =~= Seq::<Seq<char>>::empty());
        assert(views(st.depends@) =~= Seq::<Seq<char>>::empty());
        assert(views(st.optdepends@) =~= Seq::<Seq<char>>::empty());
        assert(views(st.provides@) =~= Seq::<Seq<char>>::empty());
        assert(st.name@ =~= Seq::<char>::empty());
        assert(st.model() == desc_start());
    }
    let mut i: usize = 0;
    while i < ls.len()
        invariant
            i <= ls.len(),
            lv == views(ls@),
            lv == lines(text@),
            st.model() == desc_fold(lv.take(i as int)),
        decreases ls.len() - i,
    {
        proof {
            assert(lv.take(i + 1).drop_last() =~= lv.take(i as int));
            assert(lv.take(i + 1).last() == ls@[i as int]@);
        }
        desc_step_exec(&mut st, &ls[i]);
        i += 1;
    }
    assert(lv.take(ls.len() as int) =~= lv);
    if st.name.len() == 0 {
        return None;
    }
    Some(
        Pkg {
            name: string_of(&st.name),
            version: string_of(&st.version),
            desc: string_of(&st.desc),
            size: st.size,
            as_dep: st.as_dep,
            foreign: false,
            url: string_of(&st.url),
            groups: strings_of(&st.groups),
            licenses: strings_of(&st.licenses),
            depends: strings_of(&st.depends),
            optdepends: strings_of(&st.optdepends),
            provides: strings_of(&st.provides),
            install_date: st.install_date,
        },
    )
}

/// The names that `pacman -Qm` output `s` lists: the first word of each line.
pub open spec fn foreign_in(s: Seq<char>) -> Set<Seq<char>> {
    Set::new(
        |n: Seq<char>|
            exists|i: int| 0 <= i < lines(s).len() && first_word(#[trigger] lines(s)[i]) == Some(n),
    )
}

/// The foreign (AUR / manual) package names that `pacman -Qm` printed,
/// sorted without duplicates.
pub fn foreign_names(text: &str) -> (r: Vec<String>)
    ensures
        strictly_sorted(string_views(r@)),
        string_views(r@).to_set() == foreign_in(text@),
{
    let ls = lines_of(&chars_of(text));
    let ghost lv = views(ls@);
    let mut names: Vec<Vec<char>> = Vec::new();
    let mut i: usize = 0;
    assert(views(names@) =~= Seq::<Seq<char>>::empty());
    while i < ls.len()
        invariant
            i <= ls.len(),
            lv == views(ls@),
            lv == lines(text@),
            strictly_sorted(views(names@)),
            forall|n: Seq<char>|
                views(names@).to_set().contains(n) <==> exists|k: int|
                    0 <= k < i && first_word(#[trigger] lv[k]) == Some(n),
        decreases ls.len() - i,
    {
        assert(lv[i as int] == ls@[i as int]@);
        match first_word_chars(&ls[i]) {
            Some(w) => {
                let ghost wv = w@;
                insert_unique(&mut names, w);
                assert forall|n: Seq<char>|
                    views(names@).to_set().contains(n) <==> exists|k: int|
                        0 <= k < i + 1 && first_word(#[trigger] lv[k]) == Some(n) by {
                    if n == wv {
                        assert(first_word(lv[i as int]) == Some(n));
                    }
                }
            },
            None => {},
        }
        i += 1;
    }
    let mut r: Vec<String> = Vec::new();
    let mut j: usize = 0;
    while j < names.len()
        invariant
            j <= names.len(),
            string_views(r@) == views(names@).take(j as int),
        decreases names.len() - j,
    {
        let x = string_of(&names[j]);
        let ghost before = string_views(r@);
        r.push(x);
        assert(string_views(r@) =~= before.push(x@));
        assert(views(names@)[j as int] == names@[j as int]@);
        j += 1;
        assert(string_views(r@) =~= views(names@).take(j as int));
    }
    assert(views(names@).take(names.len() as int) =~= views(names@));
    assert(string_views(r@).to_set() =~= foreign_in(text@));
    r
}

/// The foreign package names in the raw stdout bytes of `pacman -Qm`.
pub fn foreign_names_from_output(stdout: &[u8]) -> (r: Vec<String>)
    ensures
        strictly_sorted(string_views(r@)),
        string_views(r@).to_set() == foreign_in(utf8_lossy(stdout@)),
{
    let text = decode_lossy(stdout);
    foreign_names(text.as_str())
}

/// `p` with its foreign mark set to `foreign`.
pub open spec fn with_foreign(p: Pkg, foreign: bool) -> Pkg {
    Pkg { foreign, ..p }
}

/// Marks each package foreign exactly when its name is in `foreign`.
pub fn mark_foreign(pkgs: &mut Vec<Pkg>, foreign: &Vec<String>)
    ensures
        final(pkgs)@.len() == old(pkgs)@.len(),
        forall|i: int|
            0 <= i < old(pkgs)@.len() ==> #[trigger] final(pkgs)@[i] == with_foreign(
                old(pkgs)@[i],
                string_views(foreign@).contains(old(pkgs)@[i].name@),
            ),
{
    let ghost orig = pkgs@;
    let mut i: usize = 0;
    while i < pkgs.len()
        invariant
            i <= pkgs.len() == orig.len(),
            forall|k: int|
                0 <= k < i ==> #[trigger] pkgs@[k] == with_foreign(
                    orig[k],
                    string_views(foreign@).contains(orig[k].name@),
                ),
            forall|k: int| i <= k < pkgs@.len() ==> #[trigger] pkgs@[k] == orig[k],
        decreases pkgs.len() - i,
    {
        let f = crate::resolve::contains_string(foreign, &pkgs[i].name);
        let mut p = pkgs.remove(i);
        p.foreign = f;
        pkgs.insert(i, p);
        i += 1;
    }
}

/// Name order, with earlier positions first among equal names.
pub open spec fn name_before(a: Seq<char>, i: int, b: Seq<char>, j: int) -> bool {
    seq_lt(a, b) || (a == b && i < j)
}

/// Whether `perm` lists each of `0..n` once.
pub open spec fn is_permutation(perm: Seq<int>, n: int) -> bool {
    &&& perm.len() == n
    &&& forall|k: int| 0 <= k < n ==> 0 <= #[trigger] perm[k] < n
    &&& forall|a: int, b: int| 0 <= a < b < n ==> #[trigger] perm[a] != #[trigger] perm[b]
}

/// `out` is `orig` stably sorted by name: a permutation of it in which names
/// do not decrease and packages of equal name keep their order.
pub open spec fn stably_sorted_by_name(out: Seq<Pkg>, orig: Seq<Pkg>) -> bool {
    exists|perm: Seq<int>|
        {
            &&& is_permutation(perm, orig.len() as int)
            &&& out.len() == orig.len()
            &&& forall|k: int| 0 <= k < out.len() ==> #[trigger] out[k] == orig[perm[k]]
            &&& forall|a: int, b: int|
                0 <= a < b < out.len() ==> name_before(
                    #[trigger] out[a].name@,
                    perm[a],
                    #[trigger] out[b].name@,
                    perm[b],
                )
        }
}

proof fn lemma_name_before_transitive(a: Seq<char>, i: int, b: Seq<char>, j: int, c: Seq<char>, k: int)
    requires
        name_before(a, i, b, j),
        name_before(b, j, c, k),
    ensures
        name_before(a, i, c, k),
{
    lemma_seq_lt_facts();
}

/// Sorts `pkgs` by name, stably (as `sort_by` on the name does).
pub fn sort_by_name(pkgs: Vec<Pkg>) -> (r: Vec<Pkg>)
    ensures
        stably_sorted_by_name(r@, pkgs@),
{
    proof {
        lemma_seq_lt_facts();
    }
    let ghost orig = pkgs@;
    let n = pkgs.len();
    let mut v = pkgs;
    let mut keys: Vec<Vec<char>> = Vec::new();
    let mut j: usize = 0;
    while j < n
        invariant
            j <= n == v.len(),
            v@ == orig,
            keys@.len() == j,
            forall|k: int| 0 <= k < j ==> #[trigger] keys@[k]@ == orig[k].name@,
        decreases n - j,
    {
        keys.push(chars_of_string(&v[j].name));
        j += 1;
    }
    let ghost mut perm: Seq<int> = Seq::new(n as nat, |k: int| k);
    let mut i: usize = 0;
    while i < n
        invariant
            i <= n == v.len() == keys@.len() == orig.len(),
            perm.len() == n,
            forall|k: int| 0 <= k < n ==> 0 <= #[trigger] perm[k] < n,
            forall|a: int, b: int| 0 <= a < b < n ==> #[trigger] perm[a] != #[trigger] perm[b],
            forall|k: int| i <= k < n ==> #[trigger] perm[k] == k,
            forall|k: int| 0 <= k < i ==> #[trigger] perm[k] < i,
            forall|k: int| 0 <= k < n ==> #[trigger] v@[k] == orig[perm[k]],
            forall|k: int| 0 <= k < n ==> #[trigger] keys@[k]@ == orig[perm[k]].name@,
            forall|a: int, b: int|
                0 <= a < b < i ==> name_before(
                    #[trigger] keys@[a]@,
                    perm[a],
                    #[trigger] keys@[b]@,
                    perm[b],
                ),
        decreases n - i,
    {
        let x = v.remove(i);
        let kx = keys.remove(i);
        let ghost kxv = kx@;
        assert(kxv == orig[i as int].name@ && x == orig[i as int]);
        let mut p = i;
        while p > 0 && lt_chars(&kx, &keys[p - 1])
            invariant
                p <= i < n,
                keys@.len() == n - 1,
                kx@ == kxv,
                forall|q: int| p <= q < i ==> seq_lt(kxv, #[trigger] keys@[q]@),
            decreases p,
        {
            p -= 1;
        }
        assert(p > 0 ==> !seq_lt(kxv, keys@[p - 1]@));
        let ghost old_perm = perm;
        let ghost old_keys = keys@;
        proof {
            assert(keys@.len() == n - 1);
        }
        v.insert(p, x);
        keys.insert(p, kx);
        proof {
            perm = old_perm.take(p as int).push(i as int) + old_perm.subrange(p as int, i as int)
                + old_perm.skip(i + 1);
            assert(perm.len() == n);
            assert forall|k: int| 0 <= k < n implies #[trigger] v@[k] == orig[perm[k]]
                && keys@[k]@ == orig[perm[k]].name@ by {
                if k < p {
                    assert(perm[k] == old_perm[k]);
                } else if k == p {
                } else if k <= i {
                    assert(perm[k] == old_perm[k - 1]);
                } else {
                    assert(perm[k] == old_perm[k]);
                }
            }
            assert forall|k: int| 0 <= k < n implies 0 <= #[trigger] perm[k] < n && (i < k ==> perm[k] == k)
                && (k <= i ==> perm[k] <= i) by {
                if k < p {
                    assert(perm[k] == old_perm[k]);
                } else if k == p {
                } else if k <= i {
                    assert(perm[k] == old_perm[k - 1]);
                } else {
                    assert(perm[k] == old_perm[k]);
                }
            }
            assert forall|a: int, b: int| 0 <= a < b < n implies #[trigger] perm[a] != #[trigger] perm[b] by {
                let oa = if a < p { a } else if a == p { -1 } else if a <= i { a - 1 } else { a };
                let ob = if b < p { b } else if b == p { -1 } else if b <= i { b - 1 } else { b };
                if oa >= 0 {
                    assert(perm[a] == old_perm[oa]);
                }
                if ob >= 0 {
                    assert(perm[b] == old_perm[ob]);
                }
                if a == p {
                    assert(perm[a] == i);
                    assert(old_perm[ob] != old_perm[i as int]);
                } else if b == p {
                    assert(perm[b] == i);
                    assert(old_perm[oa] != old_perm[i as int]);
                }
            }
            assert forall|a: int, b: int| 0 <= a < b < i + 1 implies name_before(
                #[trigger] keys@[a]@,
                perm[a],
                #[trigger] keys@[b]@,
                perm[b],
            ) by {
                let oa = if a < p { a } else if a == p { -1 } else { a - 1 };
                let ob = if b < p { b } else if b == p { -1 } else { b - 1 };
                if oa >= 0 {
                    assert(keys@[a]@ == old_keys[oa]@ && perm[a] == old_perm[oa]);
                }
                if ob >= 0 {
                    assert(keys@[b]@ == old_keys[ob]@ && perm[b] == old_perm[ob]);
                }
                if a == p {
                    // x before everything after it
                    assert(seq_lt(kxv, old_keys[ob]@));
                } else if b == p {
                    // everything before p is not after x
                    assert(!seq_lt(kxv, old_keys[p - 1]@));
                    crate::order::lemma_seq_lt_total(kxv, old_keys[p - 1]@);
                    assert(old_perm[p - 1] < i);
                    assert(name_before(old_keys[p - 1]@, old_perm[p - 1], kxv, i as int));
                    if oa < p - 1 {
                        lemma_name_before_transitive(
                            old_keys[oa]@,
                            old_perm[oa],
                            old_keys[p - 1]@,
                            old_perm[p - 1],
                            kxv,
                            i as int,
                        );
                    }
                }
            }
        }
        i += 1;
    }
    proof {
        assert(is_permutation(perm, orig.len() as int));
        assert forall|a: int, b: int| 0 <= a < b < v@.len() implies name_before(
            #[trigger] v@[a].name@,
            perm[a],
            #[trigger] v@[b].name@,
            perm[b],
        ) by {
            assert(keys@[a]@ == v@[a].name@ && keys@[b]@ == v@[b].name@);
        }
    }
    v
}

/// Each package's name with its position: the name index of `pkgs`.
pub open spec fn is_name_index(idx: Seq<(String, usize)>, pkgs: Seq<Pkg>) -> bool {
    &&& idx.len() == pkgs.len()
    &&& forall|i: int|
        0 <= i < idx.len() ==> (#[trigger] idx[i]).0@ == pkgs[i].name@ && idx[i].1 == i
}

/// The name index of `pkgs`: each name with its position.
pub fn name_index(pkgs: &Vec<Pkg>) -> (idx: Vec<(String, usize)>)
    ensures
        is_name_index(idx@, pkgs@),
{
    let mut idx: Vec<(String, usize)> = Vec::new();
    let mut i: usize = 0;
    while i < pkgs.len()
        invariant
            i <= pkgs.len(),
            idx@.len() == i,
            forall|k: int| 0 <= k < i ==> (#[trigger] idx@[k]).0@ == pkgs@[k].name@ && idx@[k].1 == k,
        decreases pkgs.len() - i,
    {
        idx.push((pkgs[i].name.clone(), i));
        i += 1;
    }
    idx
}

/// The position that the name index `idx` gives for `name`: that of its
/// last entry with this name (as a map built from `idx` in order keeps).
pub open spec fn idx_lookup(idx: Seq<(String, usize)>, name: Seq<char>) -> Option<usize>
    decreases idx.len(),
{
    if idx.len() == 0 {
        None
    } else if idx.last().0@ == name {
        Some(idx.last().1)
    } else {
        idx_lookup(idx.drop_last(), name)
    }
}

/// Whether every position in `idx` is a position of `pkgs`.
pub open spec fn idx_in_range(idx: Seq<(String, usize)>, n: int) -> bool {
    forall|i: int| 0 <= i < idx.len() ==> (#[trigger] idx[i]).1 < n
}

pub proof fn lemma_idx_lookup_in_range(idx: Seq<(String, usize)>, name: Seq<char>, n: int)
    requires
        idx_in_range(idx, n),
    ensures
        idx_lookup(idx, name) matches Some(i) ==> i < n,
    decreases idx.len(),
{
    if idx.len() > 0 && idx.last().0@ != name {
        lemma_idx_lookup_in_range(idx.drop_last(), name, n);
    }
}

/// Looking a name up in the name index finds the (last) package of that
/// name, and nothing when no package has it.
pub proof fn law_index_finds_package(idx: Seq<(String, usize)>, pkgs: Seq<Pkg>, name: Seq<char>)
    requires
        is_name_index(idx, pkgs),
    ensures
        match idx_lookup(idx, name) {
            Some(i) => i < pkgs.len() && pkgs[i as int].name@ == name && forall|j: int|
                i < j < pkgs.len() ==> pkgs[j].name@ != name,
            None => forall|j: int| 0 <= j < pkgs.len() ==> pkgs[j].name@ != name,
        },
    decreases idx.len(),
{
    if idx.len() > 0 {
        let n = idx.len() - 1;
        assert(idx[n].0@ == pkgs[n].name@);
        if idx.last().0@ != name {
            law_index_finds_package(idx.drop_last(), pkgs.drop_last(), name);
            assert forall|j: int| 0 <= j < n implies pkgs[j].name@ == #[trigger] pkgs.drop_last()[j].name@ by {
            }
            assert(idx_lookup(idx, name) == idx_lookup(idx.drop_last(), name));
            assert(pkgs[n].name@ != name);
            match idx_lookup(idx, name) {
                Some(i) => {
                    assert(pkgs.drop_last()[i as int].name@ == name);
                    assert forall|j: int| i < j < pkgs.len() implies pkgs[j].name@ != name by {
                        if j < n {
                            assert(pkgs.drop_last()[j].name@ != name);
                        }
                    }
                },
                None => {
                    assert forall|j: int| 0 <= j < pkgs.len() implies pkgs[j].name@ != name by {
                        if j < n {
                            assert(pkgs.drop_last()[j].name@ != name);
                        }
                    }
                },
            }
        } else {
            assert(idx[n].1 == n);
        }
    }
}

/// The position that the name index `idx` gives for `name`.
pub fn lookup(idx: &Vec<(String, usize)>, name: &str) -> (r: Option<usize>)
    ensures
        r == idx_lookup(idx@, name@),
{
    let key = chars_of(name);
    let mut k = idx.len();
    assert(idx@.take(k as int) =~= idx@);
    while k > 0
        invariant
            k <= idx.len(),
            key@ == name@,
            idx_lookup(idx@, name@) == idx_lookup(idx@.take(k as int), name@),
        decreases k,
    {
        let ghost t = idx@.take(k as int);
        assert(t.last() == idx@[k - 1]);
        assert(t.drop_last() =~= idx@.take(k - 1));
        if chars_eq(&chars_of_string(&idx[k - 1].0), &key) {
            return Some(idx[k - 1].1);
        }
        k -= 1;
    }
    None
}

/// The db as the app holds it: each package marked foreign when `foreign`
/// names it, sorted by name (stably), with its name index. Nothing when
/// there are no packages.
pub fn index_db(pkgs: Vec<Pkg>, foreign: &Vec<String>) -> (r: Option<(Vec<Pkg>, Vec<(String, usize)>)>)
    ensures
        pkgs@.len() == 0 <==> r is None,
        r matches Some((sorted_pkgs, idx)) ==> {
            &&& stably_sorted_by_name(
                sorted_pkgs@,
                pkgs@.map_values(
                    |p: Pkg| with_foreign(p, string_views(foreign@).contains(p.name@)),
                ),
            )
            &&& is_name_index(idx@, sorted_pkgs@)
        },
{
    if pkgs.len() == 0 {
        return None;
    }
    let ghost orig = pkgs@;
    let mut pkgs = pkgs;
    mark_foreign(&mut pkgs, foreign);
    assert(pkgs@ =~= orig.map_values(
        |p: Pkg| with_foreign(p, string_views(foreign@).contains(p.name@)),
    ));
    let sorted_pkgs = sort_by_name(pkgs);
    let idx = name_index(&sorted_pkgs);
    Some((sorted_pkgs, idx))
}

proof fn lemma_constraint_index_bounds(s: Seq<char>)
    ensures
        0 <= constraint_index(s) <= s.len(),
        forall|k: int| 0 <= k < constraint_index(s) ==> !is_constraint_char(#[trigger] s[k]),
    decreases s.len(),
{
    if s.len() > 0 && !is_constraint_char(s[0]) {
        lemma_constraint_index_bounds(s.drop_first());
        assert forall|k: int| 0 <= k < constraint_index(s) implies !is_constraint_char(#[trigger] s[k]) by {
            if k > 0 {
                assert(s[k] == s.drop_first()[k - 1]);
            }
        }
    }
}

/// Normalizing a dependency name twice is normalizing it once.
pub proof fn law_dep_key_idempotent(s: Seq<char>)
    ensures
        dep_key_spec(dep_key_spec(s)) == dep_key_spec(s),
{
    let head = s.take(constraint_index(s));
    lemma_constraint_index_bounds(s);
    let x = dep_key_spec(s);
    let (i, j) = lemma_trim_shape(head);
    assert forall|k: int| 0 <= k < x.len() implies !is_constraint_char(#[trigger] x[k]) by {
        assert(x[k] == head[i + k]);
        assert(head[i + k] == s[i + k]);
    }
    lemma_constraint_index(x, x.len() as int);
    assert(x.take(x.len() as int) =~= x);
    lemma_trim_idempotent(head);
}

/// A package is never listed as requiring itself.
pub proof fn law_required_by_excludes_target(pkgs: Seq<Pkg>, target: Pkg)
    ensures
        !pkg_names(pkgs.filter(depends_on_test(target))).contains(target.name@),
{
    broadcast use vstd::seq_lib::group_filter_ensures;

    let f = pkgs.filter(depends_on_test(target));
    if pkg_names(f).contains(target.name@) {
        let i = choose|i: int| 0 <= i < pkg_names(f).len() && pkg_names(f)[i] == target.name@;
        assert(depends_on_test(target)(f[i]));
    }
}

/// Every other package with any dependency (at whatever position in its
/// list) that names the target, or one of the names the target provides,
/// once version constraints are stripped, is listed as requiring it; and
/// everything listed is such a package.
pub proof fn law_required_by_lists_every_dependent(pkgs: Seq<Pkg>, target: Pkg)
    ensures
        forall|qi: int, i: int|
            0 <= qi < pkgs.len() && pkgs[qi].name@ != target.name@ && 0 <= i
                < pkgs[qi].depends@.len() && (dep_key_spec(pkgs[qi].depends@[i]@) == target.name@
                || exists|j: int|
                0 <= j < target.provides@.len() && dep_key_spec(#[trigger] pkgs[qi].depends@[i]@)
                    == dep_key_spec(target.provides@[j]@)) ==> sort_seq(
                pkg_names(pkgs.filter(depends_on_test(target))),
            ).contains(#[trigger] pkgs[qi].name@),
        forall|n: Seq<char>|
            #[trigger] sort_seq(pkg_names(pkgs.filter(depends_on_test(target)))).contains(n)
                ==> n != target.name@ && exists|qi: int, i: int|
                0 <= qi < pkgs.len() && pkgs[qi].name@ == n && 0 <= i < pkgs[qi].depends@.len()
                    && (dep_key_spec(pkgs[qi].depends@[i]@) == target.name@ || exists|j: int|
                    0 <= j < target.provides@.len() && dep_key_spec(pkgs[qi].depends@[i]@)
                        == dep_key_spec(target.provides@[j]@)),
{
    broadcast use vstd::seq_lib::group_filter_ensures;
    broadcast use vstd::seq_lib::group_to_multiset_ensures;

    let f = pkgs.filter(depends_on_test(target));
    let names = pkg_names(f);
    let sorted_names = sort_seq(names);
    crate::order::lemma_sort_seq_facts(names);
    assert forall|qi: int, i: int|
        0 <= qi < pkgs.len() && pkgs[qi].name@ != target.name@ && 0 <= i
            < pkgs[qi].depends@.len() && (dep_key_spec(pkgs[qi].depends@[i]@) == target.name@
            || exists|j: int|
            0 <= j < target.provides@.len() && dep_key_spec(#[trigger] pkgs[qi].depends@[i]@)
                == dep_key_spec(target.provides@[j]@)) implies sorted_names.contains(
        #[trigger] pkgs[qi].name@,
    ) by {
        let q = pkgs[qi];
        assert(provided_keys(target).contains(dep_key_spec(q.depends@[i]@)));
        assert(depends_on(q, target));
        assert(depends_on_test(target)(pkgs[qi]));
        pkgs.lemma_filter_contains(depends_on_test(target), qi);
        assert(f.contains(q));
        let k = choose|k: int| 0 <= k < f.len() && f[k] == q;
        assert(names[k] == q.name@);
        assert(names.contains(q.name@));
        assert(names.to_multiset().count(q.name@) > 0);
        assert(sorted_names.to_multiset().count(q.name@) > 0);
    }
    assert forall|n: Seq<char>| #[trigger] sorted_names.contains(n) implies n != target.name@
        && exists|qi: int, i: int|
        0 <= qi < pkgs.len() && pkgs[qi].name@ == n && 0 <= i < pkgs[qi].depends@.len() && (
        dep_key_spec(pkgs[qi].depends@[i]@) == target.name@ || exists|j: int|
            0 <= j < target.provides@.len() && dep_key_spec(pkgs[qi].depends@[i]@)
                == dep_key_spec(target.provides@[j]@)) by {
        assert(sorted_names.to_multiset().count(n) > 0);
        assert(names.to_multiset().count(n) > 0);
        assert(names.contains(n));
        let k = choose|k: int| 0 <= k < names.len() && names[k] == n;
        let q = f[k];
        assert(depends_on_test(target)(f[k]));
        assert(f.contains(q));
        pkgs.lemma_filter_contains_rev(depends_on_test(target), q);
        let qi = choose|qi: int| 0 <= qi < pkgs.len() && pkgs[qi] == q;
        let i = choose|i: int|
            0 <= i < q.depends@.len() && provided_keys(target).contains(
                dep_key_spec(#[trigger] q.depends@[i]@),
            );
        let key = dep_key_spec(q.depends@[i]@);
        if key != target.name@ {
            let j = choose|j: int|
                0 <= j < target.provides@.len() && key == dep_key_spec(
                    #[trigger] target.provides@[j]@,
                );
            assert(0 <= j < target.provides@.len() && dep_key_spec(pkgs[qi].depends@[i]@)
                == dep_key_spec(target.provides@[j]@));
        }
        assert(pkgs[qi].name@ == n);
    }
}

/// Whether `header` opens one of the list sections of a `desc` file.
pub open spec fn is_list_header(header: Seq<char>) -> bool {
    ||| header == "%GROUPS%"@
    ||| header == "%LICENSE%"@
    ||| header == "%DEPENDS%"@
    ||| header == "%OPTDEPENDS%"@
    ||| header == "%PROVIDES%"@
}

/// The list of `m` that the list section opened by `header` fills.
pub open spec fn section_list(m: DescModel, header: Seq<char>) -> Seq<Seq<char>> {
    if header == "%GROUPS%"@ {
        m.groups
    } else if header == "%LICENSE%"@ {
        m.licenses
    } else if header == "%DEPENDS%"@ {
        m.depends
    } else if header == "%OPTDEPENDS%"@ {
        m.optdepends
    } else {
        m.provides
    }
}

/// Whether `l` is a line of a section's content: not empty, not `%...%`.
pub open spec fn content_line(l: Seq<char>) -> bool {
    l.len() > 0 && !(l[0] == '%' && l.last() == '%')
}

proof fn lemma_fold_take(ls: Seq<Seq<char>>, n: int)
    requires
        0 < n <= ls.len(),
    ensures
        desc_fold(ls.take(n)) == desc_step(desc_fold(ls.take(n - 1)), ls[n - 1]),
{
    assert(ls.take(n).drop_last() =~= ls.take(n - 1));
    assert(ls.take(n).last() == ls[n - 1]);
}

proof fn lemma_list_headers(header: Seq<char>)
    requires
        is_list_header(header),
    ensures
        is_header(header),
        header_field(header) matches Some(f) && (f == DescField::Groups || f == DescField::Licenses
            || f == DescField::Depends || f == DescField::OptDepends || f == DescField::Provides),
        forall|l: Seq<char>| #[trigger] header_field(l) == header_field(header) ==> l == header,
{
    if header == "%GROUPS%"@ {
        reveal_strlit("%GROUPS%");
        assert(header.len() == 8);
        assert(header != "%NAME%"@) by {
            reveal_strlit("%NAME%");
            assert("%NAME%"@.len() == 6);
        }
        assert(header != "%VERSION%"@) by {
            reveal_strlit("%VERSION%");
            assert("%VERSION%"@.len() == 9);
        }
        assert(header != "%DESC%"@) by {
            reveal_strlit("%DESC%");
            assert("%DESC%"@.len() == 6);
        }
        assert(header != "%URL%"@) by {
            reveal_strlit("%URL%");
            assert("%URL%"@.len() == 5);
        }
        assert(header != "%SIZE%"@) by {
            reveal_strlit("%SIZE%");
            assert("%SIZE%"@.len() == 6);
        }
        assert(header != "%REASON%"@) by {
            reveal_strlit("%REASON%");
            assert("%REASON%"@.len() == 8);
            assert(header[1] != "%REASON%"@[1]);
        }
        assert(is_header(header));
        assert(header_field(header) == Some(DescField::Groups));
    } else if header == "%LICENSE%"@ {
        reveal_strlit("%LICENSE%");
        assert(header.len() == 9);
        assert(header != "%NAME%"@) by {
            reveal_strlit("%NAME%");
            assert("%NAME%"@.len() == 6);
        }
        assert(header != "%VERSION%"@) by {
            reveal_strlit("%VERSION%");
            assert("%VERSION%"@.len() == 9);
            assert(header[1] != "%VERSION%"@[1]);
        }
        assert(header != "%DESC%"@) by {
            reveal_strlit("%DESC%");
            assert("%DESC%"@.len() == 6);
        }
        assert(header != "%URL%"@) by {
            reveal_strlit("%URL%");
            assert("%URL%"@.len() == 5);
        }
        assert(header != "%SIZE%"@) by {
            reveal_strlit("%SIZE%");
            assert("%SIZE%"@.len() == 6);
        }
        assert(header != "%REASON%"@) by {
            reveal_strlit("%REASON%");
            assert("%REASON%"@.len() == 8);
        }
        assert(header != "%GROUPS%"@) by {
            reveal_strlit("%GROUPS%");
            assert("%GROUPS%"@.len() == 8);
        }
        assert(is_header(header));
        assert(header_field(header) == Some(DescField::Licenses));
    } else if header == "%DEPENDS%"@ {
        reveal_strlit("%DEPENDS%");
        assert(header.len() == 9);
        assert(header != "%NAME%"@) by {
            reveal_strlit("%NAME%");
            assert("%NAME%"@.len() == 6);
        }
        assert(header != "%VERSION%"@) by {
            reveal_strlit("%VERSION%");
            assert("%VERSION%"@.len() == 9);
            assert(header[1] != "%VERSION%"@[1]);
        }
        assert(header != "%DESC%"@) by {
            reveal_strlit("%DESC%");
            assert("%DESC%"@.len() == 6);
        }
        assert(header != "%URL%"@) by {
            reveal_strlit("%URL%");
            assert("%URL%"@.len() == 5);
        }
        assert(header != "%SIZE%"@) by {
            reveal_strlit("%SIZE%");
            assert("%SIZE%"@.len() == 6);
        }
        assert(header != "%REASON%"@) by {
            reveal_strlit("%REASON%");
            assert("%REASON%"@.len() == 8);
        }
        assert(header != "%GROUPS%"@) by {
            reveal_strlit("%GROUPS%");
            assert("%GROUPS%"@.len() == 8);
        }
        assert(header != "%LICENSE%"@) by {
            reveal_strlit("%LICENSE%");
            assert("%LICENSE%"@.len() == 9);
            assert(header[1] != "%LICENSE%"@[1]);
        }
        assert(is_header(header));
        assert(header_field(header) == Some(DescField::Depends));
    } else if header == "%OPTDEPENDS%"@ {
        reveal_strlit("%OPTDEPENDS%");
        assert(header.len() == 12);
        assert(header != "%NAME%"@) by {
            reveal_strlit("%NAME%");
            assert("%NAME%"@.len() == 6);
        }
        assert(header != "%VERSION%"@) by {
            reveal_strlit("%VERSION%");
            assert("%VERSION%"@.len() == 9);
        }
        assert(header != "%DESC%"@) by {
            reveal_strlit("%DESC%");
            assert("%DESC%"@.len() == 6);
        }
        assert(header != "%URL%"@) by {
            reveal_strlit("%URL%");
            assert("%URL%"@.len() == 5);
        }
        assert(header != "%SIZE%"@) by {
            reveal_strlit("%SIZE%");
            assert("%SIZE%"@.len() == 6);
        }
        assert(header != "%REASON%"@) by {
            reveal_strlit("%REASON%");
            assert("%REASON%"@.len() == 8);
        }
        assert(header != "%GROUPS%"@) by {
            reveal_strlit("%GROUPS%");
            assert("%GROUPS%"@.len() == 8);
        }
        assert(header != "%LICENSE%"@) by {
            reveal_strlit("%LICENSE%");
            assert("%LICENSE%"@.len() == 9);
        }
        assert(header != "%DEPENDS%"@) by {
            reveal_strlit("%DEPENDS%");
            assert("%DEPENDS%"@.len() == 9);
        }
        assert(is_header(header));
        assert(header_field(header) == Some(DescField::OptDepends));
    } else if header == "%PROVIDES%"@ {
        reveal_strlit("%PROVIDES%");
        assert(header.len() == 10);
        assert(header != "%NAME%"@) by {
            reveal_strlit("%NAME%");
            assert("%NAME%"@.len() == 6);
        }
        assert(header != "%VERSION%"@) by {
            reveal_strlit("%VERSION%");
            assert("%VERSION%"@.len() == 9);
        }
        assert(header != "%DESC%"@) by {
            reveal_strlit("%DESC%");
            assert("%DESC%"@.len() == 6);
        }
        assert(header != "%URL%"@) by {
            reveal_strlit("%URL%");
            assert("%URL%"@.len() == 5);
        }
        assert(header != "%SIZE%"@) by {
            reveal_strlit("%SIZE%");
            assert("%SIZE%"@.len() == 6);
        }
        assert(header != "%REASON%"@) by {
            reveal_strlit("%REASON%");
            assert("%REASON%"@.len() == 8);
        }
        assert(header != "%GROUPS%"@) by {
            reveal_strlit("%GROUPS%");
            assert("%GROUPS%"@.len() == 8);
        }
        assert(header != "%LICENSE%"@) by {
            reveal_strlit("%LICENSE%");
            assert("%LICENSE%"@.len() == 9);
        }
        assert(header != "%DEPENDS%"@) by {
            reveal_strlit("%DEPENDS%");
            assert("%DEPENDS%"@.len() == 9);
        }
        assert(header != "%OPTDEPENDS%"@) by {
            reveal_strlit("%OPTDEPENDS%");
            assert("%OPTDEPENDS%"@.len() == 12);
        }
        assert(is_header(header));
        assert(header_field(header) == Some(DescField::Provides));
    }
}

/// What the lines after a list header add to that section's list.
proof fn lemma_section_run(ls: Seq<Seq<char>>, h: int, k: int, header: Seq<char>)
    requires
        is_list_header(header),
        0 <= h,
        0 <= k,
        h + 1 + k <= ls.len(),
        ls[h] == header,
        forall|j: int| 1 <= j <= k ==> content_line(#[trigger] ls[h + j]),
    ensures
        desc_fold(ls.take(h + 1 + k)).cur == header_field(header),
        section_list(desc_fold(ls.take(h + 1 + k)), header) == section_list(
            desc_fold(ls.take(h)),
            header,
        ) + Seq::new(k as nat, |j: int| trim(ls[h + 1 + j])),
    decreases k,
{
    lemma_list_headers(header);
    if k == 0 {
        lemma_fold_take(ls, h + 1);
        assert(section_list(desc_fold(ls.take(h)), header) + Seq::new(0, |j: int| trim(ls[h + 1 + j]))
            =~= section_list(desc_fold(ls.take(h)), header));
    } else {
        lemma_section_run(ls, h, k - 1, header);
        lemma_fold_take(ls, h + 1 + k);
        let l = ls[h + k];
        assert(content_line(ls[h + k]));
        assert(!is_header(l));
        assert(Seq::new(k as nat, |j: int| trim(ls[h + 1 + j])) =~= Seq::new(
            (k - 1) as nat,
            |j: int| trim(ls[h + 1 + j]),
        ).push(trim(l)));
    }
}

/// A section's list stays as it is over lines that never open that section
/// again, once another section (or none) is being read.
proof fn lemma_section_kept(ls: Seq<Seq<char>>, p: int, q: int, header: Seq<char>)
    requires
        is_list_header(header),
        0 <= p <= q <= ls.len(),
        desc_fold(ls.take(p)).cur != header_field(header),
        forall|j: int| p <= j < q ==> #[trigger] ls[j] != header,
    ensures
        desc_fold(ls.take(q)).cur != header_field(header),
        section_list(desc_fold(ls.take(q)), header) == section_list(desc_fold(ls.take(p)), header),
    decreases q - p,
{
    lemma_list_headers(header);
    if q > p {
        lemma_section_kept(ls, p, q - 1, header);
        lemma_fold_take(ls, q);
        let l = ls[q - 1];
        assert(l != header);
        if is_header(l) {
            assert(header_field(l) != header_field(header));
        }
    }
}

/// A list section of a `desc` file collects its lines: when the last
/// `header` line of the text (one of `%GROUPS%`, `%LICENSE%`, `%DEPENDS%`,
/// `%OPTDEPENDS%`, `%PROVIDES%`) is followed by the content lines
/// `l1..lk` and then a header line or the end, the package's list for
/// that section ends with `trim(l1), ..., trim(lk)`, in order.
pub proof fn law_desc_list_section(text: Seq<char>, h: int, k: int, header: Seq<char>)
    requires
        is_list_header(header),
        0 <= h,
        0 <= k,
        h + 1 + k <= lines(text).len(),
        lines(text)[h] == header,
        forall|j: int| 1 <= j <= k ==> content_line(#[trigger] lines(text)[h + j]),
        h + 1 + k == lines(text).len() || is_header(lines(text)[h + 1 + k]),
        forall|j: int| h < j < lines(text).len() ==> #[trigger] lines(text)[j] != header,
        parse_desc_spec(text) is Some,
    ensures
        ({
            let got = section_list(parse_desc_spec(text)->0, header);
            &&& got.len() >= k
            &&& got.subrange(got.len() - k, got.len() as int) == Seq::new(
                k as nat,
                |j: int| trim(lines(text)[h + 1 + j]),
            )
        }),
{
    let ls = lines(text);
    lemma_list_headers(header);
    lemma_section_run(ls, h, k, header);
    let before = section_list(desc_fold(ls.take(h)), header);
    let run = Seq::new(k as nat, |j: int| trim(ls[h + 1 + j]));
    let e = h + 1 + k;
    if e < ls.len() {
        lemma_fold_take(ls, e + 1);
        assert(ls[e] != header);
        assert(header_field(ls[e]) != header_field(header));
        lemma_section_kept(ls, e + 1, ls.len() as int, header);
    }
    assert(ls.take(ls.len() as int) =~= ls);
    let got = section_list(desc_fold(ls), header);
    assert(got == before + run);
    assert(got.subrange(got.len() - k, got.len() as int) =~= run);
}

/// A dependency name is cut at its first `=`, `<` or `>` and trimmed; a
/// name without any of these is only trimmed.
pub proof fn law_dep_key_cuts_at_constraint(a: Seq<char>, c: char, b: Seq<char>)
    requires
        forall|k: int| 0 <= k < a.len() ==> #[trigger] a[k] != '=' && a[k] != '<' && a[k] != '>',
    ensures
        c == '=' || c == '<' || c == '>' ==> dep_key_spec(a + seq![c] + b) == trim(a),
        dep_key_spec(a) == trim(a),
{
    let s = a + seq![c] + b;
    assert forall|k: int| 0 <= k < a.len() implies !is_constraint_char(#[trigger] s[k]) by {
        assert(s[k] == a[k]);
    }
    if c == '=' || c == '<' || c == '>' {
        assert(s[a.len() as int] == c);
        lemma_constraint_index(s, a.len() as int);
        assert(s.take(a.len() as int) =~= a);
    }
    assert forall|k: int| 0 <= k < a.len() implies !is_constraint_char(#[trigger] a[k]) by {}
    lemma_constraint_index(a, a.len() as int);
    assert(a.take(a.len() as int) =~= a);
}

proof fn lemma_single_headers()
    ensures
        is_header("%NAME%"@) && header_field("%NAME%"@) == Some(DescField::Name),
        is_header("%VERSION%"@) && header_field("%VERSION%"@) == Some(DescField::Version),
        is_header("%DESC%"@) && header_field("%DESC%"@) == Some(DescField::Desc),
        is_header("%URL%"@) && header_field("%URL%"@) == Some(DescField::Url),
        is_header("%SIZE%"@) && header_field("%SIZE%"@) == Some(DescField::Size),
        is_header("%REASON%"@) && header_field("%REASON%"@) == Some(DescField::Reason),
        is_header("%INSTALLDATE%"@) && header_field("%INSTALLDATE%"@) == Some(DescField::InstallDate),
{
    assert(is_header("%NAME%"@) && header_field("%NAME%"@) == Some(DescField::Name)) by {
        reveal_strlit("%NAME%");
        assert("%NAME%"@.len() == 6);
    }
    assert(is_header("%VERSION%"@) && header_field("%VERSION%"@) == Some(DescField::Version)) by {
        reveal_strlit("%VERSION%");
        assert("%VERSION%"@.len() == 9);
        reveal_strlit("%NAME%");
        assert("%NAME%"@.len() == 6);
    }
    assert(is_header("%DESC%"@) && header_field("%DESC%"@) == Some(DescField::Desc)) by {
        reveal_strlit("%DESC%");
        assert("%DESC%"@.len() == 6);
        reveal_strlit("%NAME%");
        assert("%NAME%"@.len() == 6);
        assert("%DESC%"@[1] != "%NAME%"@[1]);
        reveal_strlit("%VERSION%");
        assert("%VERSION%"@.len() == 9);
    }
    assert(is_header("%URL%"@) && header_field("%URL%"@) == Some(DescField::Url)) by {
        reveal_strlit("%URL%");
        assert("%URL%"@.len() == 5);
        reveal_strlit("%NAME%");
        assert("%NAME%"@.len() == 6);
        reveal_strlit("%VERSION%");
        assert("%VERSION%"@.len() == 9);
        reveal_strlit("%DESC%");
        assert("%DESC%"@.len() == 6);
    }
    assert(is_header("%SIZE%"@) && header_field("%SIZE%"@) == Some(DescField::Size)) by {
        reveal_strlit("%SIZE%");
        assert("%SIZE%"@.len() == 6);
        reveal_strlit("%NAME%");
        assert("%NAME%"@.len() == 6);
        assert("%SIZE%"@[1] != "%NAME%"@[1]);
        reveal_strlit("%VERSION%");
        assert("%VERSION%"@.len() == 9);
        reveal_strlit("%DESC%");
        assert("%DESC%"@.len() == 6);
        assert("%SIZE%"@[1] != "%DESC%"@[1]);
        reveal_strlit("%URL%");
        assert("%URL%"@.len() == 5);
    }
    assert(is_header("%REASON%"@) && header_field("%REASON%"@) == Some(DescField::Reason)) by {
        reveal_strlit("%REASON%");
        assert("%REASON%"@.len() == 8);
        reveal_strlit("%NAME%");
        assert("%NAME%"@.len() == 6);
        reveal_strlit("%VERSION%");
        assert("%VERSION%"@.len() == 9);
        reveal_strlit("%DESC%");
        assert("%DESC%"@.len() == 6);
        reveal_strlit("%URL%");
        assert("%URL%"@.len() == 5);
        reveal_strlit("%SIZE%");
        assert("%SIZE%"@.len() == 6);
    }
    assert(is_header("%INSTALLDATE%"@) && header_field("%INSTALLDATE%"@) == Some(DescField::InstallDate)) by {
        reveal_strlit("%INSTALLDATE%");
        assert("%INSTALLDATE%"@.len() == 13);
        reveal_strlit("%NAME%");
        assert("%NAME%"@.len() == 6);
        reveal_strlit("%VERSION%");
        assert("%VERSION%"@.len() == 9);
        reveal_strlit("%DESC%");
        assert("%DESC%"@.len() == 6);
        reveal_strlit("%URL%");
        assert("%URL%"@.len() == 5);
        reveal_strlit("%SIZE%");
        assert("%SIZE%"@.len() == 6);
        reveal_strlit("%REASON%");
        assert("%REASON%"@.len() == 8);
        reveal_strlit("%GROUPS%");
        assert("%GROUPS%"@.len() == 8);
        reveal_strlit("%LICENSE%");
        assert("%LICENSE%"@.len() == 9);
        reveal_strlit("%DEPENDS%");
        assert("%DEPENDS%"@.len() == 9);
        reveal_strlit("%OPTDEPENDS%");
        assert("%OPTDEPENDS%"@.len() == 12);
        reveal_strlit("%PROVIDES%");
        assert("%PROVIDES%"@.len() == 10);
    }
}

proof fn lemma_fold_two(ls: Seq<Seq<char>>, a: Seq<char>, b: Seq<char>)
    ensures
        desc_fold(ls + seq![a, b]) == desc_step(desc_step(desc_fold(ls), a), b),
        desc_fold(ls + seq![a]) == desc_step(desc_fold(ls), a),
{
    assert((ls + seq![a, b]).drop_last() =~= ls + seq![a]);
    assert((ls + seq![a]).drop_last() =~= ls);
}

/// The single-valued sections of a `desc` file, read after any lines `ls`:
/// the first content line `c` after `%URL%` is the URL, after `%SIZE%` the
/// size (0 when it is no number), after `%REASON%` the reason (`1` =
/// installed as a dependency), after `%INSTALLDATE%` the install time; a
/// further line `d` changes none of these. Under `%NAME%`, `%VERSION%` and
/// `%DESC%` the first content line counts, unless the value is already set.
pub proof fn law_desc_single_fields(ls: Seq<Seq<char>>, c: Seq<char>, d: Seq<char>)
    requires
        content_line(c),
        content_line(d),
    ensures
        desc_fold(ls + seq!["%URL%"@, c]).url == trim(c),
        desc_fold(ls + seq!["%URL%"@, c, d]).url == trim(c),
        desc_fold(ls + seq!["%SIZE%"@, c]).size == (match parse_u64_spec(trim(c)) {
            Some(v) => v,
            None => 0,
        }),
        desc_fold(ls + seq!["%SIZE%"@, c, d]).size == desc_fold(ls + seq!["%SIZE%"@, c]).size,
        desc_fold(ls + seq!["%REASON%"@, c]).as_dep == (trim(c) == "1"@),
        desc_fold(ls + seq!["%REASON%"@, c, d]).as_dep == (trim(c) == "1"@),
        desc_fold(ls + seq!["%INSTALLDATE%"@, c]).install_date == parse_i64_spec(trim(c)),
        desc_fold(ls + seq!["%INSTALLDATE%"@, c, d]).install_date == parse_i64_spec(trim(c)),
        desc_fold(ls).name.len() == 0 ==> desc_fold(ls + seq!["%NAME%"@, c]).name == trim(c),
        desc_fold(ls).name.len() > 0 ==> desc_fold(ls + seq!["%NAME%"@, c]).name == desc_fold(ls).name,
        desc_fold(ls).version.len() == 0 ==> desc_fold(ls + seq!["%VERSION%"@, c]).version == trim(c),
        desc_fold(ls).desc.len() == 0 ==> desc_fold(ls + seq!["%DESC%"@, c]).desc == trim(c),
{
    lemma_single_headers();
    lemma_fold_two(ls, "%URL%"@, c);
    lemma_fold_two(ls, "%SIZE%"@, c);
    lemma_fold_two(ls, "%REASON%"@, c);
    lemma_fold_two(ls, "%INSTALLDATE%"@, c);
    lemma_fold_two(ls, "%NAME%"@, c);
    lemma_fold_two(ls, "%VERSION%"@, c);
    lemma_fold_two(ls, "%DESC%"@, c);
    lemma_fold_two(ls + seq!["%URL%"@], c, d);
    lemma_fold_two(ls + seq!["%SIZE%"@], c, d);
    lemma_fold_two(ls + seq!["%REASON%"@], c, d);
    lemma_fold_two(ls + seq!["%INSTALLDATE%"@], c, d);
    assert(ls + seq!["%URL%"@] + seq![c, d] =~= ls + seq!["%URL%"@, c, d]);
    assert(ls + seq!["%SIZE%"@] + seq![c, d] =~= ls + seq!["%SIZE%"@, c, d]);
    assert(ls + seq!["%REASON%"@] + seq![c, d] =~= ls + seq!["%REASON%"@, c, d]);
    assert(ls + seq!["%INSTALLDATE%"@] + seq![c, d] =~= ls + seq!["%INSTALLDATE%"@, c, d]);
    assert(!is_header(c) && !is_header(d));
}

} // verus!
