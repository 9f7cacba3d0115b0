use alpm_cleaner::db::{
    dep_key, foreign_names, foreign_names_from_output, index_db, lookup, parse_desc, required_by,
    sort_by_name, Pkg,
};

fn pkg(name: &str, depends: &[&str], provides: &[&str]) -> Pkg {
    Pkg {
        name: name.into(),
        version: "1".into(),
        desc: String::new(),
        size: 0,
        as_dep: false,
        foreign: false,
        url: String::new(),
        groups: vec![],
        licenses: vec![],
        depends: depends.iter().map(|s| s.to_string()).collect(),
        optdepends: vec![],
        provides: provides.iter().map(|s| s.to_string()).collect(),
        install_date: None,
    }
}

#[test]
fn dep_key_strips_constraints() {
    assert_eq!(dep_key("libreadline.so=8-64"), "libreadline.so");
    assert_eq!(dep_key("foo>=1.0"), "foo");
    assert_eq!(dep_key("plain"), "plain");
}

#[test]
fn required_by_resolves_through_provides() {
    let bash = pkg("bash", &[], &["sh"]);
    let pkgs = vec![
        bash.clone(),
        pkg("user", &["sh"], &[]),
        pkg("other", &["zsh"], &[]),
    ];
    assert_eq!(required_by(&pkgs, &bash), vec!["user"]);
}

#[test]
fn dep_key_trims_and_is_idempotent() {
    assert_eq!(dep_key("  glibc <2.40 "), "glibc");
    assert_eq!(dep_key(&dep_key(" a=1 ")), dep_key(" a=1 "));
    assert_eq!(dep_key("=1"), "");
}

#[test]
fn required_by_is_sorted_and_skips_self() {
    let lib = pkg("lib", &["lib"], &["libx.so=1"]);
    let pkgs = vec![
        lib.clone(),
        pkg("zed", &["libx.so"], &[]),
        pkg("app", &["lib>=2"], &[]),
        pkg("none", &[], &[]),
    ];
    assert_eq!(required_by(&pkgs, &lib), vec!["app", "zed"]);
}

const DESC: &str = "%NAME%\nbash\n\n%VERSION%\n5.2.037-1\n\n%DESC%\nThe GNU Bourne Again shell\n\n\
%URL%\nhttps://www.gnu.org/software/bash/bash.html\n\n%SIZE%\n9644000\n\n%REASON%\n1\n\n\
%LICENSE%\nGPL-3.0-or-later\n\n%DEPENDS%\nreadline>=7.0\nglibc\nncurses\n\n\
%OPTDEPENDS%\nbash-completion: for tab completion\n\n%PROVIDES%\nsh\n\n%INSTALLDATE%\n1788889647\n";

#[test]
fn parse_desc_reads_fields() {
    let p = parse_desc(DESC).unwrap();
    assert_eq!(p.name, "bash");
    assert_eq!(p.version, "5.2.037-1");
    assert_eq!(p.desc, "The GNU Bourne Again shell");
    assert_eq!(p.url, "https://www.gnu.org/software/bash/bash.html");
    assert_eq!(p.size, 9644000);
    assert!(p.as_dep);
    assert!(!p.foreign);
    assert!(p.groups.is_empty());
    assert_eq!(p.licenses, vec!["GPL-3.0-or-later"]);
    assert_eq!(p.depends, vec!["readline>=7.0", "glibc", "ncurses"]);
    assert_eq!(p.optdepends, vec!["bash-completion: for tab completion"]);
    assert_eq!(p.provides, vec!["sh"]);
    assert_eq!(p.install_date, Some(1788889647));
}

#[test]
fn parse_desc_needs_a_name() {
    assert!(parse_desc("%VERSION%\n1\n").is_none());
    assert!(parse_desc("").is_none());
}

#[test]
fn parse_desc_bad_numbers_and_unknown_sections() {
    let p = parse_desc("%NAME%\n  x  \n%SIZE%\nlots\n%REASON%\n0\n%INSTALLDATE%\nsoon\n%XDATA%\nignored\n%NAME%\nsecond\n").unwrap();
    assert_eq!(p.name, "x");
    assert_eq!(p.size, 0);
    assert!(!p.as_dep);
    assert_eq!(p.install_date, None);
}

#[test]
fn parse_desc_single_value_fields_take_first_line() {
    let p = parse_desc("%NAME%\na\nb\n%URL%\nu1\nu2\n%SIZE%\n5\n6\n").unwrap();
    assert_eq!(p.name, "a");
    assert_eq!(p.url, "u1");
    assert_eq!(p.size, 5);
}

#[test]
fn foreign_names_take_first_words() {
    assert_eq!(foreign_names("yay 12.4-1\nparu 2.0-1\n\nyay 12.4-1\n"), vec!["paru", "yay"]);
    assert_eq!(foreign_names_from_output(b"zz 1\naa 2\n"), vec!["aa", "zz"]);
}

#[test]
fn index_db_marks_sorts_and_indexes() {
    assert!(index_db(vec![], &vec![]).is_none());
    let pkgs = vec![pkg("zsh", &[], &[]), pkg("bash", &[], &[]), pkg("yay", &[], &[])];
    let (sorted, idx) = index_db(pkgs, &vec!["yay".to_string()]).unwrap();
    let names: Vec<&str> = sorted.iter().map(|p| p.name.as_str()).collect();
    assert_eq!(names, vec!["bash", "yay", "zsh"]);
    assert!(sorted[1].foreign && !sorted[0].foreign && !sorted[2].foreign);
    assert_eq!(lookup(&idx, "zsh"), Some(2));
    assert_eq!(lookup(&idx, "bash"), Some(0));
    assert_eq!(lookup(&idx, "fish"), None);
}

#[test]
fn sort_by_name_is_stable() {
    let mut a = pkg("same", &[], &[]);
    a.version = "first".into();
    let mut b = pkg("same", &[], &[]);
    b.version = "second".into();
    let sorted = sort_by_name(vec![pkg("z", &[], &[]), a, pkg("b", &[], &[]), b]);
    let got: Vec<(String, String)> =
        sorted.iter().map(|p| (p.name.clone(), p.version.clone())).collect();
    assert_eq!(
        got,
        vec![
            ("b".to_string(), "1".to_string()),
            ("same".to_string(), "first".to_string()),
            ("same".to_string(), "second".to_string()),
            ("z".to_string(), "1".to_string()),
        ]
    );
}
