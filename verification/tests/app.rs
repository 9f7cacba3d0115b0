use alpm_cleaner::app::{App, Focus, Mode, ReasonFilter, SortMode, SourceFilter};
use alpm_cleaner::db::Pkg;
use alpm_cleaner::numbers::human_size;
use alpm_cleaner::privilege::Privilege;
use alpm_cleaner::resolve::Preview;

fn pkg(name: &str, size: u64, as_dep: bool, foreign: bool) -> Pkg {
    Pkg {
        name: name.into(),
        version: "1".into(),
        desc: format!("{name} description"),
        size,
        as_dep,
        foreign,
        url: String::new(),
        groups: vec![],
        licenses: vec![],
        depends: vec![],
        optdepends: vec![],
        provides: vec![],
        install_date: None,
    }
}

fn app() -> App {
    let pkgs = vec![
        pkg("aaa", 100, false, false),
        pkg("bbb", 300, true, false),
        pkg("ccc", 200, false, true),
    ];
    let idx = pkgs
        .iter()
        .enumerate()
        .map(|(i, p)| (p.name.clone(), i))
        .collect();
    App::new(pkgs, idx, Privilege::Direct)
}

fn names(a: &App) -> Vec<String> {
    a.visible().iter().map(|&i| a.pkgs[i].name.clone()).collect()
}

#[test]
fn sort_size_is_largest_first() {
    let mut a = app();
    assert_eq!(names(&a), vec!["aaa", "bbb", "ccc"]);
    a.sort.toggle();
    assert_eq!(names(&a), vec!["bbb", "ccc", "aaa"]);
}

#[test]
fn source_and_reason_filters() {
    let mut a = app();
    a.source.cycle();
    assert_eq!(names(&a), vec!["aaa", "bbb"]);
    a.source.cycle();
    assert_eq!(names(&a), vec!["ccc"]);
    a.source.cycle();
    a.reason.cycle();
    assert_eq!(names(&a), vec!["aaa", "ccc"]);
    a.reason.cycle();
    assert_eq!(names(&a), vec!["bbb"]);
}

#[test]
fn text_filter_combines_with_source() {
    let mut a = app();
    a.filter = "desc".into();
    assert_eq!(names(&a).len(), 3);
    a.filter = "aaa".into();
    assert_eq!(names(&a), vec!["aaa"]);
}

#[test]
fn text_filter_ignores_case() {
    let mut a = app();
    a.filter = "BBB DESC".into();
    assert_eq!(names(&a), vec!["bbb"]);
    a.source.cycle();
    a.source.cycle();
    assert!(names(&a).is_empty());
}

#[test]
fn size_sort_keeps_name_order_for_equal_sizes() {
    let pkgs = vec![pkg("a", 5, false, false), pkg("b", 9, false, false), pkg("c", 5, false, false)];
    let idx = pkgs.iter().enumerate().map(|(i, p)| (p.name.clone(), i)).collect();
    let mut a = App::new(pkgs, idx, Privilege::Direct);
    a.sort = SortMode::Size;
    assert_eq!(names(&a), vec!["b", "a", "c"]);
}

#[test]
fn labels_and_cycles() {
    let mut s = SortMode::default();
    assert_eq!(s.label(), "name");
    s.toggle();
    assert_eq!(s.label(), "size↓");
    s.toggle();
    assert_eq!(s, SortMode::Name);
    let mut f = SourceFilter::default();
    assert_eq!(f.label(), "all");
    f.cycle();
    assert_eq!(f.label(), "repo");
    f.cycle();
    assert_eq!(f.label(), "AUR");
    f.cycle();
    assert_eq!(f, SourceFilter::All);
    let mut r = ReasonFilter::default();
    assert_eq!(r.label(), "all");
    r.cycle();
    assert_eq!(r.label(), "expl");
    r.cycle();
    assert_eq!(r.label(), "dep");
    r.cycle();
    assert_eq!(r, ReasonFilter::All);
}

#[test]
fn new_app_starts_empty() {
    let a = app();
    assert!(a.checked.is_empty());
    assert!(!a.cascade && !a.preview_pending);
    assert_eq!(a.mode, Mode::Normal);
    assert_eq!(a.focus, Focus::List);
    assert!(a.preview.removed.is_empty());
}

#[test]
fn toggle_cursor_checks_then_unchecks() {
    let mut a = app();
    a.cursor = 1;
    let req = a.toggle_cursor().expect("a preview is asked for");
    assert_eq!(a.checked, vec!["bbb"]);
    assert_eq!(req.targets, vec!["bbb"]);
    assert_eq!(req.generation, 1);
    assert!(!req.cascade);
    assert!(a.preview_pending);
    assert_eq!(a.preview_gen, 1);
    let again = a.toggle_cursor();
    assert!(a.checked.is_empty());
    assert!(again.is_none());
    assert!(!a.preview_pending);
}

#[test]
fn toggle_on_empty_list_does_nothing() {
    let mut a = app();
    a.filter = "nothing matches this".into();
    assert!(a.toggle_cursor().is_none());
    assert!(a.checked.is_empty());
}

#[test]
fn recompute_keeps_old_preview_until_polled() {
    let mut a = app();
    a.checked = vec!["ccc".into(), "aaa".into(), "gone".into()];
    let old = Preview { removed: vec!["x".into()], ..Default::default() };
    a.preview = old;
    let req = a.recompute().unwrap();
    assert_eq!(req.targets, vec!["aaa", "ccc"]);
    assert_eq!(a.preview.removed, vec!["x"]);
    assert!(a.preview_pending);
    a.poll_preview(None);
    assert!(a.preview_pending);
    a.preview_cursor = 7;
    a.poll_preview(Some(Preview { removed: vec!["aaa".into(), "ccc".into(), "dep".into()], ..Default::default() }));
    assert!(!a.preview_pending);
    assert_eq!(a.preview.removed, vec!["aaa", "ccc", "dep"]);
    assert_eq!(a.preview_cursor, 2);
    assert_eq!(a.preview_entries(), vec!["aaa", "ccc", "dep"]);
}

#[test]
fn apply_targets_and_command() {
    let mut a = app();
    assert_eq!(a.command_preview(), "pacman -Rns …");
    a.checked = vec!["ccc".into(), "zzz".into(), "aaa".into()];
    assert_eq!(a.apply_targets(), vec!["aaa", "ccc"]);
    a.cascade = true;
    a.priv_ = Privilege::Prefix("sudo".into());
    assert_eq!(a.command_preview(), "sudo pacman -Rns -c aaa ccc");
}

#[test]
fn cursor_moves_stay_in_range() {
    let mut a = app();
    a.move_cursor(10);
    assert_eq!(a.cursor, 2);
    a.move_cursor(-1);
    assert_eq!(a.cursor, 1);
    a.move_cursor(-10);
    assert_eq!(a.cursor, 0);
    a.cursor = 9;
    a.clamp_cursor();
    assert_eq!(a.cursor, 2);
    assert_eq!(a.cursor_pkg(), Some(2));
    a.filter = "none at all".into();
    a.clamp_cursor();
    assert_eq!(a.cursor, 0);
    assert_eq!(a.cursor_pkg(), None);
}

#[test]
fn preview_cursor_moves_stay_in_range() {
    let mut a = app();
    a.move_preview_cursor(3);
    assert_eq!(a.preview_cursor, 0);
    a.preview = Preview { removed: vec!["aaa".into(), "bbb".into()], ..Default::default() };
    a.move_preview_cursor(isize::MAX);
    assert_eq!(a.preview_cursor, 1);
    a.move_preview_cursor(isize::MIN);
    assert_eq!(a.preview_cursor, 0);
}

#[test]
fn hovered_follows_focus() {
    let mut a = app();
    a.cursor = 2;
    assert_eq!(a.hovered().unwrap().name, "ccc");
    a.focus = Focus::Preview;
    assert!(a.hovered().is_none());
    a.checked = vec!["bbb".into()];
    a.preview = Preview { removed: vec!["aaa".into(), "bbb".into(), "ghost".into()], ..Default::default() };
    a.preview_cursor = 1;
    assert_eq!(a.hovered().unwrap().name, "aaa");
    a.preview_cursor = 2;
    assert!(a.hovered().is_none());
}

#[test]
fn total_removal_size_counts_known_packages() {
    let mut a = app();
    a.preview = Preview { removed: vec!["bbb".into(), "ccc".into(), "ghost".into()], ..Default::default() };
    assert_eq!(a.total_removal_size(), 500);
    assert_eq!(a.checked_removal_size(), Some(500));
}

#[test]
fn removal_size_overflow_is_reported() {
    let pkgs = vec![pkg("big", u64::MAX, false, false), pkg("one", 1, false, false)];
    let idx = vec![("big".to_string(), 0), ("one".to_string(), 1)];
    let mut a = App::new(pkgs, idx, Privilege::Direct);
    a.preview = Preview { removed: vec!["big".into()], ..Default::default() };
    assert_eq!(a.checked_removal_size(), Some(u64::MAX));
    a.preview.removed.push("one".into());
    assert_eq!(a.checked_removal_size(), None);
}

#[test]
fn state_summary_text() {
    let mut a = app();
    a.checked = vec!["aaa".into()];
    a.source.cycle();
    assert_eq!(a.state_summary(), "sort:name src:repo show:all · 2/3 shown · 1 checked");
}

#[test]
fn reload_drops_names_no_longer_installed() {
    let mut a = app();
    a.checked = vec!["ccc".into(), "aaa".into()];
    a.cursor = 2;
    let pkgs = vec![pkg("aaa", 1, false, false), pkg("ddd", 1, false, false)];
    let idx = vec![("aaa".to_string(), 0), ("ddd".to_string(), 1)];
    let req = a.reload(pkgs, idx).unwrap();
    assert_eq!(a.checked, vec!["aaa"]);
    assert_eq!(a.cursor, 0);
    assert_eq!(req.targets, vec!["aaa"]);
}

#[test]
fn human_size_values() {
    assert_eq!(human_size(0), "0 B");
    assert_eq!(human_size(1023), "1023 B");
    assert_eq!(human_size(1024), "1.0 KiB");
    assert_eq!(human_size(1126), "1.1 KiB");
    assert_eq!(human_size(1280), "1.2 KiB");
    assert_eq!(human_size(1792), "1.8 KiB");
    assert_eq!(human_size(1048576), "1.0 MiB");
    assert_eq!(human_size(9644000), "9.2 MiB");
    assert_eq!(human_size(1u64 << 40), "1.0 TiB");
    assert_eq!(human_size(u64::MAX), "16777216.0 TiB");
}
