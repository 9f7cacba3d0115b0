use alpm_cleaner::app::{App, Focus, Mode};
use alpm_cleaner::db::Pkg;
use alpm_cleaner::panes::{meta_line, LineKind};
use alpm_cleaner::privilege::Privilege;
use alpm_cleaner::ui::{centered, fit, join_fit, keybinds_line, list_window, Area};

fn pkg(name: &str, desc: &str, depends: &[&str]) -> Pkg {
    Pkg {
        name: name.into(),
        version: "1.0-1".into(),
        desc: desc.into(),
        size: 1024,
        as_dep: false,
        foreign: false,
        url: String::new(),
        groups: vec![],
        licenses: vec!["MIT".into()],
        depends: depends.iter().map(|s| s.to_string()).collect(),
        optdepends: vec![],
        provides: vec![],
        install_date: Some(1788889647),
    }
}

fn app() -> App {
    let pkgs = vec![
        pkg("app", "does things", &["lib"]),
        pkg("lib", "shared stuff", &[]),
    ];
    let idx = pkgs
        .iter()
        .enumerate()
        .map(|(i, p)| (p.name.clone(), i))
        .collect();
    let mut a = App::new(pkgs, idx, Privilege::Direct);
    // A canned preview in place of the background worker's.
    a.preview_pending = false;
    a.preview.removed = vec!["app".into(), "lib".into()];
    a
}

#[test]
fn info_follows_list_cursor() {
    let mut a = app();
    a.focus = Focus::List;
    a.cursor = 1;
    assert_eq!(a.hovered().unwrap().name, "lib");
    let info = a.info_view(98).unwrap();
    assert!(info.desc.contains("shared stuff"), "info shows hovered desc");
    assert!(info.required_by.contains("required by (1): app"), "info shows required-by");
}

#[test]
fn info_follows_preview_cursor() {
    let mut a = app();
    a.checked.push("app".into());
    a.focus = Focus::Preview;
    a.preview_cursor = 1;
    assert_eq!(a.hovered().unwrap().name, "lib");
    let info = a.info_view(98).unwrap();
    assert!(info.desc.contains("shared stuff"));
    let pane = a.preview_view(20);
    assert!(pane.title.contains("[2/2]"), "title shows preview cursor position");
}

#[test]
fn fit_truncates() {
    assert_eq!(fit("hello", 10), "hello");
    assert_eq!(fit("hello world", 5), "hell…");
}

#[test]
fn join_fit_caps_output() {
    let items = vec!["a".to_string(), "b".to_string(), "c".to_string()];
    assert_eq!(join_fit("x", &items, 100), "x (3): a, b, c");
    assert_eq!(join_fit("x", &[] as &[String], 100), "x: none");
    let s = join_fit("x", &items, 12);
    assert!(s.contains("+"), "overflow summarized, got: {s}");
    assert!(s.chars().count() <= 20, "roughly bounded, got: {s}");
}

#[test]
fn fit_edge_widths() {
    assert_eq!(fit("abc", 0), "");
    assert_eq!(fit("abc", 1), "…");
    assert_eq!(fit("héllo", 5), "héllo");
}

#[test]
fn join_fit_exact_counts() {
    let items = vec!["alpha".to_string(), "beta".to_string(), "gamma".to_string()];
    assert_eq!(join_fit("deps", &items, 20), "deps (3): alpha +2 more");
    assert_eq!(join_fit("deps", &items, 0), "deps (3):  +3 more");
}

#[test]
fn info_pane_lines() {
    let mut a = app();
    a.cursor = 0;
    let info = a.info_view(98).unwrap();
    assert_eq!(info.name, "app");
    assert_eq!(info.head, " 1.0-1  1.0 KiB");
    assert_eq!(info.meta, "installed 2026-09-08 · explicit · repo · license: MIT");
    assert_eq!(info.depends, "depends (1): lib");
    assert_eq!(info.optional, "optional: none");
    assert_eq!(info.required_by, "required by: none");
    a.filter = "nothing".into();
    assert!(a.info_view(98).is_none());
}

#[test]
fn meta_line_without_date() {
    let mut p = pkg("x", "", &[]);
    p.as_dep = true;
    p.foreign = true;
    p.groups = vec!["g1".into(), "g2".into()];
    p.provides = vec!["y".into()];
    p.url = "https://x".into();
    assert_eq!(
        meta_line(&p, None),
        "installed ? · dep · AUR/foreign · groups: g1,g2 · license: MIT · provides: y · https://x"
    );
    assert_eq!(meta_line(&p, Some("2001-09-09".into())).starts_with("installed 2001-09-09 ·"), true);
}

#[test]
fn list_window_keeps_cursor_near_middle() {
    assert_eq!(list_window(0, 10, 100), (0, 10));
    assert_eq!(list_window(50, 10, 100), (46, 56));
    assert_eq!(list_window(99, 10, 100), (90, 100));
    assert_eq!(list_window(3, 10, 5), (0, 5));
    assert_eq!(list_window(0, 0, 5), (0, 0));
    assert_eq!(list_window(0, 10, 0), (0, 0));
}

#[test]
fn list_pane_rows() {
    let mut a = app();
    a.checked.push("lib".into());
    a.cursor = 1;
    let v = a.list_view(10);
    assert_eq!(v.title, " Installed [name|all|all] (2/2) ");
    assert_eq!(v.rows.len(), 2);
    assert_eq!(v.rows[0].lead, " [ ] ");
    assert_eq!(v.rows[1].lead, ">[x] ");
    assert!(v.rows[1].checked);
    assert_eq!(v.rows[1].name, "lib");
    assert_eq!(v.rows[1].version, " 1.0-1 ");
    assert_eq!(v.rows[1].badge, "[E]");
    assert_eq!(v.rows[1].size, " 1.0 KiB");
    a.filter = "shared".into();
    assert_eq!(a.list_view(10).title, " Installed [name|all|all] [find: shared] (1/2) ");
}

#[test]
fn preview_pane_lines_and_scroll() {
    let mut a = app();
    a.checked.push("app".into());
    a.preview.breakages = vec![("user".into(), "app".into())];
    a.preview.missing = vec!["nope".into(), "gone".into()];
    a.preview.error = Some("error: boom".into());
    a.preview.hold_pkg = true;
    a.preview_pending = true;
    let v = a.preview_view(30);
    assert_eq!(v.title, " Would remove -Rns … (2.0 KiB: 2 pkgs) ");
    let kinds: Vec<LineKind> = v.lines.iter().map(|l| l.kind).collect();
    assert_eq!(
        kinds,
        vec![
            LineKind::Selected,
            LineKind::Pulled,
            LineKind::Blank,
            LineKind::Blocked,
            LineKind::Breakage,
            LineKind::Blank,
            LineKind::HoldPkg,
            LineKind::Blank,
            LineKind::Error,
            LineKind::Blank,
            LineKind::Missing,
        ]
    );
    assert_eq!(v.lines[0].text, "+ app");
    assert_eq!(v.lines[1].text, "↳ lib");
    assert_eq!(v.lines[4].text, "! user");
    assert_eq!(v.lines[4].note, " needs app");
    assert_eq!(v.lines[10].text, "not installed: nope, gone");
    assert!(v.lines.iter().all(|l| !l.highlighted));

    a.focus = Focus::Preview;
    a.preview_cursor = 1;
    a.preview_scroll = 5;
    let v = a.preview_view(1);
    assert!(v.lines[1].highlighted && !v.lines[0].highlighted);
    assert_eq!(a.preview_scroll, 1);
}

#[test]
fn preview_pane_hint_and_many_breakages() {
    let mut a = app();
    a.preview.removed = vec![];
    a.preview.breakages = (0..53).map(|i| (format!("d{i:02}"), "t".to_string())).collect();
    a.preview_scroll = 40;
    let v = a.preview_view(0);
    assert_eq!(v.lines[0].kind, LineKind::Hint);
    assert_eq!(v.lines[0].text, "check packages with <space> — preview appears here");
    assert_eq!(v.lines.len(), 1 + 2 + 50 + 1);
    assert_eq!(v.lines[v.lines.len() - 1].text, "… and 3 more");
    assert_eq!(a.preview_scroll, 0);
}

#[test]
fn prompt_and_confirm_texts() {
    let mut a = app();
    assert_eq!(a.prompt_text(), "sort:name src:all show:all · 2/2 shown · 0 checked");
    a.status = "mode: -Rns".into();
    assert_eq!(a.prompt_text(), "mode: -Rns");
    a.mode = Mode::Filter;
    a.filter = "li".into();
    assert_eq!(a.prompt_text(), ":li▌");
    a.checked = vec!["lib".into(), "app".into()];
    let c = a.confirm_view();
    assert_eq!(c.command, "pacman -Rns app lib");
    assert_eq!(c.explicit, "explicit: app lib");
    assert_eq!(c.total, "total removed: 2 pkgs, 2.0 KiB");
    assert_eq!(a.loaded_status(), "loaded 2 packages — privilege: (root)");
    assert_eq!(a.reloaded_status(), "reloaded 2 packages");
}

#[test]
fn blocked_hint_only_after_blocked_failure() {
    let mut a = app();
    assert!(a.blocked_hint(false).is_none());
    a.preview.breakages = vec![("u".into(), "app".into()), ("v".into(), "app".into())];
    assert_eq!(
        a.blocked_hint(false),
        Some("hint: 2 dependents block -Rns; press 'c' for -Rnsc cascade mode.".to_string())
    );
    assert!(a.blocked_hint(true).is_none());
    a.cascade = true;
    assert!(a.blocked_hint(false).is_none());
}

#[test]
fn keybinds_and_centered() {
    assert_eq!(keybinds_line(10), "spc toggl…");
    let r = centered(Area { x: 0, y: 0, width: 100, height: 30 }, 70, 12);
    assert_eq!(r, Area { x: 15, y: 9, width: 70, height: 12 });
    let r = centered(Area { x: 2, y: 1, width: 40, height: 10 }, 70, 12);
    assert_eq!(r, Area { x: 2, y: 1, width: 40, height: 10 });
}

#[test]
fn info_date_out_of_range_is_unknown() {
    let pkgs = vec![{
        let mut p = pkg("far", "future", &[]);
        p.install_date = Some(i64::MAX);
        p
    }, {
        let mut p = pkg("epoch", "past", &[]);
        p.install_date = Some(0);
        p
    }];
    let idx = vec![("far".to_string(), 0), ("epoch".to_string(), 1)];
    let mut a = App::new(pkgs, idx, Privilege::Direct);
    assert!(a.info_view(98).unwrap().meta.starts_with("installed ? · explicit"));
    a.cursor = 1;
    assert!(a.info_view(98).unwrap().meta.starts_with("installed 1970-01-01 · explicit"));
}
