use alpm_cleaner::app::{App, Focus, Mode};
use alpm_cleaner::db::Pkg;
use alpm_cleaner::keys::{Key, KeyPress};
use alpm_cleaner::privilege::Privilege;

fn pkg(name: &str, size: u64) -> Pkg {
    Pkg {
        name: name.into(),
        version: "1".into(),
        desc: String::new(),
        size,
        as_dep: false,
        foreign: false,
        url: String::new(),
        groups: vec![],
        licenses: vec![],
        depends: vec![],
        optdepends: vec![],
        provides: vec![],
        install_date: None,
    }
}

fn app() -> App {
    let pkgs = vec![pkg("a", 1), pkg("b", 3), pkg("c", 2)];
    let idx = pkgs.iter().enumerate().map(|(i, p)| (p.name.clone(), i)).collect();
    App::new(pkgs, idx, Privilege::Direct)
}

fn press(a: &mut App, k: Key) -> alpm_cleaner::keys::Outcome {
    a.handle_key(KeyPress { key: k, ctrl: false })
}

#[test]
fn q_quits_only_in_normal_mode() {
    let mut a = app();
    a.status = "stale".into();
    let out = press(&mut a, Key::Char('q'));
    assert!(out.quit && !out.apply && out.request.is_none());
    assert!(a.status.is_empty());
    a.mode = Mode::Filter;
    let out = press(&mut a, Key::Char('q'));
    assert!(!out.quit);
    assert_eq!(a.filter, "q");
}

#[test]
fn search_prompt_editing() {
    let mut a = app();
    press(&mut a, Key::Char('/'));
    assert_eq!(a.mode, Mode::Filter);
    a.cursor = 2;
    press(&mut a, Key::Char('b'));
    assert_eq!(a.filter, "b");
    assert_eq!(a.cursor, 0);
    a.handle_key(KeyPress { key: Key::Char('x'), ctrl: true });
    assert_eq!(a.filter, "b");
    press(&mut a, Key::Backspace);
    press(&mut a, Key::Backspace);
    assert_eq!(a.filter, "");
    press(&mut a, Key::Char('c'));
    press(&mut a, Key::Enter);
    assert_eq!(a.mode, Mode::Normal);
    assert_eq!(a.filter, "c");
    press(&mut a, Key::Esc);
    assert_eq!(a.filter, "");
}

#[test]
fn toggling_and_cascade_ask_for_previews() {
    let mut a = app();
    let out = press(&mut a, Key::Char(' '));
    let req = out.request.unwrap();
    assert_eq!(req.targets, vec!["a"]);
    assert!(!req.cascade);
    let out = press(&mut a, Key::Char('c'));
    let req = out.request.unwrap();
    assert!(req.cascade);
    assert_eq!(req.generation, 2);
    assert_eq!(a.status, "mode: -Rnsc (cascade)");
    press(&mut a, Key::Char('c'));
    assert_eq!(a.status, "mode: -Rns");
    a.focus = Focus::Preview;
    let out = press(&mut a, Key::Enter);
    assert!(out.request.is_none());
    assert_eq!(a.checked, vec!["a"]);
}

#[test]
fn apply_asks_for_confirmation() {
    let mut a = app();
    press(&mut a, Key::Char('a'));
    assert_eq!(a.status, "nothing checked — nothing to apply");
    assert_eq!(a.mode, Mode::Normal);
    press(&mut a, Key::Char('x'));
    press(&mut a, Key::Char('a'));
    assert_eq!(a.mode, Mode::Confirm);
    let out = press(&mut a, Key::Char('z'));
    assert!(!out.apply);
    assert_eq!(a.mode, Mode::Confirm);
    let out = press(&mut a, Key::Char('n'));
    assert!(!out.apply);
    assert_eq!(a.status, "apply cancelled");
    press(&mut a, Key::Char('a'));
    let out = press(&mut a, Key::Char('y'));
    assert!(out.apply && !out.quit);
    assert_eq!(a.mode, Mode::Normal);
}

#[test]
fn movement_keys() {
    let mut a = app();
    press(&mut a, Key::Char('G'));
    assert_eq!(a.cursor, 2);
    press(&mut a, Key::Char('k'));
    assert_eq!(a.cursor, 1);
    press(&mut a, Key::PageDown);
    assert_eq!(a.cursor, 2);
    press(&mut a, Key::Home);
    assert_eq!(a.cursor, 0);
    press(&mut a, Key::Down);
    assert_eq!(a.cursor, 1);
    press(&mut a, Key::Char('s'));
    assert_eq!(a.sort, alpm_cleaner::app::SortMode::Size);
    press(&mut a, Key::Tab);
    assert_eq!(a.focus, Focus::Preview);
    press(&mut a, Key::Char('j'));
    assert_eq!(a.preview_cursor, 0);
    assert_eq!(a.cursor, 1);
}

#[test]
fn help_closes_on_any_key() {
    let mut a = app();
    press(&mut a, Key::Char('?'));
    assert_eq!(a.mode, Mode::Help);
    let out = press(&mut a, Key::Char('q'));
    assert!(!out.quit);
    assert_eq!(a.mode, Mode::Normal);
}

#[test]
fn filter_cycles_clamp_the_cursor() {
    let mut a = app();
    a.cursor = 2;
    press(&mut a, Key::Char('o'));
    press(&mut a, Key::Char('o'));
    assert_eq!(a.cursor, 0);
    press(&mut a, Key::Char('e'));
    assert_eq!(a.cursor, 0);
}
