use alpm_cleaner::privilege::{
    env_privilege, is_root_output, pacman_argv, probed_privilege, Privilege,
};

#[test]
fn argv_shapes() {
    assert_eq!(pacman_argv(false, &["a".into()]), vec!["pacman", "-Rns", "a"]);
    // -Rns -c == -Rnsc
    assert_eq!(
        pacman_argv(true, &["a".into(), "b".into()]),
        vec!["pacman", "-Rns", "-c", "a", "b"]
    );
}

fn prefix(p: &Option<Privilege>) -> Option<Option<String>> {
    p.as_ref().map(|p| match p {
        Privilege::Direct => None,
        Privilege::Prefix(c) => Some(c.clone()),
    })
}

#[test]
fn env_privilege_order() {
    assert_eq!(prefix(&env_privilege(true, Some("sudo".into()), None)), Some(None));
    assert_eq!(prefix(&env_privilege(false, Some(" doas ".into()), Some("sudo".into()))), Some(Some("doas".into())));
    assert_eq!(prefix(&env_privilege(false, Some("   ".into()), Some("sudo".into()))), Some(None));
    assert_eq!(prefix(&env_privilege(false, None, Some("run0".into()))), Some(Some("run0".into())));
    assert_eq!(prefix(&env_privilege(false, None, Some("".into()))), Some(None));
    assert_eq!(prefix(&env_privilege(false, None, None)), None);
}

#[test]
fn probed_privilege_prefers_sudo_then_doas_then_run0() {
    assert_eq!(prefix(&Some(probed_privilege(true, true, true))), Some(Some("sudo".into())));
    assert_eq!(prefix(&Some(probed_privilege(false, true, true))), Some(Some("doas".into())));
    assert_eq!(prefix(&Some(probed_privilege(false, false, true))), Some(Some("run0".into())));
    assert_eq!(prefix(&Some(probed_privilege(false, false, false))), Some(None));
}

#[test]
fn root_is_uid_zero() {
    assert!(is_root_output(b"0\n"));
    assert!(!is_root_output(b"1000\n"));
    assert!(!is_root_output(b"00\n"));
    assert!(!is_root_output(b"\xff0"));
}

#[test]
fn privilege_prefix_and_display() {
    assert!(Privilege::Direct.prefix_args().is_empty());
    assert_eq!(Privilege::Direct.display(), "(root)");
    let p = Privilege::Prefix("doas".into());
    assert_eq!(p.prefix_args(), vec!["doas"]);
    assert_eq!(p.display(), "doas");
}
