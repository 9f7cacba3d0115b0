use vstd::prelude::*;
use crate::resolve::extend_cloned;
use crate::text::{chars_of_string, decode_lossy, string_of, string_views, trim, trim_chars, utf8_lossy};

verus! {

/// How to gain root for the final `pacman -R...` run.
#[derive(Debug, Clone)]
pub enum Privilege {
    /// Already root / run directly.
    Direct,
    /// Prefix command, e.g. `sudo`, `doas`, `run0`.
    Prefix(String),
}

/// The words put before the command.
pub open spec fn prefix_spec(p: Privilege) -> Seq<Seq<char>> {
    match p {
        Privilege::Direct => seq![],
        Privilege::Prefix(c) => seq![c@],
    }
}

/// How the privilege is shown.
pub open spec fn display_spec(p: Privilege) -> Seq<char> {
    match p {
        Privilege::Direct => "(root)"@,
        Privilege::Prefix(c) => c@,
    }
}

impl Privilege {
    /// The words to put before the command: none, or the prefix command.
    pub fn prefix_args(&self) -> (r: Vec<String>)
        ensures
            string_views(r@) == prefix_spec(*self),
    {
        match self {
            Privilege::Direct => {
                let r: Vec<String> = Vec::new();
                assert(string_views(r@) =~= Seq::<Seq<char>>::empty());
                r
            },
            Privilege::Prefix(p) => {
                let mut r: Vec<String> = Vec::new();
                r.push(p.clone());
                assert(string_views(r@) =~= seq![p@]);
                r
            },
        }
    }

    /// How the privilege is shown: `(root)` or the prefix command.
    pub fn display(&self) -> (r: &str)
        ensures
            r@ == display_spec(*self),
    {
        match self {
            Privilege::Direct => "(root)",
            Privilege::Prefix(p) => p.as_str(),
        }
    }
}

/// The decision that the process state alone makes, before any tool is
/// looked for: root runs directly; else the first of `$ALPM_CLEANER_PRIV`
/// and `$SUDO` that is set decides (blank = run directly).
pub open spec fn env_privilege_spec(
    is_root: bool,
    alpm_priv: Option<Seq<char>>,
    sudo: Option<Seq<char>>,
) -> Option<Option<Seq<char>>> {
    if is_root {
        Some(None)
    } else {
        match alpm_priv {
            Some(v) => Some(if trim(v).len() == 0 { None } else { Some(trim(v)) }),
            None => match sudo {
                Some(v) => Some(if trim(v).len() == 0 { None } else { Some(trim(v)) }),
                None => None,
            },
        }
    }
}

/// The prefix that `p` runs with, if any.
pub open spec fn prefix_of(p: Privilege) -> Option<Seq<char>> {
    match p {
        Privilege::Direct => None,
        Privilege::Prefix(c) => Some(c@),
    }
}

fn from_env_value(v: &String) -> (r: Privilege)
    ensures
        prefix_of(r) == (if trim(v@).len() == 0 {
            None
        } else {
            Some(trim(v@))
        }),
{
    let t = trim_chars(&chars_of_string(v));
    if t.len() == 0 {
        Privilege::Direct
    } else {
        Privilege::Prefix(string_of(&t))
    }
}

/// The privilege decided by the process state: `is_root`, and the values of
/// `$ALPM_CLEANER_PRIV` and `$SUDO` (`None` when unset). Nothing when it is
/// left to which of `sudo`, `doas`, `run0` is installed.
pub fn env_privilege(is_root: bool, alpm_priv: Option<String>, sudo: Option<String>) -> (r: Option<
    Privilege,
>)
    ensures
        match r {
            Some(p) => env_privilege_spec(
                is_root,
                crate::resolve::opt_string_view(alpm_priv),
                crate::resolve::opt_string_view(sudo),
            ) == Some(prefix_of(p)),
            None => env_privilege_spec(
                is_root,
                crate::resolve::opt_string_view(alpm_priv),
                crate::resolve::opt_string_view(sudo),
            ) is None,
        },
{
    if is_root {
        return Some(Privilege::Direct);
    }
    match alpm_priv {
        Some(v) => Some(from_env_value(&v)),
        None => match sudo {
            Some(v) => Some(from_env_value(&v)),
            None => None,
        },
    }
}

/// The privilege picked from the tools that are installed: `sudo`, else
/// `doas`, else `run0`, else none (the removal then fails with a message).
pub open spec fn probed_spec(sudo: bool, doas: bool, run0: bool) -> Option<Seq<char>> {
    if sudo {
        Some("sudo"@)
    } else if doas {
        Some("doas"@)
    } else if run0 {
        Some("run0"@)
    } else {
        None
    }
}

/// The privilege picked from which of `sudo`, `doas`, `run0` are installed.
pub fn probed_privilege(sudo: bool, doas: bool, run0: bool) -> (r: Privilege)
    ensures
        prefix_of(r) == probed_spec(sudo, doas, run0),
{
    if sudo {
        Privilege::Prefix(String::from_str("sudo"))
    } else if doas {
        Privilege::Prefix(String::from_str("doas"))
    } else if run0 {
        Privilege::Prefix(String::from_str("run0"))
    } else {
        Privilege::Direct
    }
}

/// Whether the output of `id -u` says the user is root: its text, trimmed,
/// is `0`.
pub fn is_root_output(stdout: &[u8]) -> (r: bool)
    ensures
        r == (trim(utf8_lossy(stdout@)) == "0"@),
{
    let t = trim_chars(&chars_of_string(&decode_lossy(stdout)));
    proof {
        reveal_strlit("0");
    }
    if t.len() == 1 && t[0] == '0' {
        assert(t@ =~= "0"@);
        true
    } else {
        false
    }
}

/// The apply command: `pacman -Rns [-c] <targets>` (without privilege prefix).
pub open spec fn pacman_argv_spec(cascade: bool, targets: Seq<Seq<char>>) -> Seq<Seq<char>> {
    seq!["pacman"@, "-Rns"@] + (if cascade {
        seq!["-c"@]
    } else {
        seq![]
    }) + targets
}

/// Builds the apply command argv (without privilege prefix).
pub fn pacman_argv(cascade: bool, targets: &[String]) -> (r: Vec<String>)
    ensures
        string_views(r@) == pacman_argv_spec(cascade, string_views(targets@)),
{
    let mut v: Vec<String> = Vec::new();
    v.push(String::from_str("pacman"));
    v.push(String::from_str("-Rns"));
    if cascade {
        v.push(String::from_str("-c"));
    }
    extend_cloned(&mut v, targets);
    assert(string_views(v@) =~= pacman_argv_spec(cascade, string_views(targets@)));
    v
}

/// As root the removal runs directly, whatever the environment says; a
/// blank override also means running directly.
pub proof fn law_root_runs_directly(alpm_priv: Option<Seq<char>>, sudo: Option<Seq<char>>)
    ensures
        env_privilege_spec(true, alpm_priv, sudo) == Some(None::<Seq<char>>),
        alpm_priv matches Some(v) && trim(v).len() == 0 ==> env_privilege_spec(false, alpm_priv, sudo)
            == Some(None::<Seq<char>>),
{
}

/// Outside root, `$ALPM_CLEANER_PRIV` decides when set, else `$SUDO` when
/// set: a blank value runs directly, anything else (trimmed) is the prefix
/// command; with neither set the installed tools decide, in the order
/// `sudo`, `doas`, `run0`, else the removal runs directly.
pub proof fn law_privilege_order(alpm_priv: Option<Seq<char>>, sudo: Option<Seq<char>>)
    ensures
        alpm_priv is Some && trim(alpm_priv->0).len() > 0 ==> env_privilege_spec(
            false,
            alpm_priv,
            sudo,
        ) == Some(Some(trim(alpm_priv->0))),
        alpm_priv is None ==> env_privilege_spec(false, alpm_priv, sudo) == match sudo {
            Some(v) => Some(if trim(v).len() == 0 {
                None
            } else {
                Some(trim(v))
            }),
            None => None::<Option<Seq<char>>>,
        },
        probed_spec(true, true, true) == Some("sudo"@),
        probed_spec(false, true, true) == Some("doas"@),
        probed_spec(false, false, true) == Some("run0"@),
        probed_spec(false, false, false) is None,
{
}

/// The removal command is `pacman -Rns`, then `-c` exactly in cascade mode,
/// then the targets in order.
pub proof fn law_removal_command_shape(cascade: bool, targets: Seq<Seq<char>>)
    ensures
        ({
            let a = pacman_argv_spec(cascade, targets);
            let n = if cascade {
                3int
            } else {
                2int
            };
            &&& a.len() == n + targets.len()
            &&& a[0] == "pacman"@
            &&& a[1] == "-Rns"@
            &&& cascade ==> a[2] == "-c"@
            &&& a.subrange(n, a.len() as int) == targets
        }),
{
    let a = pacman_argv_spec(cascade, targets);
    let n = if cascade {
        3int
    } else {
        2int
    };
    assert(a.subrange(n, a.len() as int) =~= targets);
}

} // verus!
