//! Environment checks shown on the Connection screen: which required tools
//! are on `PATH`, the `base-devel` and devtools rows, the packaging config
//! shortcuts, and the reading of an SSH probe to the AUR.
//!
//! The `which`, `pacman` and `ssh` processes run in the application; it hands
//! their results to the functions here.
use vstd::prelude::*;

use crate::text::{
    append_chars, chars_of, contains, contains_exec, decimal, decimal_exec, lemma_deep_chars,
    lines, lines_exec, string_of, trim, trim_vec,
};
use crate::workflow::ssh_setup::{strings_of, strings_view};

verus! {

/// Information about a required or recommended external tool.
#[derive(Debug, Clone)]
pub struct ToolCheck {
    pub name: &'static str,
    pub purpose: &'static str,
    pub install_hint: &'static str,
    /// Where the tool was found on `PATH`.
    pub path: Option<String>,
    /// Which binary satisfied the row, when several are accepted.
    pub resolved_via: Option<&'static str>,
    /// Row satisfied without a `which` hit (e.g. `pacman -Qg` members).
    pub satisfied_without_binary: bool,
    /// Extra subtitle text (member counts, probe errors, …).
    pub detail: Option<String>,
}

/// Name, purpose and install hint of each required tool, in display order.
pub open spec fn required_tools() -> Seq<(Seq<char>, Seq<char>, Seq<char>)> {
    seq![
        ("makepkg"@, "build Arch packages"@, "pacman -S --needed base-devel"@),
        ("git"@, "clone and push the AUR repo"@, "pacman -S --needed git"@),
        ("ssh"@, "talk to aur.archlinux.org"@, "pacman -S --needed openssh"@),
        ("updpkgsums"@, "refresh sha256sums in the PKGBUILD"@, "pacman -S --needed pacman-contrib"@),
    ]
}

/// Rows for the required tools, given where `which` found each (in the order
/// of [`required_tools`]).
pub fn required_tool_checks(paths: Vec<Option<String>>) -> (r: Vec<ToolCheck>)
    requires
        paths.len() == 4,
    ensures
        r.len() == 4,
        forall|i: int|
            0 <= i < 4 ==> {
                &&& (#[trigger] r@[i]).name@ == required_tools()[i].0
                &&& r@[i].purpose@ == required_tools()[i].1
                &&& r@[i].install_hint@ == required_tools()[i].2
                &&& r@[i].path == paths@[i]
                &&& r@[i].resolved_via is None
                &&& !r@[i].satisfied_without_binary
                &&& r@[i].detail is None
            },
{
    let mut paths = paths;
    let p3 = paths.pop().unwrap();
    let p2 = paths.pop().unwrap();
    let p1 = paths.pop().unwrap();
    let p0 = paths.pop().unwrap();
    let r = vec![
        ToolCheck {
            name: "makepkg",
            purpose: "build Arch packages",
            install_hint: "pacman -S --needed base-devel",
            path: p0,
            resolved_via: None,
            satisfied_without_binary: false,
            detail: None,
        },
        ToolCheck {
            name: "git",
            purpose: "clone and push the AUR repo",
            install_hint: "pacman -S --needed git",
            path: p1,
            resolved_via: None,
            satisfied_without_binary: false,
            detail: None,
        },
        ToolCheck {
            name: "ssh",
            purpose: "talk to aur.archlinux.org",
            install_hint: "pacman -S --needed openssh",
            path: p2,
            resolved_via: None,
            satisfied_without_binary: false,
            detail: None,
        },
        ToolCheck {
            name: "updpkgsums",
            purpose: "refresh sha256sums in the PKGBUILD",
            install_hint: "pacman -S --needed pacman-contrib",
            path: p3,
            resolved_via: None,
            satisfied_without_binary: false,
            detail: None,
        },
    ];
    r
}

/// Devtools entrypoints, probed in this order.
pub open spec fn devtools_programs() -> Seq<Seq<char>> {
    seq!["pkgctl"@, "extra-x86_64-build"@, "makechrootpkg"@]
}

/// First devtools entrypoint found, from `which` results in
/// [`devtools_programs`] order (entries past the third are ignored).
pub open spec fn first_devtools(paths: Seq<Option<String>>) -> Option<(Seq<char>, String)>
    decreases paths.len(),
{
    first_devtools_from(paths, 0)
}

pub open spec fn first_devtools_from(paths: Seq<Option<String>>, i: int) -> Option<(Seq<char>, String)>
    decreases 3 - i,
{
    if i < 0 || i >= 3 || i >= paths.len() {
        None
    } else {
        match paths[i] {
            Some(p) => Some((devtools_programs()[i], p)),
            None => first_devtools_from(paths, i + 1),
        }
    }
}

fn devtools_program(i: usize) -> (r: &'static str)
    requires
        i < 3,
    ensures
        r@ == devtools_programs()[i as int],
{
    if i == 0 {
        "pkgctl"
    } else if i == 1 {
        "extra-x86_64-build"
    } else {
        "makechrootpkg"
    }
}

/// Maps `which` results (in `pkgctl`, `extra-x86_64-build`, `makechrootpkg`
/// order) to the first devtools entrypoint on `PATH`.
pub fn first_devtools_on_path(paths: &[Option<String>]) -> (r: Option<(&'static str, String)>)
    ensures
        match r {
            Some((n, p)) => first_devtools(paths@) matches Some((m, q)) && n@ == m && p@ == q@,
            None => first_devtools(paths@) is None,
        },
{
    let mut i: usize = 0;
    while i < 3 && i < paths.len()
        invariant
            i <= 3,
            first_devtools_from(paths@, i as int) == first_devtools(paths@),
        decreases 3 - i,
    {
        match &paths[i] {
            Some(p) => {
                let q = string_of(&chars_of(p.as_str()));
                return Some((devtools_program(i), q));
            },
            None => {},
        }
        i += 1;
    }
    None
}

/// Trimmed, non-empty lines.
pub open spec fn nonempty_lines(ls: Seq<Seq<char>>) -> Seq<Seq<char>>
    decreases ls.len(),
{
    if ls.len() == 0 {
        seq![]
    } else {
        let acc = nonempty_lines(ls.drop_last());
        let t = trim(ls.last());
        if t.len() > 0 {
            acc.push(t)
        } else {
            acc
        }
    }
}

/// The trimmed, non-empty lines of command output.
pub fn nonempty_trimmed_owned_lines(text: &str) -> (r: Vec<String>)
    ensures
        strings_view(r@) == nonempty_lines(lines(text@)),
{
    let v = chars_of(text);
    let ls = lines_exec(&v);
    let ghost lv = ls.deep_view();
    let mut kept: Vec<Vec<char>> = Vec::new();
    let mut i: usize = 0;
    assert(lv.take(0) =~= Seq::<Seq<char>>::empty());
    assert(kept.deep_view() =~= Seq::<Seq<char>>::empty());
    while i < ls.len()
        invariant
            i <= ls.len(),
            lv == ls.deep_view(),
            nonempty_lines(lv.take(i as int)) == kept.deep_view(),
        decreases ls.len() - i,
    {
        proof {
            lemma_deep_chars(&ls[i as int]);
        }
        assert(lv.take(i as int + 1).drop_last() =~= lv.take(i as int));
        assert(lv.take(i as int + 1).last() == ls@[i as int]@);
        let t = trim_vec(&ls[i]);
        if t.len() > 0 {
            let ghost k0 = kept.deep_view();
            let ghost tv = t@;
            proof {
                lemma_deep_chars(&t);
            }
            kept.push(t);
            assert(kept.deep_view() =~= k0.push(tv)) by {
                assert forall|k: int| 0 <= k < k0.len() implies kept.deep_view()[k] == k0[k] by {}
            }
        }
        i += 1;
    }
    assert(lv.take(ls.len() as int) =~= lv);
    strings_of(&kept)
}

/// What `pacman` said about `base-devel`.
#[derive(Debug)]
pub enum BaseDevelProbe {
    /// `pacman -Q base-devel` returned a version line.
    Metapackage(String),
    /// Result of the legacy `pacman -Qg base-devel` (installed group members).
    GroupMembers(Result<Vec<String>, String>),
}

/// Satisfaction and detail text of the `base-devel` row.
pub open spec fn base_devel_row(probe: BaseDevelProbe) -> (bool, Seq<char>) {
    match probe {
        BaseDevelProbe::Metapackage(line) => (true, "metapackage "@ + line@
            + " (pacman -Q base-devel)"@),
        BaseDevelProbe::GroupMembers(Ok(members)) => if members.len() > 0 {
            (true, decimal(members.len() as nat) + " installed members (pacman -Qg base-devel)"@)
        } else {
            (false, "no installed packages belong to base-devel"@)
        },
        BaseDevelProbe::GroupMembers(Err(e)) => (false, "could not query pacman ("@ + e@ + ")"@),
    }
}

/// The Connection row for `base-devel`, from the `pacman` probe.
pub fn tool_check_base_devel(probe: BaseDevelProbe) -> (r: ToolCheck)
    ensures
        r.name@ == "base-devel"@,
        r.purpose@ == "packaging meta-group on this system"@,
        r.install_hint@ == "pacman -S --needed base-devel"@,
        r.path is None,
        r.resolved_via is None,
        r.satisfied_without_binary == base_devel_row(probe).0,
        r.detail matches Some(d) && d@ == base_devel_row(probe).1,
{
    let (ok, detail) = match probe {
        BaseDevelProbe::Metapackage(line) => {
            let mut d = chars_of("metapackage ");
            append_chars(&mut d, &chars_of(line.as_str()));
            append_chars(&mut d, &chars_of(" (pacman -Q base-devel)"));
            (true, d)
        },
        BaseDevelProbe::GroupMembers(Ok(members)) => {
            if members.len() > 0 {
                let mut d = decimal_exec(members.len() as u64);
                append_chars(&mut d, &chars_of(" installed members (pacman -Qg base-devel)"));
                (true, d)
            } else {
                (false, chars_of("no installed packages belong to base-devel"))
            }
        },
        BaseDevelProbe::GroupMembers(Err(e)) => {
            let mut d = chars_of("could not query pacman (");
            append_chars(&mut d, &chars_of(e.as_str()));
            append_chars(&mut d, &chars_of(")"));
            (false, d)
        },
    };
    ToolCheck {
        name: "base-devel",
        purpose: "packaging meta-group on this system",
        install_hint: "pacman -S --needed base-devel",
        path: None,
        resolved_via: None,
        satisfied_without_binary: ok,
        detail: Some(string_of(&detail)),
    }
}

/// The Connection row for `fakeroot`, from where `which` found it.
pub fn fakeroot_tool_check(path: Option<String>) -> (r: ToolCheck)
    ensures
        r.name@ == "fakeroot"@,
        r.purpose@ == "makepkg --fakeroot / packaging checks (ships in base-devel)"@,
        r.install_hint@ == "pacman -S --needed base-devel"@,
        r.path == path,
        r.resolved_via is None,
        !r.satisfied_without_binary,
        r.detail is None,
{
    ToolCheck {
        name: "fakeroot",
        purpose: "makepkg --fakeroot / packaging checks (ships in base-devel)",
        install_hint: "pacman -S --needed base-devel",
        path,
        resolved_via: None,
        satisfied_without_binary: false,
        detail: None,
    }
}

/// The Connection row for devtools, from `which` results for its entrypoints.
pub fn devtools_tool_check(paths: &[Option<String>]) -> (r: ToolCheck)
    ensures
        r.name@ == "devtools"@,
        r.purpose@ == "clean chroot builds (recommended before pushing to the AUR)"@,
        r.install_hint@ == "pacman -S --needed devtools"@,
        match first_devtools(paths@) {
            Some((n, p)) => (r.path matches Some(x) && x@ == p@) && (r.resolved_via matches Some(m)
                && m@ == n),
            None => r.path is None && r.resolved_via is None,
        },
        !r.satisfied_without_binary,
        r.detail is None,
{
    let hit = first_devtools_on_path(paths);
    let (path, via) = match hit {
        Some((n, p)) => (Some(p), Some(n)),
        None => (None, None),
    };
    ToolCheck {
        name: "devtools",
        purpose: "clean chroot builds (recommended before pushing to the AUR)",
        install_hint: "pacman -S --needed devtools",
        path,
        resolved_via: via,
        satisfied_without_binary: false,
        detail: None,
    }
}

/// Packaging paths the Connection screen may open.
#[derive(Clone, Copy, Debug, PartialEq, Eq, Structural)]
pub enum PackagingConfigTarget {
    /// System `makepkg` configuration.
    MakepkgConf,
    /// `devtools` shipped snippets.
    DevtoolsShareDir,
}

pub open spec fn target_path(t: PackagingConfigTarget) -> Seq<char> {
    match t {
        PackagingConfigTarget::MakepkgConf => "/etc/makepkg.conf"@,
        PackagingConfigTarget::DevtoolsShareDir => "/usr/share/devtools"@,
    }
}

impl PackagingConfigTarget {
    /// Absolute path of this target (fixed allowlist).
    pub fn abs_path(self) -> (r: &'static str)
        ensures
            r@ == target_path(self),
    {
        match self {
            PackagingConfigTarget::MakepkgConf => "/etc/makepkg.conf",
            PackagingConfigTarget::DevtoolsShareDir => "/usr/share/devtools",
        }
    }
}

/// The allowlisted absolute path for a packaging config shortcut.
pub fn packaging_config_path(target: PackagingConfigTarget) -> (r: &'static str)
    ensures
        r@ == target_path(target),
{
    target.abs_path()
}

/// Outcome of a non-interactive SSH probe to the AUR.
#[derive(Debug, Clone)]
pub enum SshProbe {
    /// The AUR greeted us; the banner usually contains "Welcome".
    Authenticated { banner: String },
    /// The connection went through but the key was not accepted.
    KeyRejected { banner: String },
    /// SSH itself failed (DNS, firewall, no command, host key prompt).
    Failed { stderr: String, exit_code: i32 },
}

/// Text of the probe: stdout, or stderr when stdout is blank.
pub open spec fn probe_banner(stdout: Seq<char>, stderr: Seq<char>) -> Seq<char> {
    if trim(stdout).len() == 0 {
        stderr
    } else {
        stdout
    }
}

/// Reads the output of `ssh -T aur@aur.archlinux.org`: a banner with
/// "Welcome" means authenticated; "Permission denied" or "publickey" means the
/// key was rejected; anything else is a failure.
pub fn classify_ssh_probe(stdout: String, stderr: String, exit_code: i32) -> (r: SshProbe)
    ensures
        ({
            let banner = probe_banner(stdout@, stderr@);
            if contains(banner, "Welcome"@) {
                r matches SshProbe::Authenticated { banner: b } && b@ == banner
            } else if contains(banner, "Permission denied"@) || contains(banner, "publickey"@) {
                r matches SshProbe::KeyRejected { banner: b } && b@ == banner
            } else {
                r matches SshProbe::Failed { stderr: b, exit_code: c } && b@ == banner && c
                    == exit_code
            }
        }),
{
    let banner = if trim_vec(&chars_of(stdout.as_str())).len() == 0 {
        stderr
    } else {
        stdout
    };
    let bv = chars_of(banner.as_str());
    if contains_exec(&bv, &chars_of("Welcome")) {
        return SshProbe::Authenticated { banner };
    }
    if contains_exec(&bv, &chars_of("Permission denied")) || contains_exec(
        &bv,
        &chars_of("publickey"),
    ) {
        return SshProbe::KeyRejected { banner };
    }
    SshProbe::Failed { stderr: banner, exit_code }
}

/// Whether an SSH probe to the AUR is meaningful: a key is configured, or the
/// conventional `~/.ssh/aur` private key exists.
pub fn aur_ssh_probe_is_relevant(ssh_key: Option<&str>, default_key_exists: bool) -> (r: bool)
    ensures
        r == (ssh_key is Some || default_key_exists),
{
    ssh_key.is_some() || default_key_exists
}

/// Every required tool was found on `PATH`.
pub open spec fn tools_found(tools: Seq<ToolCheck>) -> bool {
    forall|i: int| 0 <= i < tools.len() ==> (#[trigger] tools[i]).path is Some
}

/// Whether every required tool row found its binary.
pub fn required_tools_found(tools: &Vec<ToolCheck>) -> (r: bool)
    ensures
        r == tools_found(tools@),
{
    let mut i: usize = 0;
    while i < tools.len()
        invariant
            i <= tools.len(),
            forall|j: int| 0 <= j < i ==> (#[trigger] tools@[j]).path is Some,
        decreases tools.len() - i,
    {
        if tools[i].path.is_none() {
            return false;
        }
        i += 1;
    }
    true
}

/// The Connection tab is healthy: all required tools found and, when an SSH
/// probe was relevant (`Some`), that probe authenticated.
pub open spec fn connection_healthy(tools: Seq<ToolCheck>, probe: Option<Result<SshProbe, String>>) -> bool {
    tools_found(tools) && match probe {
        None => true,
        Some(Ok(SshProbe::Authenticated { .. })) => true,
        Some(_) => false,
    }
}

/// Whether the Connection tab shows the healthy indicator (see
/// [`connection_healthy`]); the application probes SSH only when
/// [`aur_ssh_probe_is_relevant`] holds.
pub fn connection_tab_healthy(tools: &Vec<ToolCheck>, probe: Option<&Result<SshProbe, String>>) -> (r: bool)
    ensures
        r == connection_healthy(tools@, match probe {
            Some(p) => Some(*p),
            None => None,
        }),
{
    if !required_tools_found(tools) {
        return false;
    }
    match probe {
        None => true,
        Some(Ok(SshProbe::Authenticated { .. })) => true,
        Some(_) => false,
    }
}

} // verus!
