use aur_pkgbuilder::workflow::preflight::{connection_tab_healthy, required_tools_found, SshProbe, ToolCheck};
use aur_pkgbuilder::workflow::ssh_setup::{known_hosts_addition, SshSetupError};

fn tool(path: Option<&str>) -> ToolCheck {
    ToolCheck {
        name: "git",
        purpose: "p",
        install_hint: "h",
        path: path.map(|p| p.to_string()),
        resolved_via: None,
        satisfied_without_binary: false,
        detail: None,
    }
}

#[test]
fn connection_health_needs_tools_and_probe() {
    let ok_tools = vec![tool(Some("/usr/bin/git")), tool(Some("/usr/bin/ssh"))];
    let missing = vec![tool(Some("/usr/bin/git")), tool(None)];
    assert!(required_tools_found(&ok_tools));
    assert!(!required_tools_found(&missing));
    assert!(connection_tab_healthy(&ok_tools, None));
    assert!(!connection_tab_healthy(&missing, None));
    let auth: Result<SshProbe, String> = Ok(SshProbe::Authenticated { banner: "Welcome".into() });
    assert!(connection_tab_healthy(&ok_tools, Some(&auth)));
    let rejected: Result<SshProbe, String> = Ok(SshProbe::KeyRejected { banner: "Permission denied".into() });
    assert!(!connection_tab_healthy(&ok_tools, Some(&rejected)));
    let failed: Result<SshProbe, String> = Err("spawn ssh".into());
    assert!(!connection_tab_healthy(&ok_tools, Some(&failed)));
}

#[test]
fn known_hosts_addition_adds_newlines() {
    assert_eq!(known_hosts_addition(false, "aur ssh-ed25519 AAA\n").unwrap(), "aur ssh-ed25519 AAA\n");
    assert_eq!(known_hosts_addition(true, "aur ssh-ed25519 AAA").unwrap(), "\naur ssh-ed25519 AAA\n");
    match known_hosts_addition(false, "  \n") {
        Err(SshSetupError::Other(m)) => assert_eq!(m, "ssh-keyscan returned no host keys"),
        other => panic!("unexpected {other:?}"),
    }
}
