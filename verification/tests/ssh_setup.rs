use aur_pkgbuilder::workflow::ssh_setup::{
    aur_account_edit_url, check_keyscan_fingerprint, extract_sha256_fingerprints_from_html,
    format_ssh_add_agent_access_error, is_unreachable_ssh_agent_error, keyscan_key_lines,
    normalize_pubkey_for_clipboard, parse_public_key_header, parse_ssh_agent_sh_output,
    render_host_block, sha256_token_from_keygen_lf_line, trusted_fingerprints, upsert_host_block,
    with_pub_extension, known_hosts_update, ConfigState, SshKey, SshSetupError,
};

#[test]
fn upsert_creates_block_in_empty_file() {
    let (out, state) = upsert_host_block(
        "",
        "aur.archlinux.org",
        "Host aur.archlinux.org\n    User aur\n",
    );
    assert_eq!(state, ConfigState::Created);
    assert!(out.contains("Host aur.archlinux.org"));
}

#[test]
fn upsert_appends_to_existing_config() {
    let existing = "Host github.com\n    User git\n";
    let (out, state) = upsert_host_block(
        existing,
        "aur.archlinux.org",
        "Host aur.archlinux.org\n    User aur\n",
    );
    assert_eq!(state, ConfigState::Updated);
    assert!(out.contains("Host github.com"));
    assert!(out.contains("Host aur.archlinux.org"));
}

#[test]
fn upsert_replaces_existing_aur_block() {
    let existing = "\
Host aur.archlinux.org
    User aur
    IdentityFile ~/.ssh/old
Host github.com
    User git
";
    let block = "Host aur.archlinux.org\n    User aur\n    IdentityFile ~/.ssh/aur\n    IdentitiesOnly yes\n";
    let (out, state) = upsert_host_block(existing, "aur.archlinux.org", block);
    assert_eq!(state, ConfigState::Updated);
    assert!(out.contains("~/.ssh/aur"));
    assert!(!out.contains("~/.ssh/old"));
    assert!(out.contains("Host github.com"));
}

#[test]
fn upsert_exact_outputs() {
    let block = "Host aur.archlinux.org\n    User aur\n";
    let (out, state) = upsert_host_block("Host a\n    User b", "aur.archlinux.org", block);
    assert_eq!(out, "Host a\n    User b\n\nHost aur.archlinux.org\n    User aur\n");
    assert_eq!(state, ConfigState::Updated);
    let (again, state2) = upsert_host_block(&out, "aur.archlinux.org", block);
    assert_eq!(again, out);
    assert_eq!(state2, ConfigState::Unchanged);
}

#[test]
fn render_host_block_exact() {
    assert_eq!(
        render_host_block("/home/u/.ssh/aur"),
        "Host aur.archlinux.org\n    User aur\n    IdentityFile /home/u/.ssh/aur\n    IdentitiesOnly yes\n"
    );
}

#[test]
fn normalize_pubkey_trims_and_joins() {
    let raw = "  ssh-ed25519 AAAAC3NzaC1lZDI1NTE5AAAAI\n  comment with spaces  \n";
    let out = normalize_pubkey_for_clipboard(raw);
    assert_eq!(
        out,
        "ssh-ed25519 AAAAC3NzaC1lZDI1NTE5AAAAI comment with spaces"
    );
}

#[test]
fn normalize_pubkey_drops_hash_lines() {
    let raw = "# ignore me\nssh-rsa AAAAB3 comment\n";
    assert_eq!(
        normalize_pubkey_for_clipboard(raw),
        "ssh-rsa AAAAB3 comment"
    );
}

#[test]
fn extract_fps_from_homepage_snippet() {
    let html = r#"<p>Ed25519: SHA256:RFzBCUItH9LZS0cKB5UE6ceAYhBD5C8GeOBip8Z11+4</p>
        <p>ECDSA: SHA256:uTa/0PndEgPZTf76e1DFqXKJEXKsn7m9ivhLQtzGOCI</p>
        junk SHA256:notvalidbase64!!"#;
    let fps = extract_sha256_fingerprints_from_html(html);
    assert!(fps.contains(&"SHA256:RFzBCUItH9LZS0cKB5UE6ceAYhBD5C8GeOBip8Z11+4".to_string()));
    assert!(fps.contains(&"SHA256:uTa/0PndEgPZTf76e1DFqXKJEXKsn7m9ivhLQtzGOCI".to_string()));
}

#[test]
fn extract_fps_sorted_and_deduplicated() {
    let html = "SHA256:uTa/0PndEgPZTf76e1DFqXKJEXKsn7m9ivhLQtzGOCI x SHA256:RFzBCUItH9LZS0cKB5UE6ceAYhBD5C8GeOBip8Z11+4 y SHA256:uTa/0PndEgPZTf76e1DFqXKJEXKsn7m9ivhLQtzGOCI";
    let fps = extract_sha256_fingerprints_from_html(html);
    assert_eq!(
        fps,
        vec![
            "SHA256:RFzBCUItH9LZS0cKB5UE6ceAYhBD5C8GeOBip8Z11+4".to_string(),
            "SHA256:uTa/0PndEgPZTf76e1DFqXKJEXKsn7m9ivhLQtzGOCI".to_string(),
        ]
    );
}

#[test]
fn sha256_token_from_lf_parses_openssh_line() {
    let line =
        "256 SHA256:RFzBCUItH9LZS0cKB5UE6ceAYhBD5C8GeOBip8Z11+4 aur.archlinux.org (ED25519)";
    assert_eq!(
        sha256_token_from_keygen_lf_line(line).as_deref(),
        Some("SHA256:RFzBCUItH9LZS0cKB5UE6ceAYhBD5C8GeOBip8Z11+4")
    );
}

#[test]
fn sha256_token_too_short_is_none() {
    assert_eq!(sha256_token_from_keygen_lf_line("256 SHA256:abcdefgh x"), None);
    assert_eq!(
        sha256_token_from_keygen_lf_line("256 SHA256:abcdefghi x").as_deref(),
        Some("SHA256:abcdefghi")
    );
    assert_eq!(sha256_token_from_keygen_lf_line("no token here"), None);
}

#[test]
fn aur_account_edit_url_builds_path() {
    assert_eq!(
        aur_account_edit_url("SomeUser").unwrap(),
        "https://aur.archlinux.org/account/SomeUser/edit"
    );
    assert_eq!(
        aur_account_edit_url("  foo_bar-1.2  ").unwrap(),
        "https://aur.archlinux.org/account/foo_bar-1.2/edit"
    );
}

#[test]
fn aur_account_edit_url_rejects_empty_and_unsafe() {
    assert!(aur_account_edit_url("").is_err());
    assert!(aur_account_edit_url("   ").is_err());
    assert!(aur_account_edit_url("evil/name").is_err());
    assert!(aur_account_edit_url("x y").is_err());
}

#[test]
fn aur_account_edit_url_error_messages() {
    match aur_account_edit_url(" ") {
        Err(SshSetupError::Other(m)) => assert_eq!(
            m,
            "AUR username is empty — set it on the Connection or onboarding screen"
        ),
        _ => panic!("expected an error"),
    }
    match aur_account_edit_url("a b") {
        Err(SshSetupError::Other(m)) => assert_eq!(
            m,
            "AUR username contains characters that are not allowed in the account URL"
        ),
        _ => panic!("expected an error"),
    }
}

#[test]
fn parse_ssh_agent_sh_output_sample() {
    let sample = "SSH_AUTH_SOCK=/home/u/.ssh/agent/s.abc; export SSH_AUTH_SOCK;\n\
        SSH_AGENT_PID=1147085; export SSH_AGENT_PID;\n\
        echo Agent pid 1147085;\n";
    let env = parse_ssh_agent_sh_output(sample).expect("parse");
    assert_eq!(env.ssh_agent_pid, 1_147_085);
    assert_eq!(env.ssh_auth_sock, "/home/u/.ssh/agent/s.abc");
}

#[test]
fn parse_ssh_agent_output_needs_both_and_numeric_pid() {
    assert!(parse_ssh_agent_sh_output("SSH_AUTH_SOCK=/s;\n").is_none());
    assert!(parse_ssh_agent_sh_output("SSH_AUTH_SOCK=/s;\nSSH_AGENT_PID=abc;\n").is_none());
    assert!(parse_ssh_agent_sh_output("SSH_AUTH_SOCK=/s;\nSSH_AGENT_PID=99999999999;\n").is_none());
    let e = parse_ssh_agent_sh_output("SSH_AGENT_PID=+7\nSSH_AUTH_SOCK=  ;\nSSH_AUTH_SOCK=/x\n").unwrap();
    assert_eq!(e.ssh_agent_pid, 7);
    assert_eq!(e.ssh_auth_sock, "/x");
}

#[test]
fn format_ssh_add_agent_access_error_adds_sock_hint() {
    let msg = format_ssh_add_agent_access_error(
        "ssh-add -l failed",
        "Could not open a connection to your authentication agent.",
    );
    assert!(msg.contains("ssh-add -l failed"));
    assert!(msg.contains("SSH_AUTH_SOCK"));
}

#[test]
fn format_ssh_add_agent_access_error_pass_through_unrelated() {
    let msg = format_ssh_add_agent_access_error(
        "ssh-add failed",
        "Permission denied (publickey).",
    );
    assert_eq!(msg, "ssh-add failed: Permission denied (publickey).");
}

#[test]
fn unreachable_agent_error_detection() {
    assert!(is_unreachable_ssh_agent_error(&SshSetupError::Other(
        "Error connecting to agent: No such file".into()
    )));
    assert!(!is_unreachable_ssh_agent_error(&SshSetupError::Other("boom".into())));
    assert!(!is_unreachable_ssh_agent_error(&SshSetupError::NotImplemented(
        "could not connect to authentication agent".into()
    )));
}

#[test]
fn public_key_header_and_pub_extension() {
    let (alg, comment) = parse_public_key_header("ssh-ed25519 AAAA  me@host  \nsecond line");
    assert_eq!(alg, "ssh-ed25519");
    assert_eq!(comment, "me@host");
    let (alg2, comment2) = parse_public_key_header("ssh-rsa AAAA");
    assert_eq!(alg2, "ssh-rsa");
    assert_eq!(comment2, "");
    assert_eq!(with_pub_extension("/home/u/.ssh/aur"), "/home/u/.ssh/aur.pub");
}

#[test]
fn key_display_name_uses_file_name() {
    let mut key = SshKey {
        private_path: "/home/u/.ssh/aur".into(),
        public_path: "/home/u/.ssh/aur.pub".into(),
        algorithm: "ssh-ed25519".into(),
        comment: String::new(),
        fingerprint_sha256: None,
    };
    assert_eq!(key.display_name(), "aur");
    key.private_path = "/home/u/.ssh/./id_rsa/".into();
    assert_eq!(key.display_name(), "id_rsa");
    key.private_path = "/home/..".into();
    assert_eq!(key.display_name(), "/home/..");
}

#[test]
fn keyscan_lines_and_fingerprint_check() {
    let lines = keyscan_key_lines("# comment\n\naur.archlinux.org ssh-ed25519 AAAA\n  x y z  \n");
    assert_eq!(lines, vec!["aur.archlinux.org ssh-ed25519 AAAA".to_string(), "x y z".to_string()]);
    let trusted = trusted_fingerprints(None);
    assert_eq!(trusted.len(), 3);
    assert!(check_keyscan_fingerprint(
        "256 SHA256:RFzBCUItH9LZS0cKB5UE6ceAYhBD5C8GeOBip8Z11+4 aur (ED25519)",
        &trusted
    )
    .is_ok());
    assert!(check_keyscan_fingerprint("256 SHA256:AAAAAAAAAAAAAAAAAAAAAAAAA x", &trusted).is_err());
    assert!(check_keyscan_fingerprint("garbage", &trusted).is_err());
}

#[test]
fn trusted_fingerprints_prefers_fetched_list_of_right_size() {
    let fetched = vec!["a".to_string(), "b".to_string(), "c".to_string()];
    assert_eq!(trusted_fingerprints(Some(fetched.clone())), fetched);
    let too_few = vec!["a".to_string()];
    assert_eq!(
        trusted_fingerprints(Some(too_few))[0],
        "SHA256:RFzBCUItH9LZS0cKB5UE6ceAYhBD5C8GeOBip8Z11+4"
    );
}

#[test]
fn upsert_twice_on_replaced_block_reports_unchanged() {
    let block = render_host_block("/home/u/.ssh/aur_new");
    let existing = "Host github.com\n    User git\n\nHost aur.archlinux.org\n    User aur\n    IdentityFile /old\nMatch host x\n    User y\n";
    let (once, state1) = upsert_host_block(existing, "aur.archlinux.org", &block);
    assert_eq!(state1, ConfigState::Updated);
    assert_eq!(
        once,
        format!("Host github.com\n    User git\n\n{block}Match host x\n    User y\n")
    );
    let (twice, state2) = upsert_host_block(&once, "aur.archlinux.org", &block);
    assert_eq!(twice, once);
    assert_eq!(state2, ConfigState::Unchanged);
}

fn other(r: Result<String, SshSetupError>) -> String {
    match r {
        Err(SshSetupError::Other(m)) => m,
        _ => panic!("expected an error"),
    }
}

#[test]
fn known_hosts_update_appends_only_trusted_scans() {
    let trusted = vec![
        "SHA256:RFzBCUItH9LZS0cKB5UE6ceAYhBD5C8GeOBip8Z11+4".to_string(),
        "SHA256:uTa/0PndEgPZTf76e1DFqXKJEXKsn7m9ivhLQtzGOCI".to_string(),
    ];
    let scanned = "# aur.archlinux.org:22 SSH-2.0\naur.archlinux.org ssh-ed25519 AAAA1\naur.archlinux.org ssh-rsa AAAA2";
    let lfs = vec![
        "256 SHA256:RFzBCUItH9LZS0cKB5UE6ceAYhBD5C8GeOBip8Z11+4 no comment (ED25519)".to_string(),
        "3072 SHA256:uTa/0PndEgPZTf76e1DFqXKJEXKsn7m9ivhLQtzGOCI no comment (RSA)".to_string(),
    ];
    assert_eq!(keyscan_key_lines(scanned).len(), 2);
    assert_eq!(
        known_hosts_update(true, scanned, &lfs, &trusted).unwrap(),
        format!("\n{scanned}\n")
    );
    let bad = vec![lfs[0].clone(), "3072 SHA256:AAAAAAAAAAAAAAAAAAAAAAAAAAAA (RSA)".to_string()];
    assert!(other(known_hosts_update(false, scanned, &bad, &trusted))
        .starts_with("scanned host key SHA256:AAAAAAAAAAAAAAAAAAAAAAAAAAAA is not in the published"));
    let garbled = vec!["no fingerprint".to_string(), lfs[1].clone()];
    assert_eq!(
        other(known_hosts_update(false, scanned, &garbled, &trusted)),
        "could not parse SHA256 fingerprint from ssh-keygen output: no fingerprint"
    );
}

#[test]
fn known_hosts_update_refuses_empty_scans() {
    let trusted = vec!["SHA256:RFzBCUItH9LZS0cKB5UE6ceAYhBD5C8GeOBip8Z11+4".to_string()];
    assert_eq!(other(known_hosts_update(false, "  \n", &Vec::new(), &trusted)), "ssh-keyscan returned no host keys");
    assert_eq!(
        other(known_hosts_update(false, "# only a comment\n", &Vec::new(), &trusted)),
        "ssh-keyscan produced no host key lines to verify"
    );
}

#[test]
fn upsert_twice_with_carriage_returns_inside_section_and_block() {
    let existing = "Host github.com\n  User git\nHost aur.archlinux.org\r\n  User old\r\r\nHost other\n  Port 2\n";
    let block = "Host aur.archlinux.org\r\n  User aur\r\n";
    let (once, _) = upsert_host_block(existing, "aur.archlinux.org", block);
    assert_eq!(once, "Host github.com\n  User git\nHost aur.archlinux.org\r\n  User aur\r\nHost other\n  Port 2\n");
    let (twice, state) = upsert_host_block(&once, "aur.archlinux.org", block);
    assert_eq!(twice, once);
    assert!(matches!(state, ConfigState::Unchanged));
}
