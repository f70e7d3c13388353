use aur_pkgbuilder::ui::ssh_setup::{
    config_write_toast, full_setup_lines, key_setup_toast, known_hosts_toasts,
};
use aur_pkgbuilder::workflow::ssh_setup::{
    ConfigState, FullSetupReport, KeyState, KnownHostsState, SshKey, SshSetupError,
};

fn key() -> SshKey {
    SshKey {
        private_path: "/home/u/.ssh/aur".into(),
        public_path: "/home/u/.ssh/aur.pub".into(),
        algorithm: "ssh-ed25519".into(),
        comment: "u@h".into(),
        fingerprint_sha256: None,
    }
}

#[test]
fn full_setup_report_lines() {
    let report = FullSetupReport {
        key: key(),
        key_state: KeyState::Generated,
        config: ConfigState::Unchanged,
        known_hosts: KnownHostsState::Added { fingerprints: vec!["SHA256:abc".into(), "SHA256:def".into()] },
    };
    assert_eq!(
        full_setup_lines(&report),
        vec![
            "Key: generated /home/u/.ssh/aur".to_string(),
            "Config: already correct".to_string(),
            "known_hosts: added verified keys — SHA256:abc".to_string(),
        ]
    );
    let report = FullSetupReport {
        key: key(),
        key_state: KeyState::Reused,
        config: ConfigState::Created,
        known_hosts: KnownHostsState::Added { fingerprints: vec![] },
    };
    assert_eq!(
        full_setup_lines(&report),
        vec![
            "Key: reused /home/u/.ssh/aur".to_string(),
            "Config: created ~/.ssh/config".to_string(),
            "known_hosts: added AUR host keys (fingerprints verified against published list)".to_string(),
        ]
    );
}

#[test]
fn ssh_step_messages() {
    assert_eq!(key_setup_toast(&Ok((key(), KeyState::Reused))), "Reused existing ~/.ssh/aur");
    assert_eq!(
        key_setup_toast(&Err(SshSetupError::Other("ssh-keygen missing".into()))),
        "Key setup failed: ssh-keygen missing"
    );
    assert_eq!(config_write_toast(&Ok(ConfigState::Updated)), "Updated ~/.ssh/config");
    assert_eq!(
        config_write_toast(&Err(SshSetupError::NotImplemented("config".into()))),
        "Coming soon: config"
    );
    assert_eq!(
        known_hosts_toasts(&Ok(KnownHostsState::Added { fingerprints: vec!["SHA256:x".into()] })),
        vec!["AUR host keys added to known_hosts".to_string(), "SHA256:x".to_string()]
    );
    assert_eq!(
        known_hosts_toasts(&Ok(KnownHostsState::AlreadyPresent)),
        vec!["AUR already trusted in known_hosts".to_string()]
    );
    assert_eq!(
        known_hosts_toasts(&Err(SshSetupError::Other("scan failed".into()))),
        vec!["Failed: scan failed".to_string()]
    );
}
