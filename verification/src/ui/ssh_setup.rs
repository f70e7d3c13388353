//! SSH setup page: the messages after saving a verified AUR username, after
//! the one-click setup, and after each setup step.
use vstd::prelude::*;

use crate::text::{append_chars, chars_of, decimal, decimal_exec, string_of};
use crate::ui::home::{capped_ids, capped_ids_text};
use crate::workflow::ssh_setup::{
    strings_view, ConfigState, FullSetupReport, KeyState, KnownHostsState, SshKey, SshSetupError,
};

verus! {

/// Unmatched registry ids for a toast: at most eight, then a count of the
/// rest (see [`capped_ids_text`]).
pub fn format_unmatched_ids_for_toast(ids: &Vec<String>) -> (r: String)
    ensures
        r@ == capped_ids_text(strings_view(ids@), 8),
{
    capped_ids(ids, 8)
}

/// Toast after saving a verified AUR username from the SSH setup dialog.
pub open spec fn username_saved_message_text(registered: nat, aur_count: nat, unmatched: Seq<Seq<char>>) -> Seq<
    char,
> {
    if unmatched.len() == 0 {
        "Username saved. All "@ + decimal(registered)
            + " registered package(s) appear under this account ("@ + decimal(aur_count)
            + " from AUR RPC, maintainer or co-maintainer)."@
    } else {
        "Username saved. "@ + decimal(unmatched.len())
            + " package(s) are not listed for this account on the AUR (maintainer/co-maintainer RPC): "@
            + capped_ids_text(unmatched, 8)
    }
}

/// Toast after saving a verified AUR username (see
/// [`username_saved_message_text`]).
pub fn aur_username_saved_message(registered_len: usize, aur_package_count: usize, unmatched: &Vec<String>) -> (r:
    String)
    ensures
        r@ == username_saved_message_text(registered_len as nat, aur_package_count as nat, strings_view(unmatched@)),
{
    let mut v: Vec<char>;
    if unmatched.len() == 0 {
        v = chars_of("Username saved. All ");
        append_chars(&mut v, &decimal_exec(registered_len as u64));
        append_chars(&mut v, &chars_of(" registered package(s) appear under this account ("));
        append_chars(&mut v, &decimal_exec(aur_package_count as u64));
        append_chars(&mut v, &chars_of(" from AUR RPC, maintainer or co-maintainer)."));
    } else {
        v = chars_of("Username saved. ");
        append_chars(&mut v, &decimal_exec(unmatched.len() as u64));
        append_chars(
            &mut v,
            &chars_of(" package(s) are not listed for this account on the AUR (maintainer/co-maintainer RPC): "),
        );
        append_chars(&mut v, &chars_of(format_unmatched_ids_for_toast(unmatched).as_str()));
    }
    string_of(&v)
}


/// Text of an SSH setup failure.
pub open spec fn ssh_error_text(e: SshSetupError) -> Seq<char> {
    match e {
        SshSetupError::NotImplemented(w) => "not implemented yet: "@ + w@,
        SshSetupError::Other(m) => m@,
    }
}

fn ssh_error_string(e: &SshSetupError) -> (r: Vec<char>)
    ensures
        r@ == ssh_error_text(*e),
{
    match e {
        SshSetupError::NotImplemented(w) => {
            let mut v = chars_of("not implemented yet: ");
            append_chars(&mut v, &chars_of(w.as_str()));
            v
        },
        SshSetupError::Other(m) => chars_of(m.as_str()),
    }
}

fn prefixed(p: &str, rest: &[char]) -> (r: String)
    ensures
        r@ == p@ + rest@,
{
    let mut v = chars_of(p);
    append_chars(&mut v, rest);
    string_of(&v)
}

/// The lines the one-click setup shows: the key, the config block, and
/// `known_hosts`.
pub open spec fn full_setup_text(report: FullSetupReport) -> Seq<Seq<char>> {
    seq![
        match report.key_state {
            KeyState::Reused => "Key: reused "@ + report.key.private_path@,
            KeyState::Generated => "Key: generated "@ + report.key.private_path@,
        },
        match report.config {
            ConfigState::Created => "Config: created ~/.ssh/config"@,
            ConfigState::Updated => "Config: updated ~/.ssh/config"@,
            ConfigState::Unchanged => "Config: already correct"@,
        },
        match report.known_hosts {
            KnownHostsState::AlreadyPresent => "known_hosts: already trusts the AUR"@,
            KnownHostsState::Added { fingerprints } => if fingerprints@.len() == 0 {
                "known_hosts: added AUR host keys (fingerprints verified against published list)"@
            } else {
                "known_hosts: added verified keys — "@ + fingerprints@[0]@
            },
        },
    ]
}

/// Messages after the one-click setup.
pub fn full_setup_lines(report: &FullSetupReport) -> (r: Vec<String>)
    ensures
        strings_view(r@) == full_setup_text(*report),
{
    let path = chars_of(report.key.private_path.as_str());
    let key_line = match report.key_state {
        KeyState::Reused => prefixed("Key: reused ", &path),
        KeyState::Generated => prefixed("Key: generated ", &path),
    };
    let config_line = match report.config {
        ConfigState::Created => string_of(&chars_of("Config: created ~/.ssh/config")),
        ConfigState::Updated => string_of(&chars_of("Config: updated ~/.ssh/config")),
        ConfigState::Unchanged => string_of(&chars_of("Config: already correct")),
    };
    let hosts_line = match &report.known_hosts {
        KnownHostsState::AlreadyPresent => string_of(&chars_of("known_hosts: already trusts the AUR")),
        KnownHostsState::Added { fingerprints } => if fingerprints.len() == 0 {
            string_of(
                &chars_of(
                    "known_hosts: added AUR host keys (fingerprints verified against published list)",
                ),
            )
        } else {
            prefixed("known_hosts: added verified keys — ", &chars_of(fingerprints[0].as_str()))
        },
    };
    let r = vec![key_line, config_line, hosts_line];
    assert(strings_view(r@) =~= full_setup_text(*report));
    r
}

/// Message after creating or reusing the AUR key.
pub fn key_setup_toast(res: &Result<(SshKey, KeyState), SshSetupError>) -> (r: String)
    ensures
        r@ == match res {
            Ok((_, KeyState::Generated)) => "Generated ~/.ssh/aur"@,
            Ok((_, KeyState::Reused)) => "Reused existing ~/.ssh/aur"@,
            Err(e) => "Key setup failed: "@ + ssh_error_text(*e),
        },
{
    match res {
        Ok((_, KeyState::Generated)) => string_of(&chars_of("Generated ~/.ssh/aur")),
        Ok((_, KeyState::Reused)) => string_of(&chars_of("Reused existing ~/.ssh/aur")),
        Err(e) => prefixed("Key setup failed: ", &ssh_error_string(e)),
    }
}

/// Message after writing the `~/.ssh/config` host block.
pub fn config_write_toast(res: &Result<ConfigState, SshSetupError>) -> (r: String)
    ensures
        r@ == match res {
            Ok(ConfigState::Created) => "Created ~/.ssh/config"@,
            Ok(ConfigState::Updated) => "Updated ~/.ssh/config"@,
            Ok(ConfigState::Unchanged) => "~/.ssh/config already correct"@,
            Err(SshSetupError::NotImplemented(w)) => "Coming soon: "@ + w@,
            Err(e) => "Failed: "@ + ssh_error_text(*e),
        },
{
    match res {
        Ok(ConfigState::Created) => string_of(&chars_of("Created ~/.ssh/config")),
        Ok(ConfigState::Updated) => string_of(&chars_of("Updated ~/.ssh/config")),
        Ok(ConfigState::Unchanged) => string_of(&chars_of("~/.ssh/config already correct")),
        Err(SshSetupError::NotImplemented(w)) => prefixed("Coming soon: ", &chars_of(w.as_str())),
        Err(e) => prefixed("Failed: ", &ssh_error_string(e)),
    }
}

/// Messages after ensuring the AUR host keys in `known_hosts`: what was done,
/// then each added fingerprint.
pub open spec fn known_hosts_text(res: Result<KnownHostsState, SshSetupError>) -> Seq<Seq<char>> {
    match res {
        Ok(KnownHostsState::AlreadyPresent) => seq!["AUR already trusted in known_hosts"@],
        Ok(KnownHostsState::Added { fingerprints }) => seq!["AUR host keys added to known_hosts"@]
            + strings_view(fingerprints@),
        Err(SshSetupError::NotImplemented(w)) => seq!["Coming soon: "@ + w@],
        Err(e) => seq!["Failed: "@ + ssh_error_text(e)],
    }
}

pub fn known_hosts_toasts(res: &Result<KnownHostsState, SshSetupError>) -> (r: Vec<String>)
    ensures
        strings_view(r@) == known_hosts_text(*res),
{
    match res {
        Ok(KnownHostsState::AlreadyPresent) => {
            let r = vec![string_of(&chars_of("AUR already trusted in known_hosts"))];
            assert(strings_view(r@) =~= known_hosts_text(*res));
            r
        },
        Ok(KnownHostsState::Added { fingerprints }) => {
            let mut r = vec![string_of(&chars_of("AUR host keys added to known_hosts"))];
            let mut i: usize = 0;
            while i < fingerprints.len()
                invariant
                    i <= fingerprints.len(),
                    strings_view(r@) == seq!["AUR host keys added to known_hosts"@] + strings_view(
                        fingerprints@.take(i as int),
                    ),
                decreases fingerprints.len() - i,
            {
                let ghost r0 = r@;
                r.push(fingerprints[i].clone());
                assert(r@ == r0.push(fingerprints@[i as int]));
                assert(strings_view(r@) =~= strings_view(r0).push(fingerprints@[i as int]@));
                assert(strings_view(fingerprints@.take(i as int + 1)) =~= strings_view(
                    fingerprints@.take(i as int),
                ).push(fingerprints@[i as int]@));
                assert(strings_view(r@) =~= seq!["AUR host keys added to known_hosts"@] + strings_view(
                    fingerprints@.take(i as int + 1),
                ));
                i += 1;
            }
            assert(fingerprints@.take(fingerprints.len() as int) =~= fingerprints@);
            r
        },
        Err(SshSetupError::NotImplemented(w)) => {
            let r = vec![prefixed("Coming soon: ", &chars_of(w.as_str()))];
            assert(strings_view(r@) =~= known_hosts_text(*res));
            r
        },
        Err(e) => {
            let r = vec![prefixed("Failed: ", &ssh_error_string(e))];
            assert(strings_view(r@) =~= known_hosts_text(*res));
            r
        },
    }
}

} // verus!
