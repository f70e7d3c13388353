//! Pkgbase naming rules and namespace decisions.
//!
//! AUR git URLs use the pkgbase (repository name); the registry id should
//! always be the pkgbase, not a split output name. The namespace probes
//! (`pacman -Si`, the AUR RPC) run in the application.
use vstd::prelude::*;

use crate::text::{all_chars, chars_of, string_of, trim, trim_vec};
use crate::workflow::aur_account::AurAccountError;

verus! {

/// Whether a pkgbase name is already taken upstream.
#[derive(Debug, Clone, Copy, PartialEq, Eq, Structural)]
pub struct PkgbasePublishNs {
    /// `pacman -Si <name>` succeeds (sync databases list the name).
    pub official_repo_hit: bool,
    /// The AUR RPC reports a row whose pkgbase equals the name.
    pub aur_pkgbase_hit: bool,
}

/// Failure while probing the pkgbase namespace.
#[derive(Debug)]
pub enum PkgbaseNsError {
    Aur(AurAccountError),
    Pacman(String),
}

/// Why a pkgbase entry is rejected.
#[derive(Debug, Clone, PartialEq, Eq, Structural)]
pub enum PkgbaseValidationError {
    Empty,
    InvalidCharset,
}

impl PkgbaseValidationError {
    /// User-facing text of the error.
    pub fn message(&self) -> (r: &'static str)
        ensures
            r@ == (match self {
                PkgbaseValidationError::Empty => "Pkgbase must not be empty."@,
                PkgbaseValidationError::InvalidCharset => "Use only ASCII lowercase letters, digits, and @ . _ + - (AUR / makepkg rules)."@,
            }),
    {
        match self {
            PkgbaseValidationError::Empty => "Pkgbase must not be empty.",
            PkgbaseValidationError::InvalidCharset => "Use only ASCII lowercase letters, digits, and @ . _ + - (AUR / makepkg rules).",
        }
    }
}

/// Characters of the Arch pkgname / pkgbase charset `[a-z0-9@._+-]`.
pub open spec fn is_pkgbase_char(c: char) -> bool {
    ('a' <= c && c <= 'z') || ('0' <= c && c <= '9') || c == '@' || c == '.' || c == '_' || c
        == '+' || c == '-'
}

/// The pkgbase characters are exactly the 26 lowercase ASCII letters
/// (code points 97 to 122), the ten digits (48 to 57) and `@` (64), `.`
/// (46), `_` (95), `+` (43) and `-` (45): a trimmed, non-empty name made
/// only of them is accepted, and a name holding any other character is
/// refused.
pub proof fn law_pkgbase_charset(c: char, s: Seq<char>)
    ensures
        is_pkgbase_char(c) <==> (97 <= (c as int) <= 122 || 48 <= (c as int) <= 57 || (c as int) == 64
            || (c as int) == 46 || (c as int) == 95 || (c as int) == 43 || (c as int) == 45),
        trim(s).len() > 0 ==> (all_chars(trim(s), |c: char| is_pkgbase_char(c)) <==> forall|i: int|
            0 <= i < trim(s).len() ==> (97 <= (#[trigger] trim(s)[i] as int) <= 122 || 48 <= (trim(s)[i] as int)
                <= 57 || (trim(s)[i] as int) == 64 || (trim(s)[i] as int) == 46 || (trim(s)[i] as int) == 95
                || (trim(s)[i] as int) == 43 || (trim(s)[i] as int) == 45)),
{
    assert forall|d: char| #[trigger] is_pkgbase_char(d) <==> ({
        let x = d as int;
        97 <= x <= 122 || 48 <= x <= 57 || x == 64 || x == 46 || x == 95 || x == 43 || x == 45
    }) by {}
}

/// Validates a pkgbase entry: trimmed, non-empty, and only `[a-z0-9@._+-]`.
pub fn validate_aur_pkgbase_id(s: &str) -> (r: Result<(), PkgbaseValidationError>)
    ensures
        trim(s@).len() == 0 ==> r == Err::<(), _>(PkgbaseValidationError::Empty),
        trim(s@).len() > 0 && !all_chars(trim(s@), |c: char| is_pkgbase_char(c)) ==> r == Err::<
            (),
            _,
        >(PkgbaseValidationError::InvalidCharset),
        trim(s@).len() > 0 && all_chars(trim(s@), |c: char| is_pkgbase_char(c)) ==> r is Ok,
{
    let sv = chars_of(s);
    let t = trim_vec(&sv);
    if t.len() == 0 {
        return Err(PkgbaseValidationError::Empty);
    }
    let mut i: usize = 0;
    while i < t.len()
        invariant
            i <= t.len(),
            t@ == trim(s@),
            forall|j: int| 0 <= j < i ==> is_pkgbase_char(#[trigger] t@[j]),
        decreases t.len() - i,
    {
        let c = t[i];
        if !(('a' <= c && c <= 'z') || ('0' <= c && c <= '9') || c == '@' || c == '.' || c == '_'
            || c == '+' || c == '-') {
            assert(!is_pkgbase_char(t@[i as int]));
            return Err(PkgbaseValidationError::InvalidCharset);
        }
        i += 1;
    }
    Ok(())
}

/// Combines the two namespace probes; the AUR error is reported first.
pub fn combine_namespace_probes(aur: Result<bool, AurAccountError>, official: Result<bool, String>) -> (r: Result<PkgbasePublishNs, PkgbaseNsError>)
    ensures
        match (aur, official) {
            (Ok(a), Ok(o)) => r == Ok::<_, PkgbaseNsError>(PkgbasePublishNs { official_repo_hit: o, aur_pkgbase_hit: a }),
            (Err(e), _) => r matches Err(PkgbaseNsError::Aur(x)) && x == e,
            (Ok(_), Err(m)) => r matches Err(PkgbaseNsError::Pacman(x)) && x == m,
        },
{
    match aur {
        Err(e) => Err(PkgbaseNsError::Aur(e)),
        Ok(a) => match official {
            Err(m) => Err(PkgbaseNsError::Pacman(m)),
            Ok(o) => Ok(PkgbasePublishNs { official_repo_hit: o, aur_pkgbase_hit: a }),
        },
    }
}

/// The namespace check of a name: a blank name collides with nothing
/// (`Ok`, no probe needed); otherwise the trimmed name to probe (`Err`).
pub fn namespace_probe_target(name: &str) -> (r: Result<PkgbasePublishNs, String>)
    ensures
        trim(name@).len() == 0 <==> r is Ok,
        r matches Ok(ns) ==> !ns.official_repo_hit && !ns.aur_pkgbase_hit,
        r matches Err(t) ==> t@ == trim(name@),
{
    let t = trim_vec(&chars_of(name));
    if t.len() == 0 {
        Ok(PkgbasePublishNs { official_repo_hit: false, aur_pkgbase_hit: false })
    } else {
        Err(string_of(&t))
    }
}

} // verus!
