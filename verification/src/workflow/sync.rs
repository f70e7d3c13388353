//! Where a package's PKGBUILD lives, and the checks made before downloading
//! one.
//!
//! Paths are Unix paths held as strings. The HTTP transfer itself happens in
//! the application; [`classify_pkgbuild_http_status`] decides what a response
//! status means.
use vstd::prelude::*;

use crate::text::{
    append_chars, chars_of, decimal, decimal_exec, lemma_deep_chars, opt_str, split_char, split_char_exec, starts_with,
    starts_with_exec, string_of, trim, trim_vec,
};
use crate::workflow::package::PackageDef;

verus! {

/// Why a PKGBUILD source URL cannot be downloaded.
#[derive(Debug)]
pub enum PkgbuildUrlProbeError {
    /// Missing URL in package metadata.
    EmptyUrl,
    /// URL does not use HTTP or HTTPS.
    InvalidScheme,
    /// Server responded 404 for the PKGBUILD.
    NotFound(u16),
    /// Other HTTP error from the source.
    HttpError(u16),
    /// Transport / TLS / timeout failure.
    Request(String),
}

/// The trimmed URL when it is non-empty and uses `http://` or `https://`.
pub open spec fn http_url_check(url: Seq<char>) -> Result<Seq<char>, ()> {
    let t = trim(url);
    if t.len() == 0 {
        Err(())
    } else if !(starts_with(t, "https://"@) || starts_with(t, "http://"@)) {
        Err(())
    } else {
        Ok(t)
    }
}

/// Rejects empty or non-http(s) PKGBUILD URLs before any network I/O; returns
/// the trimmed URL.
pub fn trimmed_http_pkgbuild_url(url: &str) -> (r: Result<String, PkgbuildUrlProbeError>)
    ensures
        trim(url@).len() == 0 ==> r matches Err(PkgbuildUrlProbeError::EmptyUrl),
        trim(url@).len() > 0 && !(starts_with(trim(url@), "https://"@) || starts_with(
            trim(url@),
            "http://"@,
        )) ==> r matches Err(PkgbuildUrlProbeError::InvalidScheme),
        http_url_check(url@) matches Ok(t) ==> (r matches Ok(s) && s@ == t),
{
    let t = trim_vec(&chars_of(url));
    if t.len() == 0 {
        return Err(PkgbuildUrlProbeError::EmptyUrl);
    }
    if !(starts_with_exec(&t, &chars_of("https://")) || starts_with_exec(&t, &chars_of("http://"))) {
        return Err(PkgbuildUrlProbeError::InvalidScheme);
    }
    Ok(string_of(&t))
}

/// Checks the PKGBUILD URL (trimmed, non-empty, `http://` or `https://`)
/// without network I/O.
pub fn pkgbuild_url_precheck(url: &str) -> (r: Result<(), PkgbuildUrlProbeError>)
    ensures
        trim(url@).len() == 0 ==> r matches Err(PkgbuildUrlProbeError::EmptyUrl),
        trim(url@).len() > 0 && !(starts_with(trim(url@), "https://"@) || starts_with(
            trim(url@),
            "http://"@,
        )) ==> r matches Err(PkgbuildUrlProbeError::InvalidScheme),
        http_url_check(url@) is Ok ==> r is Ok,
{
    match trimmed_http_pkgbuild_url(url) {
        Ok(_) => Ok(()),
        Err(e) => Err(e),
    }
}

/// User-facing text of a PKGBUILD URL problem.
pub open spec fn probe_error_message(e: PkgbuildUrlProbeError) -> Seq<char> {
    match e {
        PkgbuildUrlProbeError::EmptyUrl => "No PKGBUILD URL is set — add a raw PKGBUILD URL under Manage → Edit package."@,
        PkgbuildUrlProbeError::InvalidScheme => "PKGBUILD URL must start with http:// or https://"@,
        PkgbuildUrlProbeError::NotFound(c) => "There is no PKGBUILD at that URL yet (HTTP "@ + decimal(c as nat)
            + "). For a new AUR package the plain file may appear shortly after the empty Git repo is created, or the link may be wrong."@,
        PkgbuildUrlProbeError::HttpError(c) => "PKGBUILD URL returned HTTP "@ + decimal(c as nat),
        PkgbuildUrlProbeError::Request(m) => "Could not reach PKGBUILD URL: "@ + m@,
    }
}

impl PkgbuildUrlProbeError {
    /// User-facing text of the error.
    pub fn message(&self) -> (r: String)
        ensures
            r@ == probe_error_message(*self),
    {
        let v = match self {
            PkgbuildUrlProbeError::EmptyUrl => chars_of(
                "No PKGBUILD URL is set — add a raw PKGBUILD URL under Manage → Edit package.",
            ),
            PkgbuildUrlProbeError::InvalidScheme => chars_of("PKGBUILD URL must start with http:// or https://"),
            PkgbuildUrlProbeError::NotFound(c) => {
                let mut v = chars_of("There is no PKGBUILD at that URL yet (HTTP ");
                append_chars(&mut v, &decimal_exec(*c as u64));
                append_chars(
                    &mut v,
                    &chars_of(
                        "). For a new AUR package the plain file may appear shortly after the empty Git repo is created, or the link may be wrong.",
                    ),
                );
                v
            },
            PkgbuildUrlProbeError::HttpError(c) => {
                let mut v = chars_of("PKGBUILD URL returned HTTP ");
                append_chars(&mut v, &decimal_exec(*c as u64));
                v
            },
            PkgbuildUrlProbeError::Request(m) => {
                let mut v = chars_of("Could not reach PKGBUILD URL: ");
                append_chars(&mut v, &chars_of(m.as_str()));
                v
            },
        };
        string_of(&v)
    }
}

/// What an HTTP status of a PKGBUILD request means: 404 is "not published
/// yet", other 4xx/5xx codes are HTTP errors, anything else succeeded.
pub fn classify_pkgbuild_http_status(status: u16) -> (r: Result<(), PkgbuildUrlProbeError>)
    ensures
        status == 404 ==> (r matches Err(PkgbuildUrlProbeError::NotFound(s)) && s == 404),
        status != 404 && 400 <= status <= 599 ==> (r matches Err(
            PkgbuildUrlProbeError::HttpError(s),
        ) && s == status),
        !(400 <= status <= 599) ==> r is Ok,
{
    if status == 404 {
        Err(PkgbuildUrlProbeError::NotFound(status))
    } else if 400 <= status && status <= 599 {
        Err(PkgbuildUrlProbeError::HttpError(status))
    } else {
        Ok(())
    }
}

/// Some piece of the path is `..`.
pub open spec fn has_parent_part(parts: Seq<Seq<char>>) -> bool {
    exists|i: int| 0 <= i < parts.len() && parts[i] == seq!['.', '.']
}

/// An absolute path made of normal components only (no `..`).
pub open spec fn valid_destination(s: Seq<char>) -> bool {
    starts_with(s, seq!['/']) && !has_parent_part(split_char(s, '/'))
}

/// A relative path made of normal components only (no `..`, no leading `.`).
pub open spec fn safe_relative(s: Seq<char>) -> bool {
    &&& !starts_with(s, seq!['/'])
    &&& split_char(s, '/')[0] != seq!['.']
    &&& !has_parent_part(split_char(s, '/'))
}

/// `PathBuf::join` on Unix paths.
pub open spec fn path_join(base: Seq<char>, rel: Seq<char>) -> Seq<char> {
    if starts_with(rel, seq!['/']) {
        rel
    } else if base.len() > 0 && base.last() != '/' {
        base + seq!['/'] + rel
    } else {
        base + rel
    }
}

/// Folder of a package relative to the working directory: the legacy
/// `sync_subdir` when set and safe, else the id.
pub open spec fn effective_relative(sub: Option<Seq<char>>, id: Seq<char>) -> Seq<char> {
    match sub {
        Some(raw) => if trim(raw).len() > 0 && safe_relative(trim(raw)) {
            trim(raw)
        } else {
            id
        },
        None => id,
    }
}

/// Directory holding the PKGBUILD and builds of a package.
pub open spec fn package_dir_of(work: Option<Seq<char>>, pkg: PackageDef) -> Option<Seq<char>> {
    match opt_str(pkg.destination_dir) {
        Some(raw) if trim(raw).len() > 0 => if valid_destination(trim(raw)) {
            Some(trim(raw))
        } else {
            None
        },
        _ => match work {
            None => None,
            Some(w) => if w.len() == 0 {
                None
            } else {
                Some(path_join(w, effective_relative(opt_str(pkg.sync_subdir), pkg.id@)))
            },
        },
    }
}

fn has_parent_part_exec(parts: &Vec<Vec<char>>) -> (r: bool)
    ensures
        r == has_parent_part(parts.deep_view()),
{
    let mut i: usize = 0;
    while i < parts.len()
        invariant
            i <= parts.len(),
            forall|j: int| 0 <= j < i ==> parts.deep_view()[j] != seq!['.', '.'],
        decreases parts.len() - i,
    {
        proof {
            lemma_deep_chars(&parts[i as int]);
        }
        let p = &parts[i];
        if p.len() == 2 && p[0] == '.' && p[1] == '.' {
            assert(parts.deep_view()[i as int] =~= seq!['.', '.']);
            return true;
        }
        assert(parts.deep_view()[i as int] != seq!['.', '.']) by {
            if parts.deep_view()[i as int] == seq!['.', '.'] {
                assert(p@ == seq!['.', '.']);
            }
        }
        i += 1;
    }
    false
}

fn starts_with_slash(s: &[char]) -> (r: bool)
    ensures
        r == starts_with(s@, seq!['/']),
{
    let r = s.len() > 0 && s[0] == '/';
    assert(r == starts_with(s@, seq!['/'])) by {
        if s@.len() > 0 {
            if s@[0] == '/' {
                assert(s@.take(1) =~= seq!['/']);
            } else {
                assert(s@.take(1)[0] != seq!['/'][0]);
            }
        }
    }
    r
}

/// The path itself when it is absolute with normal components only (see
/// [`valid_destination`]).
pub fn parse_valid_destination_path(s: &str) -> (r: Result<String, ()>)
    ensures
        match r {
            Ok(p) => valid_destination(s@) && p@ == s@,
            Err(()) => !valid_destination(s@),
        },
{
    let v = chars_of(s);
    if !starts_with_slash(&v) {
        return Err(());
    }
    let parts = split_char_exec(&v, '/');
    if has_parent_part_exec(&parts) {
        Err(())
    } else {
        Ok(string_of(&v))
    }
}

/// The path itself when it is relative with normal components only (see
/// [`safe_relative`]).
pub fn parse_safe_relative_path(s: &str) -> (r: Result<String, ()>)
    ensures
        match r {
            Ok(p) => safe_relative(s@) && p@ == s@,
            Err(()) => !safe_relative(s@),
        },
{
    let v = chars_of(s);
    if starts_with_slash(&v) {
        return Err(());
    }
    let parts = split_char_exec(&v, '/');
    proof {
        lemma_split_char_nonempty(v@, '/');
    }
    proof {
        lemma_deep_chars(&parts[0]);
    }
    let first = &parts[0];
    let is_dot = first.len() == 1 && first[0] == '.';
    assert(is_dot == (split_char(v@, '/')[0] == seq!['.'])) by {
        if first@.len() == 1 && first@[0] == '.' {
            assert(first@ =~= seq!['.']);
        }
    }
    if is_dot {
        return Err(());
    }
    if has_parent_part_exec(&parts) {
        Err(())
    } else {
        Ok(string_of(&v))
    }
}

pub proof fn lemma_split_char_nonempty(s: Seq<char>, c: char)
    ensures
        split_char(s, c).len() > 0,
{
    crate::text::lemma_index_of(s, c);
}

fn path_join_exec(base: &[char], rel: &[char]) -> (r: Vec<char>)
    ensures
        r@ == path_join(base@, rel@),
{
    if starts_with_slash(rel) {
        let mut v: Vec<char> = Vec::new();
        append_chars(&mut v, rel);
        return v;
    }
    let mut v: Vec<char> = Vec::new();
    append_chars(&mut v, base);
    if base.len() > 0 && base[base.len() - 1] != '/' {
        v.push('/');
    }
    append_chars(&mut v, rel);
    v
}

/// The trimmed contents of a non-blank optional string.
fn nonblank(o: &Option<String>) -> (r: Option<Vec<char>>)
    ensures
        match r {
            Some(t) => opt_str(*o) matches Some(raw) && trim(raw).len() > 0 && t@ == trim(raw),
            None => !(opt_str(*o) matches Some(raw) && trim(raw).len() > 0),
        },
{
    match o {
        Some(raw) => {
            let t = trim_vec(&chars_of(raw.as_str()));
            if t.len() > 0 {
                Some(t)
            } else {
                None
            }
        },
        None => None,
    }
}

/// Resolves the directory for a package's PKGBUILD and builds: its
/// `destination_dir` when set (`None` if that is not a valid absolute path),
/// else `<work_dir>/` plus the legacy `sync_subdir` or the id (`None` without
/// a non-empty working directory).
pub fn package_dir(work_dir: Option<&str>, pkg: &PackageDef) -> (r: Option<String>)
    ensures
        match r {
            Some(p) => package_dir_of(opt_str_ref(work_dir), *pkg) == Some(p@),
            None => package_dir_of(opt_str_ref(work_dir), *pkg) is None,
        },
{
    match nonblank(&pkg.destination_dir) {
        Some(t) => {
            return match parse_valid_destination_path(string_of(&t).as_str()) {
                Ok(p) => Some(p),
                Err(()) => None,
            };
        },
        None => {},
    }
    match work_dir {
        None => None,
        Some(w) => {
            let wv = chars_of(w);
            if wv.len() == 0 {
                return None;
            }
            let rel = effective_sync_relative(pkg);
            Some(string_of(&path_join_exec(&wv, &chars_of(rel.as_str()))))
        },
    }
}

/// Folder of a package under the working directory: its legacy
/// `sync_subdir` when set and safe, else its id.
pub fn effective_sync_relative(pkg: &PackageDef) -> (r: String)
    ensures
        r@ == effective_relative(opt_str(pkg.sync_subdir), pkg.id@),
{
    match nonblank(&pkg.sync_subdir) {
        Some(t) => match parse_safe_relative_path(string_of(&t).as_str()) {
            Ok(rel) => rel,
            Err(()) => string_of(&chars_of(pkg.id.as_str())),
        },
        None => string_of(&chars_of(pkg.id.as_str())),
    }
}

/// Characters of an optional string slice.
pub open spec fn opt_str_ref(o: Option<&str>) -> Option<Seq<char>> {
    match o {
        Some(x) => Some(x@),
        None => None,
    }
}

/// Message for an empty destination.
pub open spec fn choose_folder_msg() -> Seq<char> {
    "Choose a folder (absolute path)."@
}

/// Message for a destination that is not a clean absolute path.
pub open spec fn bad_destination_msg() -> Seq<char> {
    "Destination must be an absolute path with normal path components (no ..)."@
}

/// Validates a browsed or pasted absolute folder path for a package destination;
/// returns the trimmed path.
pub fn validate_destination_path_str(raw: &str) -> (r: Result<String, &'static str>)
    ensures
        trim(raw@).len() == 0 ==> (r matches Err(m) && m@ == choose_folder_msg()),
        trim(raw@).len() > 0 && !valid_destination(trim(raw@)) ==> (r matches Err(m) && m@
            == bad_destination_msg()),
        trim(raw@).len() > 0 && valid_destination(trim(raw@)) ==> (r matches Ok(p) && p@ == trim(
            raw@,
        )),
{
    let t = trim_vec(&chars_of(raw));
    if t.len() == 0 {
        return Err("Choose a folder (absolute path).");
    }
    match parse_valid_destination_path(string_of(&t).as_str()) {
        Ok(p) => Ok(p),
        Err(()) => Err("Destination must be an absolute path with normal path components (no ..)."),
    }
}

/// Message for an unsafe legacy sub-folder.
pub open spec fn bad_subdir_msg() -> Seq<char> {
    "Use a relative path under the working directory (no .. or leading /)."@
}

/// Validates a folder under the working directory (legacy): empty means "use
/// the package id"; otherwise it must be a clean relative path.
pub fn validate_sync_subdir(raw: &str) -> (r: Result<(), &'static str>)
    ensures
        trim(raw@).len() == 0 ==> r is Ok,
        trim(raw@).len() > 0 && safe_relative(trim(raw@)) ==> r is Ok,
        trim(raw@).len() > 0 && !safe_relative(trim(raw@)) ==> (r matches Err(m) && m@
            == bad_subdir_msg()),
{
    let t = trim_vec(&chars_of(raw));
    if t.len() == 0 {
        return Ok(());
    }
    if parse_safe_relative_path(string_of(&t).as_str()).is_ok() {
        Ok(())
    } else {
        Err("Use a relative path under the working directory (no .. or leading /).")
    }
}

/// Hint shown when no package directory can be resolved.
pub open spec fn destination_help(work: Option<Seq<char>>, pkg: PackageDef) -> Seq<char> {
    if package_dir_of(work, pkg) is Some {
        seq![]
    } else if opt_str(pkg.destination_dir) matches Some(raw) && trim(raw).len() > 0 {
        "Invalid saved destination — browse to pick a folder again."@
    } else {
        match work {
            Some(w) => "Default: "@ + w + seq!['/'] + pkg.id@,
            None => "Set a working directory on Connection, or browse for an absolute folder."@,
        }
    }
}

/// Short hint when [`package_dir`] cannot resolve a directory (empty when it can).
pub fn destination_help_line(work_dir: Option<&str>, pkg: &PackageDef) -> (r: String)
    ensures
        r@ == destination_help(opt_str_ref(work_dir), *pkg),
{
    if package_dir(work_dir, pkg).is_some() {
        return String::new();
    }
    if nonblank(&pkg.destination_dir).is_some() {
        return string_of(&chars_of("Invalid saved destination — browse to pick a folder again."));
    }
    match work_dir {
        Some(w) => {
            let mut v = chars_of("Default: ");
            append_chars(&mut v, &chars_of(w));
            v.push('/');
            append_chars(&mut v, &chars_of(pkg.id.as_str()));
            string_of(&v)
        },
        None => string_of(
            &chars_of("Set a working directory on Connection, or browse for an absolute folder."),
        ),
    }
}


/// `PathBuf::join` on Unix paths.
pub fn join_paths(base: &str, rel: &str) -> (r: String)
    ensures
        r@ == path_join(base@, rel@),
{
    string_of(&path_join_exec(&chars_of(base), &chars_of(rel)))
}


/// A package with a (non-blank) destination resolves to the same place, or to
/// nothing, whatever the working directory.
pub proof fn law_destination_ignores_work_dir(
    w1: Option<Seq<char>>,
    w2: Option<Seq<char>>,
    pkg: PackageDef,
)
    requires
        opt_str(pkg.destination_dir) matches Some(raw) && trim(raw).len() > 0,
    ensures
        package_dir_of(w1, pkg) == package_dir_of(w2, pkg),
{
}

} // verus!
