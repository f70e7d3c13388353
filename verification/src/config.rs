//! Application configuration, the commit-message template, and the JSON text
//! of the JSON-with-comments files the application keeps.
//!
//! Reading and writing `config.jsonc` happens in the application: it hands the
//! file's bytes to [`jsonc_json_bytes`], parses the JSON it gets back, and hands
//! the parsed candidates to [`Config::load`].
use std::io::Read;

use vstd::prelude::*;

use crate::text::{chars_of, contains, replace_all, replace_all_exec, string_of, starts_with};

verus! {

/// Persisted application settings.
#[derive(Debug, Clone)]
pub struct Config {
    /// Directory where packages are staged and built.
    pub work_dir: Option<String>,
    /// SSH private key used to push to aur.archlinux.org.
    pub ssh_key: Option<String>,
    /// Most recently opened package id.
    pub last_package: Option<String>,
    /// AUR account login used for the RPC lookup.
    pub aur_username: Option<String>,
    /// Commit message template; `{pkg}` stands for the package id.
    pub default_commit_message: Option<String>,
    /// UI locale tag (e.g. `de-DE`); unset means "from the environment".
    pub locale: Option<String>,
}

impl Config {
    /// Settings of a first run: the given default working directory and key,
    /// nothing else set.
    pub fn with_defaults(work_dir: Option<String>, ssh_key: Option<String>) -> (r: Config)
        ensures
            r.work_dir == work_dir,
            r.ssh_key == ssh_key,
            r.last_package is None,
            r.aur_username is None,
            r.default_commit_message is None,
            r.locale is None,
    {
        Config {
            work_dir,
            ssh_key,
            last_package: None,
            aur_username: None,
            default_commit_message: None,
            locale: None,
        }
    }

    /// Chooses the settings to use: those read from `config.jsonc`, else from
    /// the legacy `config.json`, else the first-run defaults.
    pub fn load(jsonc: Option<Config>, legacy: Option<Config>, defaults: Config) -> (r: Config)
        ensures
            match (jsonc, legacy) {
                (Some(j), _) => r == j,
                (None, Some(l)) => r == l,
                (None, None) => r == defaults,
            },
    {
        match jsonc {
            Some(j) => j,
            None => match legacy {
                Some(l) => l,
                None => defaults,
            },
        }
    }
}

/// Template used when no commit message template is configured.
pub const FALLBACK_COMMIT_TEMPLATE: &'static str = "{pkg}: update";

/// `{pkg}`.
pub open spec fn pkg_placeholder() -> Seq<char> {
    seq!['{', 'p', 'k', 'g', '}']
}

/// Renders a commit-message template: every `{pkg}` becomes the package id.
pub fn render_commit_template(template: &str, pkg_id: &str) -> (r: String)
    ensures
        r@ == replace_all(template@, pkg_placeholder(), pkg_id@),
{
    let ph = vec!['{', 'p', 'k', 'g', '}'];
    assert(ph@ =~= pkg_placeholder());
    string_of(&replace_all_exec(&chars_of(template), &ph, &chars_of(pkg_id)))
}

pub proof fn lemma_replace_absent(s: Seq<char>, f: Seq<char>, t: Seq<char>)
    requires
        f.len() > 0,
        !contains(s, f),
    ensures
        replace_all(s, f, t) == s,
    decreases s.len(),
{
    if s.len() > 0 {
        assert(!starts_with(s, f)) by {
            if starts_with(s, f) {
                assert(crate::text::occurs_at(s, f, 0)) by {
                    assert(s.subrange(0, f.len() as int) == s.take(f.len() as int));
                }
            }
        }
        assert(!contains(s.drop_first(), f)) by {
            if contains(s.drop_first(), f) {
                let i = choose|i: int| crate::text::occurs_at(s.drop_first(), f, i);
                assert(s.subrange(i + 1, i + 1 + f.len()) =~= s.drop_first().subrange(i, i + f.len()));
                assert(crate::text::occurs_at(s, f, i + 1));
            }
        }
        lemma_replace_absent(s.drop_first(), f, t);
        assert(seq![s[0]] + s.drop_first() =~= s);
    }
}

/// A template without `{pkg}` renders to itself.
pub proof fn law_template_without_placeholder_is_verbatim(template: Seq<char>, pkg_id: Seq<char>)
    requires
        !contains(template, pkg_placeholder()),
    ensures
        replace_all(template, pkg_placeholder(), pkg_id) == template,
{
    lemma_replace_absent(template, pkg_placeholder(), pkg_id);
}

/// The fallback template renders to `<id>: update`.
pub proof fn law_fallback_template(pkg_id: Seq<char>)
    ensures
        replace_all("{pkg}: update"@, pkg_placeholder(), pkg_id) == pkg_id + ": update"@,
{
    reveal_strlit("{pkg}: update");
    reveal_strlit(": update");
    let s = "{pkg}: update"@;
    assert(starts_with(s, pkg_placeholder())) by {
        assert(s.take(5) =~= pkg_placeholder());
    }
    let rest = s.skip(5);
    assert(rest =~= ": update"@);
    assert(!contains(rest, pkg_placeholder())) by {
        if contains(rest, pkg_placeholder()) {
            let i = choose|i: int| crate::text::occurs_at(rest, pkg_placeholder(), i);
            assert(rest.subrange(i, i + 5)[0] == rest[i]);
            assert(rest[i] != '{');
        }
    }
    lemma_replace_absent(rest, pkg_placeholder(), pkg_id);
}


/// What `json_comments::StripComments` (default settings: `/* */`, `//` and
/// `#` comments) yields when read to the end over `bytes`: the bytes with
/// every comment blanked, or `None` where it reports invalid data (a stray
/// `/`, or input ending inside a string or a block comment).
pub uninterp spec fn jsonc_comments_blanked(bytes: Seq<u8>) -> Option<Seq<u8>>;

/// Reads `json_comments::StripComments` over `bytes` to the end. Its source
/// rewrites the bytes in place, turning each comment byte into a space and
/// keeping every other byte, so a successful result has the input's length
/// and differs from it only by spaces. Which bytes become spaces is left to
/// the name [`jsonc_comments_blanked`].
#[verifier::external_body]
fn strip_comments_call(bytes: &[u8]) -> (r: Option<Vec<u8>>)
    ensures
        match r {
            Some(v) => jsonc_comments_blanked(bytes@) == Some(v@) && v@.len() == bytes@.len()
                && forall|i: int| 0 <= i < v@.len() ==> #[trigger] v@[i] == bytes@[i] || v@[i] == 32u8,
            None => jsonc_comments_blanked(bytes@) is None,
        },
{
    let mut out: Vec<u8> = Vec::new();
    match json_comments::StripComments::new(bytes).read_to_end(&mut out) {
        Ok(_) => Some(out),
        Err(_) => None,
    }
}

/// Why a JSON-with-comments file has no JSON text.
#[derive(Debug, Clone, Copy, PartialEq, Eq, Structural)]
pub enum JsoncError {
    /// A `/` that starts no comment, or the text ends inside a string or a
    /// block comment.
    MalformedComments,
}

/// The JSON text of a JSON or JSONC file's bytes, for a JSON parser: every
/// comment blanked to spaces, everything else (strings included) byte for
/// byte in place.
pub fn jsonc_json_bytes(bytes: &[u8]) -> (r: Result<Vec<u8>, JsoncError>)
    ensures
        match r {
            Ok(v) => jsonc_comments_blanked(bytes@) == Some(v@) && v@.len() == bytes@.len()
                && forall|i: int| 0 <= i < v@.len() ==> #[trigger] v@[i] == bytes@[i] || v@[i] == 32u8,
            Err(e) => e == JsoncError::MalformedComments && jsonc_comments_blanked(bytes@) is None,
        },
{
    match strip_comments_call(bytes) {
        Some(v) => Ok(v),
        None => Err(JsoncError::MalformedComments),
    }
}

} // verus!
