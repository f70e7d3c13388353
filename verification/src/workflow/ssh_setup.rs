//! Text side of the SSH setup for aur.archlinux.org: parsing `ssh-agent`
//! output and `ssh-keygen` fingerprints, the `~/.ssh/config` host block, the
//! public-key clipboard form, and the messages shown when `ssh-add` fails.
//!
//! Running `ssh-agent`, `ssh-add`, `ssh-keygen` and `ssh-keyscan`, and reading
//! or writing files under `~/.ssh`, happens in the application around this
//! library; it hands the outputs to the functions here.
use vstd::prelude::*;

use crate::text::{
    all_chars, append_chars, before_char, before_char_exec, char_is_ascii_alnum, chars_of,
    contains, contains_exec, ends_with, ends_with_exec, eq_chars, find_from, find_from_exec,
    is_ascii_alnum, join, join_exec, lemma_deep_chars, lemma_find_from, lines, lines_exec,
    lowercase, parse_u32, parse_u32_exec, slice_vec, split_ws, split_ws_exec, starts_with,
    skip_while, lemma_skip_while_unique, occurs_at, split_char, split_char_exec, index_of,
    index_of_from, lemma_index_of_none, lemma_index_of_unique,
    starts_with_exec, string_of, to_lowercase, trim, trim_bounds, trim_vec, concat_lines, nl,
    plain_line, plain_lines, lemma_concat_push, lemma_lines_of_concat, lemma_concat_append,
};

verus! {

/// What went wrong during SSH setup, by message.
#[derive(Debug)]
pub enum SshSetupError {
    /// A step that is not available.
    NotImplemented(String),
    /// Any other failure, by its message.
    Other(String),
}

/// Socket path and PID printed by `ssh-agent -s`, passed to child `ssh-add`
/// processes as `SSH_AUTH_SOCK` and `SSH_AGENT_PID`.
#[derive(Debug, Clone, PartialEq, Eq)]
pub struct SshAgentEnv {
    /// Unix socket path for `SSH_AUTH_SOCK`.
    pub ssh_auth_sock: String,
    /// Parent `ssh-agent` PID for `SSH_AGENT_PID`.
    pub ssh_agent_pid: u32,
}

/// Value of an `ssh-agent` assignment: text before the first `;`, trimmed.
pub open spec fn agent_value(rest: Seq<char>) -> Seq<char> {
    trim(before_char(rest, ';'))
}

/// Socket and PID seen so far, scanning lines in order (a later line wins;
/// an empty socket value is ignored; an unparsable PID clears the PID).
pub open spec fn agent_fold(ls: Seq<Seq<char>>) -> (Option<Seq<char>>, Option<u32>)
    decreases ls.len(),
{
    if ls.len() == 0 {
        (None, None)
    } else {
        let (sock, pid) = agent_fold(ls.drop_last());
        let line = trim(ls.last());
        if starts_with(line, "SSH_AUTH_SOCK="@) {
            let val = agent_value(line.skip(14));
            if val.len() > 0 {
                (Some(val), pid)
            } else {
                (sock, pid)
            }
        } else if starts_with(line, "SSH_AGENT_PID="@) {
            (sock, parse_u32(agent_value(line.skip(14))))
        } else {
            (sock, pid)
        }
    }
}

pub proof fn lemma_agent_prefix_lens()
    ensures
        "SSH_AUTH_SOCK="@.len() == 14,
        "SSH_AGENT_PID="@.len() == 14,
{
    reveal_strlit("SSH_AUTH_SOCK=");
    reveal_strlit("SSH_AGENT_PID=");
}

/// Parses `ssh-agent -s` output: `Some` when both a socket and a numeric PID
/// were assigned.
pub fn parse_ssh_agent_sh_output(stdout: &str) -> (r: Option<SshAgentEnv>)
    ensures
        match r {
            Some(e) => agent_fold(lines(stdout@)) == (Some(e.ssh_auth_sock@), Some(
                e.ssh_agent_pid,
            )),
            None => agent_fold(lines(stdout@)).0 is None || agent_fold(lines(stdout@)).1 is None,
        },
{
    let v = chars_of(stdout);
    let ls = lines_exec(&v);
    let ghost lv = ls.deep_view();
    let sock_p = chars_of("SSH_AUTH_SOCK=");
    let pid_p = chars_of("SSH_AGENT_PID=");
    proof {
        lemma_agent_prefix_lens();
    }
    let mut sock: Option<Vec<char>> = None;
    let mut pid: Option<u32> = None;
    let mut i: usize = 0;
    assert(lv.take(0) =~= Seq::<Seq<char>>::empty());
    while i < ls.len()
        invariant
            i <= ls.len(),
            lv == ls.deep_view(),
            sock_p@ == "SSH_AUTH_SOCK="@,
            pid_p@ == "SSH_AGENT_PID="@,
            "SSH_AUTH_SOCK="@.len() == 14,
            "SSH_AGENT_PID="@.len() == 14,
            agent_fold(lv.take(i as int)) == (sock.deep_view(), pid),
        decreases ls.len() - i,
    {
        proof {
            lemma_deep_chars(&ls[i as int]);
        }
        assert(lv.take(i as int + 1).drop_last() =~= lv.take(i as int));
        assert(lv.take(i as int + 1).last() == ls@[i as int]@);
        let line = trim_vec(&ls[i]);
        if starts_with_exec(&line, &sock_p) {
            let rest = slice_vec(&line, 14, line.len());
            assert(rest@ == line@.skip(14));
            let val = trim_vec(&before_char_exec(&rest, ';'));
            if val.len() > 0 {
                proof {
                    lemma_deep_chars(&val);
                }
                sock = Some(val);
            }
        } else if starts_with_exec(&line, &pid_p) {
            let rest = slice_vec(&line, 14, line.len());
            assert(rest@ == line@.skip(14));
            let val = trim_vec(&before_char_exec(&rest, ';'));
            pid = parse_u32_exec(&val);
        }
        i += 1;
    }
    assert(lv.take(ls.len() as int) =~= lv);
    match (sock, pid) {
        (Some(s), Some(p)) => {
            proof {
                lemma_deep_chars(&s);
            }
            Some(SshAgentEnv { ssh_auth_sock: string_of(&s), ssh_agent_pid: p })
        },
        _ => None,
    }
}

/// Lines kept for the clipboard form: trimmed, non-empty, not `#` comments.
pub open spec fn key_lines(ls: Seq<Seq<char>>) -> Seq<Seq<char>>
    decreases ls.len(),
{
    if ls.len() == 0 {
        seq![]
    } else {
        let acc = key_lines(ls.drop_last());
        let t = trim(ls.last());
        if t.len() > 0 && t[0] != '#' {
            acc.push(t)
        } else {
            acc
        }
    }
}

/// Single-line clipboard form of an OpenSSH public key.
pub open spec fn normalized_pubkey(raw: Seq<char>) -> Seq<char> {
    join(split_ws(join(key_lines(lines(raw)), seq![' '])), seq![' '])
}

/// Collapses an OpenSSH public key blob into one line for the AUR web form:
/// blank and `#` lines are dropped, the rest joined with single spaces.
pub fn normalize_pubkey_for_clipboard(raw: &str) -> (r: String)
    ensures
        r@ == normalized_pubkey(raw@),
{
    let v = chars_of(raw);
    let ls = lines_exec(&v);
    let ghost lv = ls.deep_view();
    let mut kept: Vec<Vec<char>> = Vec::new();
    let mut i: usize = 0;
    assert(lv.take(0) =~= Seq::<Seq<char>>::empty());
    assert(kept.deep_view() =~= Seq::<Seq<char>>::empty());
    while i < ls.len()
        invariant
            i <= ls.len(),
            lv == ls.deep_view(),
            key_lines(lv.take(i as int)) == kept.deep_view(),
        decreases ls.len() - i,
    {
        proof {
            lemma_deep_chars(&ls[i as int]);
        }
        assert(lv.take(i as int + 1).drop_last() =~= lv.take(i as int));
        assert(lv.take(i as int + 1).last() == ls@[i as int]@);
        let t = trim_vec(&ls[i]);
        if t.len() > 0 && t[0] != '#' {
            let ghost k0 = kept.deep_view();
            let ghost tv = t@;
            proof {
                lemma_deep_chars(&t);
            }
            kept.push(t);
            assert(kept.deep_view() =~= k0.push(tv)) by {
                assert forall|k: int| 0 <= k < k0.len() implies kept.deep_view()[k] == k0[k] by {}
            }
        }
        i += 1;
    }
    assert(lv.take(ls.len() as int) =~= lv);
    let sp = vec![' '];
    assert(sp@ =~= seq![' ']);
    let joined = join_exec(&kept, &sp);
    let words = split_ws_exec(&joined);
    let out = join_exec(&words, &sp);
    string_of(&out)
}

/// Characters allowed in an AUR user name placed in a URL path.
pub open spec fn is_url_name_char(c: char) -> bool {
    is_ascii_alnum(c) || c == '_' || c == '-' || c == '.'
}

/// Message for an empty AUR user name.
pub open spec fn empty_username_msg() -> Seq<char> {
    "AUR username is empty — set it on the Connection or onboarding screen"@
}

/// Message for an AUR user name with characters unsafe in a URL path.
pub open spec fn unsafe_username_msg() -> Seq<char> {
    "AUR username contains characters that are not allowed in the account URL"@
}

/// AUR profile edit URL for a (trimmed, safe) user name.
pub open spec fn account_edit_url(name: Seq<char>) -> Seq<char> {
    "https://aur.archlinux.org/account/"@ + name + "/edit"@
}

/// AUR profile edit URL for pasting SSH keys (`…/account/USER/edit`).
/// The name is trimmed; it must be non-empty and made of ASCII letters,
/// digits, `_`, `-` and `.`.
pub fn aur_account_edit_url(username: &str) -> (r: Result<String, SshSetupError>)
    ensures
        trim(username@).len() == 0 ==> (r matches Err(SshSetupError::Other(m)) && m@
            == empty_username_msg()),
        trim(username@).len() > 0 && !all_chars(trim(username@), |c: char| is_url_name_char(c))
            ==> (r matches Err(SshSetupError::Other(m)) && m@ == unsafe_username_msg()),
        trim(username@).len() > 0 && all_chars(trim(username@), |c: char| is_url_name_char(c))
            ==> (r matches Ok(u) && u@ == account_edit_url(trim(username@))),
{
    let uv = chars_of(username);
    let name = trim_vec(&uv);
    if name.len() == 0 {
        return Err(
            SshSetupError::Other(
                string_of(&chars_of("AUR username is empty — set it on the Connection or onboarding screen")),
            ),
        );
    }
    let mut i: usize = 0;
    while i < name.len()
        invariant
            i <= name.len(),
            name@ == trim(username@),
            forall|j: int| 0 <= j < i ==> is_url_name_char(#[trigger] name@[j]),
        decreases name.len() - i,
    {
        let c = name[i];
        if !(char_is_ascii_alnum(c) || c == '_' || c == '-' || c == '.') {
            assert(!is_url_name_char(name@[i as int]));
            return Err(
                SshSetupError::Other(
                    string_of(
                        &chars_of(
                            "AUR username contains characters that are not allowed in the account URL",
                        ),
                    ),
                ),
            );
        }
        i += 1;
    }
    let mut out = chars_of("https://aur.archlinux.org/account/");
    append_chars(&mut out, &name);
    append_chars(&mut out, &chars_of("/edit"));
    Ok(string_of(&out))
}

/// Lower-cased `ssh-add` output says that no agent is reachable.
pub open spec fn says_no_agent(detail: Seq<char>) -> bool {
    let d = lowercase(detail);
    ||| contains(d, "could not open a connection to your authentication agent"@)
    ||| contains(d, "could not connect to authentication agent"@)
    ||| contains(d, "error connecting to agent"@)
}

fn says_no_agent_exec(detail: &str) -> (r: bool)
    ensures
        r == says_no_agent(detail@),
{
    let d = chars_of(to_lowercase(detail).as_str());
    contains_exec(&d, &chars_of("could not open a connection to your authentication agent"))
        || contains_exec(&d, &chars_of("could not connect to authentication agent"))
        || contains_exec(&d, &chars_of("error connecting to agent"))
}

/// Help appended when `ssh-add` cannot reach an agent.
pub open spec fn no_agent_hint() -> Seq<char> {
    "\n\n\
     Why: `ssh-add` talks to `ssh-agent` through the `SSH_AUTH_SOCK` environment variable. \
     This process does not have a working agent socket (common when the app was started from \
     an application menu rather than a shell where `ssh-agent` is already running).\n\n\
     What to try: use Check agent / ssh-add in this app to start an embedded ssh-agent when \
     needed, launch aur-pkgbuilder from a terminal that already has SSH_AUTH_SOCK, or \
     configure your desktop session to export SSH_AUTH_SOCK into graphical applications."@
}

/// Error text for a failed `ssh-add` / `ssh-add -l`: `operation: detail`,
/// plus a hint when the failure is that no agent is reachable.
pub fn format_ssh_add_agent_access_error(operation: &str, detail: &str) -> (r: String)
    ensures
        r@ == operation@ + ": "@ + detail@ + (if says_no_agent(detail@) {
            no_agent_hint()
        } else {
            Seq::empty()
        }),
{
    let mut out = chars_of(operation);
    append_chars(&mut out, &chars_of(": "));
    append_chars(&mut out, &chars_of(detail));
    if says_no_agent_exec(detail) {
        append_chars(
            &mut out,
            &chars_of(
                "\n\n\
                 Why: `ssh-add` talks to `ssh-agent` through the `SSH_AUTH_SOCK` environment variable. \
                 This process does not have a working agent socket (common when the app was started from \
                 an application menu rather than a shell where `ssh-agent` is already running).\n\n\
                 What to try: use Check agent / ssh-add in this app to start an embedded ssh-agent when \
                 needed, launch aur-pkgbuilder from a terminal that already has SSH_AUTH_SOCK, or \
                 configure your desktop session to export SSH_AUTH_SOCK into graphical applications.",
            ),
        );
    } else {
        assert(out@ =~= out@ + Seq::<char>::empty());
    }
    string_of(&out)
}

/// Whether an SSH setup error means that no `ssh-agent` answered.
pub fn is_unreachable_ssh_agent_error(err: &SshSetupError) -> (r: bool)
    ensures
        r == (match err {
            SshSetupError::Other(m) => says_no_agent(m@),
            SshSetupError::NotImplemented(_) => false,
        }),
{
    match err {
        SshSetupError::Other(m) => says_no_agent_exec(m.as_str()),
        SshSetupError::NotImplemented(_) => false,
    }
}


/// Characters of a base64 fingerprint body.
pub open spec fn is_b64_char(c: char) -> bool {
    is_ascii_alnum(c) || c == '+' || c == '/' || c == '='
}

pub open spec fn b64_pred() -> spec_fn(char) -> bool {
    |c: char| is_b64_char(c)
}

/// `"SHA256:"`.
pub open spec fn sha_prefix() -> Seq<char> {
    "SHA256:"@
}

pub proof fn lemma_sha_prefix_len()
    ensures
        sha_prefix().len() == 7,
{
    reveal_strlit("SHA256:");
}

/// `SHA256:` followed by the base64 run after a `SHA256:` occurrence at `p`.
pub open spec fn token_at(s: Seq<char>, p: int) -> Seq<char> {
    sha_prefix() + s.subrange(p + 7, skip_while(s, p + 7, b64_pred()))
}

fn is_b64_char_exec(c: char) -> (r: bool)
    ensures
        r == is_b64_char(c),
{
    char_is_ascii_alnum(c) || c == '+' || c == '/' || c == '='
}

/// Token after a `SHA256:` occurrence at `p`.
fn token_at_exec(s: &[char], p: usize) -> (r: Vec<char>)
    requires
        p + 7 <= s.len(),
    ensures
        r@ == token_at(s@, p as int),
{
    let mut e = p + 7;
    while e < s.len() && is_b64_char_exec(s[e])
        invariant
            p + 7 <= e <= s.len(),
            forall|k: int| p + 7 <= k < e ==> (b64_pred())(#[trigger] s@[k]),
        decreases s.len() - e,
    {
        e += 1;
    }
    proof {
        lemma_skip_while_unique(s@, p + 7, e as int, b64_pred());
    }
    let mut out = chars_of("SHA256:");
    append_chars(&mut out, &slice_vec(s, p + 7, e));
    out
}

/// The `SHA256:…` token of one line of `ssh-keygen -lf` output, if its body
/// is longer than eight characters.
pub open spec fn keygen_sha256_token(line: Seq<char>) -> Option<Seq<char>> {
    let t = trim(line);
    match find_from(t, sha_prefix(), 0) {
        None => None,
        Some(idx) => if token_at(t, idx).len() > 15 {
            Some(token_at(t, idx))
        } else {
            None
        },
    }
}

/// Pulls the `SHA256:…` token from one line of `ssh-keygen -lf` output.
pub fn sha256_token_from_keygen_lf_line(line: &str) -> (r: Option<String>)
    ensures
        match r {
            Some(t) => keygen_sha256_token(line@) == Some(t@),
            None => keygen_sha256_token(line@) is None,
        },
{
    let t = trim_vec(&chars_of(line));
    let pfx = chars_of("SHA256:");
    proof {
        lemma_sha_prefix_len();
        lemma_find_from(t@, pfx@, 0);
    }
    match find_from_exec(&t, &pfx, 0) {
        None => None,
        Some(idx) => {
            let tok = token_at_exec(&t, idx);
            if tok.len() > 15 {
                Some(string_of(&tok))
            } else {
                None
            }
        },
    }
}

/// `SHA256:` plus 40 to 48 base64 characters.
pub open spec fn plausible_hostkey_sha256(fp: Seq<char>) -> bool {
    &&& starts_with(fp, sha_prefix())
    &&& 40 <= fp.len() - 7 <= 48
    &&& all_chars(fp.skip(7), |c: char| is_b64_char(c))
}

fn plausible_hostkey_sha256_exec(fp: &[char]) -> (r: bool)
    ensures
        r == plausible_hostkey_sha256(fp@),
{
    proof {
        lemma_sha_prefix_len();
    }
    if !starts_with_exec(fp, &chars_of("SHA256:")) {
        return false;
    }
    let n = fp.len() - 7;
    if n < 40 || n > 48 {
        return false;
    }
    let mut i: usize = 7;
    while i < fp.len()
        invariant
            7 <= i <= fp.len(),
            forall|k: int| 7 <= k < i ==> is_b64_char(#[trigger] fp@[k]),
        decreases fp.len() - i,
    {
        if !is_b64_char_exec(fp[i]) {
            assert(fp@.skip(7)[i - 7] == fp@[i as int]);
            return false;
        }
        i += 1;
    }
    assert forall|k: int| 0 <= k < fp@.skip(7).len() implies is_b64_char(
        #[trigger] fp@.skip(7)[k],
    ) by {
        assert(fp@.skip(7)[k] == fp@[k + 7]);
    }
    true
}

/// Code-point lexicographic order (the order of `String`s).
pub open spec fn lex_lt(a: Seq<char>, b: Seq<char>) -> bool
    decreases a.len(),
{
    if a.len() == 0 {
        b.len() > 0
    } else if b.len() == 0 {
        false
    } else if a[0] != b[0] {
        a[0] < b[0]
    } else {
        lex_lt(a.drop_first(), b.drop_first())
    }
}

pub proof fn lemma_lex_total(a: Seq<char>, b: Seq<char>)
    requires
        a != b,
    ensures
        lex_lt(a, b) || lex_lt(b, a),
    decreases a.len(),
{
    if a.len() > 0 && b.len() > 0 && a[0] == b[0] {
        if a.drop_first() == b.drop_first() {
            assert(a =~= seq![a[0]] + a.drop_first());
            assert(b =~= seq![b[0]] + b.drop_first());
        }
        lemma_lex_total(a.drop_first(), b.drop_first());
    } else if a.len() == 0 && b.len() == 0 {
        assert(a =~= b);
    }
}

pub fn lex_lt_exec(a: &[char], b: &[char]) -> (r: bool)
    ensures
        r == lex_lt(a@, b@),
{
    let mut i: usize = 0;
    assert(a@.skip(0) =~= a@);
    assert(b@.skip(0) =~= b@);
    while i < a.len() && i < b.len() && a[i] == b[i]
        invariant
            i <= a.len(),
            i <= b.len(),
            lex_lt(a@.skip(i as int), b@.skip(i as int)) == lex_lt(a@, b@),
        decreases a.len() - i,
    {
        assert(a@.skip(i as int).drop_first() =~= a@.skip(i as int + 1));
        assert(b@.skip(i as int).drop_first() =~= b@.skip(i as int + 1));
        i += 1;
    }
    if i == a.len() {
        i < b.len()
    } else if i == b.len() {
        false
    } else {
        a[i] < b[i]
    }
}

/// Strictly increasing under `lex_lt`, neighbour by neighbour.
pub open spec fn sorted_strict(s: Seq<Seq<char>>) -> bool {
    forall|i: int| 0 <= i < s.len() - 1 ==> lex_lt(#[trigger] s[i], s[i + 1])
}

/// Inserts `t` into a sorted list unless it is already at its place.
pub(crate) fn insert_sorted(v: &mut Vec<Vec<char>>, t: Vec<char>)
    requires
        sorted_strict(old(v).deep_view()),
    ensures
        sorted_strict(final(v).deep_view()),
        final(v).deep_view().to_set() == old(v).deep_view().to_set().insert(t@),
{
    let ghost d0 = v.deep_view();
    let mut k: usize = 0;
    while k < v.len() && lex_lt_exec(&v[k], &t)
        invariant
            k <= v.len(),
            d0 == v.deep_view(),
            k > 0 ==> lex_lt(d0[k - 1], t@),
        decreases v.len() - k,
    {
        proof {
            lemma_deep_chars(&v[k as int]);
        }
        k += 1;
    }
    if k < v.len() && eq_chars(&v[k], &t) {
        proof {
            lemma_deep_chars(&v[k as int]);
            assert(d0[k as int] == t@);
            assert(d0.to_set().insert(t@) =~= d0.to_set());
        }
        return;
    }
    proof {
        if k < v.len() {
            lemma_deep_chars(&v[k as int]);
            lemma_lex_total(d0[k as int], t@);
        }
    }
    let ghost tv = t@;
    proof {
        lemma_deep_chars(&t);
    }
    v.insert(k, t);
    let ghost d1 = v.deep_view();
    assert(d1 =~= d0.insert(k as int, tv)) by {
        assert forall|j: int| 0 <= j < d1.len() implies d1[j] == d0.insert(k as int, tv)[j] by {}
    }
    assert(sorted_strict(d1)) by {
        assert forall|j: int| 0 <= j < d1.len() - 1 implies lex_lt(#[trigger] d1[j], d1[j + 1]) by {
            if j + 1 < k {
                assert(d1[j] == d0[j] && d1[j + 1] == d0[j + 1]);
            } else if j + 1 == k {
                assert(d1[j] == d0[j] && d1[j + 1] == tv);
            } else if j == k {
                assert(d1[j] == tv && d1[j + 1] == d0[j]);
            } else {
                assert(d1[j] == d0[j - 1] && d1[j + 1] == d0[j]);
            }
        }
    }
    assert(d1.to_set() =~= d0.to_set().insert(tv)) by {
        assert forall|x: Seq<char>| d1.to_set().contains(x) <==> d0.to_set().insert(tv).contains(x) by {
            if d1.to_set().contains(x) {
                let j = choose|j: int| 0 <= j < d1.len() && d1[j] == x;
                if j < k {
                    assert(d0[j] == x);
                } else if j > k {
                    assert(d0[j - 1] == x);
                }
            }
            if d0.to_set().contains(x) {
                let j = choose|j: int| 0 <= j < d0.len() && d0[j] == x;
                if j < k {
                    assert(d1[j] == x);
                } else {
                    assert(d1[j + 1] == x);
                }
            }
            if x == tv {
                assert(d1[k as int] == x);
            }
        }
    }
}

/// Plausible host-key fingerprints at `SHA256:` occurrences before `i`.
pub open spec fn fps_before(html: Seq<char>, i: int) -> Set<Seq<char>> {
    Set::new(
        |t: Seq<char>|
            exists|p: int|
                0 <= p < i && occurs_at(html, sha_prefix(), p) && t == #[trigger] token_at(html, p)
                    && plausible_hostkey_sha256(t),
    )
}

/// Plausible host-key fingerprints listed anywhere in `html`.
pub open spec fn html_fingerprints(html: Seq<char>) -> Set<Seq<char>> {
    fps_before(html, html.len() as int + 1)
}

/// Characters of each string.
pub open spec fn strings_view(v: Seq<String>) -> Seq<Seq<char>> {
    Seq::new(v.len(), |i: int| v[i]@)
}

/// Strings from character vectors, in order.
pub fn strings_of(v: &Vec<Vec<char>>) -> (r: Vec<String>)
    ensures
        strings_view(r@) == v.deep_view(),
{
    let mut r: Vec<String> = Vec::new();
    let mut i: usize = 0;
    while i < v.len()
        invariant
            i <= v.len(),
            r.len() == i,
            forall|k: int| 0 <= k < i ==> (#[trigger] r@[k])@ == v@[k]@,
        decreases v.len() - i,
    {
        r.push(string_of(&v[i]));
        i += 1;
    }
    assert(strings_view(r@) =~= v.deep_view()) by {
        assert forall|k: int| 0 <= k < v.len() implies strings_view(r@)[k] == v.deep_view()[k] by {
            lemma_deep_chars(&v[k]);
        }
    }
    r
}

/// The distinct plausible `SHA256:` host-key fingerprints in an HTML page, sorted.
pub fn extract_sha256_fingerprints_from_html(html: &str) -> (r: Vec<String>)
    ensures
        sorted_strict(strings_view(r@)),
        strings_view(r@).to_set() == html_fingerprints(html@),
{
    let h = chars_of(html);
    let pfx = chars_of("SHA256:");
    proof {
        lemma_sha_prefix_len();
    }
    let mut out: Vec<Vec<char>> = Vec::new();
    let mut i: usize = 0;
    assert(out.deep_view().to_set() =~= fps_before(h@, 0));
    loop
        invariant
            i <= h.len() + 1,
            h@ == html@,
            pfx@ == sha_prefix(),
            sha_prefix().len() == 7,
            sorted_strict(out.deep_view()),
            out.deep_view().to_set() == fps_before(h@, i as int),
        decreases h.len() + 1 - i,
    {
        proof {
            lemma_find_from(h@, pfx@, i as int);
        }
        let ghost before = fps_before(h@, i as int);
        let found = if i <= h.len() {
            find_from_exec(&h, &pfx, i)
        } else {
            None
        };
        match found {
            None => {
                assert(fps_before(h@, h@.len() as int + 1) =~= before) by {
                    assert forall|t: Seq<char>| #[trigger] fps_before(h@, h@.len() as int + 1).contains(t)
                        implies before.contains(t) by {
                        let p = choose|p: int|
                            0 <= p < h@.len() + 1 && occurs_at(h@, sha_prefix(), p) && t
                                == #[trigger] token_at(h@, p) && plausible_hostkey_sha256(t);
                        assert(p < i);
                    }
                }
                return strings_of(&out);
            },
            Some(p) => {
                let tok = token_at_exec(&h, p);
                let ghost tv = tok@;
                let plaus = plausible_hostkey_sha256_exec(&tok);
                if plaus {
                    insert_sorted(&mut out, tok);
                }
                assert(fps_before(h@, p + 1) =~= (if plaus {
                    before.insert(tv)
                } else {
                    before
                })) by {
                    assert forall|t: Seq<char>| #[trigger] fps_before(h@, p + 1).contains(t)
                        implies (if plaus {
                        before.insert(tv)
                    } else {
                        before
                    }).contains(t) by {
                        let q = choose|q: int|
                            0 <= q < p + 1 && occurs_at(h@, sha_prefix(), q) && t
                                == #[trigger] token_at(h@, q) && plausible_hostkey_sha256(t);
                        if q < i {
                            assert(before.contains(t));
                        } else {
                            assert(q == p);
                        }
                    }
                    assert forall|t: Seq<char>| (if plaus {
                        before.insert(tv)
                    } else {
                        before
                    }).contains(t) implies #[trigger] fps_before(h@, p + 1).contains(t) by {
                        if before.contains(t) {
                            let q = choose|q: int|
                                0 <= q < i && occurs_at(h@, sha_prefix(), q) && t
                                    == #[trigger] token_at(h@, q) && plausible_hostkey_sha256(t);
                            assert(0 <= q < p + 1);
                        } else {
                            assert(t == token_at(h@, p as int));
                        }
                    }
                }
                i = p + 1;
            },
        }
    }
}


/// Path components of a Unix path, without empty and `.` components.
pub open spec fn path_parts(ps: Seq<Seq<char>>) -> Seq<Seq<char>>
    decreases ps.len(),
{
    if ps.len() == 0 {
        seq![]
    } else {
        let acc = path_parts(ps.drop_last());
        let x = ps.last();
        if x.len() == 0 || x == seq!['.'] {
            acc
        } else {
            acc.push(x)
        }
    }
}

/// `Path::file_name` on a Unix path: the last component unless it is `..`
/// (or there is none).
pub open spec fn path_file_name(p: Seq<char>) -> Option<Seq<char>> {
    let parts = path_parts(split_char(p, '/'));
    if parts.len() > 0 && parts.last() != seq!['.', '.'] {
        Some(parts.last())
    } else {
        None
    }
}

/// File name of the key's private path, or the whole path when it has none.
pub open spec fn key_display_name(p: Seq<char>) -> Seq<char> {
    match path_file_name(p) {
        Some(n) => n,
        None => p,
    }
}

fn path_file_name_exec(p: &[char]) -> (r: Option<Vec<char>>)
    ensures
        match r {
            Some(n) => path_file_name(p@) == Some(n@),
            None => path_file_name(p@) is None,
        },
{
    let ps = split_char_exec(p, '/');
    let ghost pv = ps.deep_view();
    let mut parts: Vec<Vec<char>> = Vec::new();
    let mut i: usize = 0;
    assert(pv.take(0) =~= Seq::<Seq<char>>::empty());
    assert(parts.deep_view() =~= Seq::<Seq<char>>::empty());
    while i < ps.len()
        invariant
            i <= ps.len(),
            pv == ps.deep_view(),
            path_parts(pv.take(i as int)) == parts.deep_view(),
        decreases ps.len() - i,
    {
        proof {
            lemma_deep_chars(&ps[i as int]);
        }
        assert(pv.take(i as int + 1).drop_last() =~= pv.take(i as int));
        assert(pv.take(i as int + 1).last() == ps@[i as int]@);
        let x = &ps[i];
        let is_dot = x.len() == 1 && x[0] == '.';
        assert(is_dot == (x@ == seq!['.'])) by {
            if x@.len() == 1 && x@[0] == '.' {
                assert(x@ =~= seq!['.']);
            }
        }
        if !(x.len() == 0 || is_dot) {
            let ghost k0 = parts.deep_view();
            let y = slice_vec(x, 0, x.len());
            let ghost yv = y@;
            assert(yv == x@);
            proof {
                lemma_deep_chars(&y);
            }
            parts.push(y);
            assert(parts.deep_view() =~= k0.push(yv)) by {
                assert forall|k: int| 0 <= k < k0.len() implies parts.deep_view()[k] == k0[k] by {}
            }
        }
        i += 1;
    }
    assert(pv.take(ps.len() as int) =~= pv);
    if parts.len() == 0 {
        return None;
    }
    let last = &parts[parts.len() - 1];
    proof {
        lemma_deep_chars(last);
    }
    let is_dotdot = last.len() == 2 && last[0] == '.' && last[1] == '.';
    assert(is_dotdot == (last@ == seq!['.', '.'])) by {
        if last@.len() == 2 && last@[0] == '.' && last@[1] == '.' {
            assert(last@ =~= seq!['.', '.']);
        }
    }
    if is_dotdot {
        None
    } else {
        Some(slice_vec(last, 0, last.len()))
    }
}

/// One detected key pair under `~/.ssh`.
#[derive(Debug, Clone)]
pub struct SshKey {
    /// Private key path.
    pub private_path: String,
    /// Sibling `.pub` file.
    pub public_path: String,
    /// Algorithm as reported by the public key header (`ssh-ed25519`, `ssh-rsa`, …).
    pub algorithm: String,
    /// Trailing comment on the public key, typically `user@host`.
    pub comment: String,
    /// `ssh-keygen -lf` SHA256 token (`SHA256:…`) when the tool succeeds.
    pub fingerprint_sha256: Option<String>,
}

impl SshKey {
    /// File name of the private key, or its whole path when it has none.
    pub fn display_name(&self) -> (r: String)
        ensures
            r@ == key_display_name(self.private_path@),
    {
        let p = chars_of(self.private_path.as_str());
        match path_file_name_exec(&p) {
            Some(n) => string_of(&n),
            None => string_of(&p),
        }
    }
}

/// Result of creating or reusing the AUR key.
#[derive(Debug, Clone, Copy, PartialEq, Eq)]
pub enum KeyState {
    /// `~/.ssh/aur` was already present and reused as-is.
    Reused,
    /// A brand-new key was generated.
    Generated,
}

/// Result of writing the `~/.ssh/config` host block.
#[derive(Debug, Clone, Copy, PartialEq, Eq, Structural)]
pub enum ConfigState {
    Created,
    Updated,
    Unchanged,
}

/// Result of ensuring the `known_hosts` entry.
#[derive(Debug, Clone)]
pub enum KnownHostsState {
    AlreadyPresent,
    Added { fingerprints: Vec<String> },
}

/// Combined report of the one-shot setup.
#[derive(Debug, Clone)]
pub struct FullSetupReport {
    pub key: SshKey,
    pub key_state: KeyState,
    pub config: ConfigState,
    pub known_hosts: KnownHostsState,
}

/// Path of the public key next to a private key.
pub fn with_pub_extension(private: &str) -> (r: String)
    ensures
        r@ == private@ + ".pub"@,
{
    let mut v = chars_of(private);
    append_chars(&mut v, &chars_of(".pub"));
    string_of(&v)
}

/// The `Host aur.archlinux.org` block for `~/.ssh/config`.
pub open spec fn host_block(key: Seq<char>) -> Seq<char> {
    "Host aur.archlinux.org\n    User aur\n    IdentityFile "@ + key
        + "\n    IdentitiesOnly yes\n"@
}

/// Renders the `~/.ssh/config` block that points the AUR host at `key`.
pub fn render_host_block(key: &str) -> (r: String)
    ensures
        r@ == host_block(key@),
{
    let mut v = chars_of("Host aur.archlinux.org\n    User aur\n    IdentityFile ");
    append_chars(&mut v, &chars_of(key));
    append_chars(&mut v, &chars_of("\n    IdentitiesOnly yes\n"));
    string_of(&v)
}

/// Line pass of the host-block upsert: output, whether the block was written,
/// and whether the old block's lines are being skipped.
pub open spec fn upsert_fold(ls: Seq<Seq<char>>, target: Seq<char>, block: Seq<char>) -> (
    Seq<char>,
    bool,
    bool,
)
    decreases ls.len(),
{
    if ls.len() == 0 {
        (seq![], false, false)
    } else {
        let (out, replaced, skip) = upsert_fold(ls.drop_last(), target, block);
        let line = ls.last();
        let t = trim(line);
        let is_host = starts_with(t, "Host "@) || starts_with(t, "Match "@);
        if skip && !is_host {
            (out, replaced, skip)
        } else if t == target && !replaced {
            (out + block, true, true)
        } else {
            (out + line + seq!['\n'], replaced, false)
        }
    }
}

/// Separator added before an appended block: a blank line unless the text is
/// empty or already ends with one.
pub open spec fn block_separator(out: Seq<char>) -> Seq<char> {
    if out.len() > 0 && !ends_with(out, "\n\n"@) {
        if !ends_with(out, "\n"@) {
            "\n\n"@
        } else {
            "\n"@
        }
    } else {
        seq![]
    }
}

/// New config text after the host-block upsert.
pub open spec fn upserted_text(existing: Seq<char>, host: Seq<char>, block: Seq<char>) -> Seq<char> {
    let (out, replaced, _) = upsert_fold(lines(existing), "Host "@ + host, block);
    if replaced {
        out
    } else {
        out + block_separator(out) + block
    }
}

/// Whether anything changed in the host-block upsert.
pub open spec fn upsert_state(existing: Seq<char>, host: Seq<char>, block: Seq<char>) -> ConfigState {
    let (_, replaced, _) = upsert_fold(lines(existing), "Host "@ + host, block);
    if replaced {
        if trim(upserted_text(existing, host, block)) == trim(existing) {
            ConfigState::Unchanged
        } else {
            ConfigState::Updated
        }
    } else if trim(existing).len() == 0 {
        ConfigState::Created
    } else {
        ConfigState::Updated
    }
}

/// Replaces the block of the exact line `Host <host>` (up to the next `Host ` /
/// `Match ` line) with `block`, or appends `block` after a blank line; returns
/// the new text and whether it was created, updated or left unchanged.
pub fn upsert_host_block(existing: &str, host: &str, block: &str) -> (r: (String, ConfigState))
    ensures
        r.0@ == upserted_text(existing@, host@, block@),
        r.1 == upsert_state(existing@, host@, block@),
{
    let ev = chars_of(existing);
    let bv = chars_of(block);
    let mut target = chars_of("Host ");
    append_chars(&mut target, &chars_of(host));
    let host_p = chars_of("Host ");
    let match_p = chars_of("Match ");
    let ls = lines_exec(&ev);
    let ghost lv = ls.deep_view();
    let mut out: Vec<char> = Vec::new();
    let mut replaced = false;
    let mut skip = false;
    let mut i: usize = 0;
    assert(lv.take(0) =~= Seq::<Seq<char>>::empty());
    while i < ls.len()
        invariant
            i <= ls.len(),
            lv == ls.deep_view(),
            host_p@ == "Host "@,
            match_p@ == "Match "@,
            target@ == "Host "@ + host@,
            upsert_fold(lv.take(i as int), target@, bv@) == (out@, replaced, skip),
        decreases ls.len() - i,
    {
        proof {
            lemma_deep_chars(&ls[i as int]);
        }
        assert(lv.take(i as int + 1).drop_last() =~= lv.take(i as int));
        assert(lv.take(i as int + 1).last() == ls@[i as int]@);
        let line = &ls[i];
        let t = trim_vec(line);
        let is_host = starts_with_exec(&t, &host_p) || starts_with_exec(&t, &match_p);
        if skip && !is_host {
        } else if eq_chars(&t, &target) && !replaced {
            append_chars(&mut out, &bv);
            replaced = true;
            skip = true;
        } else {
            append_chars(&mut out, line);
            out.push('\n');
            skip = false;
        }
        i += 1;
    }
    assert(lv.take(ls.len() as int) =~= lv);
    if !replaced {
        if out.len() > 0 && !ends_with_exec(&out, &chars_of("\n\n")) {
            if !ends_with_exec(&out, &chars_of("\n")) {
                out.push('\n');
            }
            out.push('\n');
            proof {
                reveal_strlit("\n\n");
                reveal_strlit("\n");
            }
        }
        append_chars(&mut out, &bv);
    }
    let state = if replaced {
        if eq_chars(&trim_vec(&out), &trim_vec(&ev)) {
            ConfigState::Unchanged
        } else {
            ConfigState::Updated
        }
    } else if trim_vec(&ev).len() == 0 {
        ConfigState::Created
    } else {
        ConfigState::Updated
    };
    (string_of(&out), state)
}

/// Algorithm (first space-separated field) and trimmed comment (third field
/// onward) of the first line of a public key file.
pub open spec fn public_key_header(contents: Seq<char>) -> (Seq<char>, Seq<char>) {
    let ls = lines(contents);
    let first = if ls.len() > 0 {
        ls[0]
    } else {
        seq![]
    };
    let algorithm = before_char(first, ' ');
    let comment = match index_of(first, ' ') {
        None => seq![],
        Some(i) => {
            let rest = first.skip(i + 1);
            match index_of(rest, ' ') {
                None => seq![],
                Some(j) => trim(rest.skip(j + 1)),
            }
        },
    };
    (algorithm, comment)
}

/// Splits a public key's first line into algorithm and comment.
pub fn parse_public_key_header(contents: &str) -> (r: (String, String))
    ensures
        (r.0@, r.1@) == public_key_header(contents@),
{
    let cv = chars_of(contents);
    let ls = lines_exec(&cv);
    let first = if ls.len() > 0 {
        proof {
            lemma_deep_chars(&ls[0]);
        }
        slice_vec(&ls[0], 0, ls[0].len())
    } else {
        Vec::new()
    };
    assert(first@ == (if ls.deep_view().len() > 0 {
        ls.deep_view()[0]
    } else {
        Seq::<char>::empty()
    }));
    let algorithm = before_char_exec(&first, ' ');
    let comment = match index_of_from(&first, ' ', 0) {
        None => {
            proof {
                lemma_index_of_none(first@, ' ');
            }
            Vec::new()
        },
        Some(i) => {
            proof {
                lemma_index_of_unique(first@, ' ', i as int);
            }
            let rest = slice_vec(&first, i + 1, first.len());
            assert(rest@ == first@.skip(i + 1));
            match index_of_from(&rest, ' ', 0) {
                None => {
                    proof {
                        lemma_index_of_none(rest@, ' ');
                    }
                    Vec::new()
                },
                Some(j) => {
                    proof {
                        lemma_index_of_unique(rest@, ' ', j as int);
                    }
                    let tail = slice_vec(&rest, j + 1, rest.len());
                    assert(tail@ == rest@.skip(j + 1));
                    trim_vec(&tail)
                },
            }
        },
    };
    (string_of(&algorithm), string_of(&comment))
}


/// Host-key lines of `ssh-keyscan` output: trimmed, non-empty, not `#` comments.
pub fn keyscan_key_lines(scanned: &str) -> (r: Vec<String>)
    ensures
        strings_view(r@) == key_lines(lines(scanned@)),
{
    let v = chars_of(scanned);
    let ls = lines_exec(&v);
    let ghost lv = ls.deep_view();
    let mut kept: Vec<Vec<char>> = Vec::new();
    let mut i: usize = 0;
    assert(lv.take(0) =~= Seq::<Seq<char>>::empty());
    assert(kept.deep_view() =~= Seq::<Seq<char>>::empty());
    while i < ls.len()
        invariant
            i <= ls.len(),
            lv == ls.deep_view(),
            key_lines(lv.take(i as int)) == kept.deep_view(),
        decreases ls.len() - i,
    {
        proof {
            lemma_deep_chars(&ls[i as int]);
        }
        assert(lv.take(i as int + 1).drop_last() =~= lv.take(i as int));
        assert(lv.take(i as int + 1).last() == ls@[i as int]@);
        let t = trim_vec(&ls[i]);
        if t.len() > 0 && t[0] != '#' {
            let ghost k0 = kept.deep_view();
            let ghost tv = t@;
            proof {
                lemma_deep_chars(&t);
            }
            kept.push(t);
            assert(kept.deep_view() =~= k0.push(tv)) by {
                assert forall|k: int| 0 <= k < k0.len() implies kept.deep_view()[k] == k0[k] by {}
            }
        }
        i += 1;
    }
    assert(lv.take(ls.len() as int) =~= lv);
    strings_of(&kept)
}

/// Message for `ssh-keygen -lf` output without a fingerprint.
pub open spec fn unparsable_fp_msg(lf: Seq<char>) -> Seq<char> {
    "could not parse SHA256 fingerprint from ssh-keygen output: "@ + lf
}

/// Message for a scanned host key that is not published.
pub open spec fn untrusted_key_msg(token: Seq<char>) -> Seq<char> {
    "scanned host key "@ + token
        + " is not in the published AUR fingerprint list — refusing to write known_hosts. Compare with https://aur.archlinux.org/"@
}

/// Checks one scanned host key, given the `ssh-keygen -lf` output for it,
/// against the trusted fingerprints.
pub fn check_keyscan_fingerprint(lf: &str, trusted: &Vec<String>) -> (r: Result<(), SshSetupError>)
    ensures
        match keygen_sha256_token(lf@) {
            None => r matches Err(SshSetupError::Other(m)) && m@ == unparsable_fp_msg(lf@),
            Some(tok) => if strings_view(trusted@).contains(tok) {
                r is Ok
            } else {
                r matches Err(SshSetupError::Other(m)) && m@ == untrusted_key_msg(tok)
            },
        },
{
    match sha256_token_from_keygen_lf_line(lf) {
        None => {
            let mut m = chars_of("could not parse SHA256 fingerprint from ssh-keygen output: ");
            append_chars(&mut m, &chars_of(lf));
            Err(SshSetupError::Other(string_of(&m)))
        },
        Some(tok) => {
            let tv = chars_of(tok.as_str());
            let mut i: usize = 0;
            while i < trusted.len()
                invariant
                    i <= trusted.len(),
                    keygen_sha256_token(lf@) == Some(tv@),
                    forall|k: int| 0 <= k < i ==> (#[trigger] trusted@[k])@ != tv@,
                decreases trusted.len() - i,
            {
                if eq_chars(&chars_of(trusted[i].as_str()), &tv) {
                    assert(strings_view(trusted@)[i as int] == tv@);
                    return Ok(());
                }
                i += 1;
            }
            assert(!strings_view(trusted@).contains(tv@)) by {
                if strings_view(trusted@).contains(tv@) {
                    let k = choose|k: int| 0 <= k < trusted@.len() && strings_view(trusted@)[k] == tv@;
                    assert(trusted@[k]@ == tv@);
                }
            }
            let mut m = chars_of("scanned host key ");
            append_chars(&mut m, &tv);
            append_chars(
                &mut m,
                &chars_of(
                    " is not in the published AUR fingerprint list — refusing to write known_hosts. Compare with https://aur.archlinux.org/",
                ),
            );
            Err(SshSetupError::Other(string_of(&m)))
        },
    }
}

/// Bundled AUR host-key fingerprints (from the AUR homepage and ArchWiki),
/// used when the published list cannot be fetched.
pub open spec fn fallback_fingerprints() -> Seq<Seq<char>> {
    seq![
        "SHA256:RFzBCUItH9LZS0cKB5UE6ceAYhBD5C8GeOBip8Z11+4"@,
        "SHA256:uTa/0PndEgPZTf76e1DFqXKJEXKsn7m9ivhLQtzGOCI"@,
        "SHA256:5s5cIyReIfNNVGRFdDbe3hdYiI5OelHGpw2rOUud3Q8"@,
    ]
}

/// Fingerprints to trust: the freshly fetched list when it has between 3 and
/// 10 entries, the bundled list otherwise.
pub fn trusted_fingerprints(fetched: Option<Vec<String>>) -> (r: Vec<String>)
    ensures
        match fetched {
            Some(v) => if 3 <= v.len() <= 10 {
                strings_view(r@) == strings_view(v@)
            } else {
                strings_view(r@) == fallback_fingerprints()
            },
            None => strings_view(r@) == fallback_fingerprints(),
        },
{
    match fetched {
        Some(v) => {
            if 3 <= v.len() && v.len() <= 10 {
                return v;
            }
        },
        None => {},
    }
    let mut r: Vec<String> = Vec::new();
    r.push(string_of(&chars_of("SHA256:RFzBCUItH9LZS0cKB5UE6ceAYhBD5C8GeOBip8Z11+4")));
    r.push(string_of(&chars_of("SHA256:uTa/0PndEgPZTf76e1DFqXKJEXKsn7m9ivhLQtzGOCI")));
    r.push(string_of(&chars_of("SHA256:5s5cIyReIfNNVGRFdDbe3hdYiI5OelHGpw2rOUud3Q8")));
    assert(strings_view(r@) =~= fallback_fingerprints());
    r
}


pub proof fn lemma_contains_extend(o: Seq<char>, x: Seq<char>, b: Seq<char>)
    requires
        contains(o, b),
    ensures
        contains(o + x, b),
{
    let i = choose|i: int| occurs_at(o, b, i);
    assert((o + x).subrange(i, i + b.len()) =~= o.subrange(i, i + b.len()));
    assert(occurs_at(o + x, b, i));
}

pub proof fn lemma_contains_suffix(o: Seq<char>, b: Seq<char>)
    ensures
        contains(o + b, b),
{
    assert((o + b).subrange(o.len() as int, o.len() + b.len() as int) =~= b);
    assert(occurs_at(o + b, b, o.len() as int));
}

pub proof fn lemma_upsert_fold_contains(ls: Seq<Seq<char>>, target: Seq<char>, block: Seq<char>)
    ensures
        upsert_fold(ls, target, block).1 ==> contains(upsert_fold(ls, target, block).0, block),
    decreases ls.len(),
{
    if ls.len() > 0 {
        lemma_upsert_fold_contains(ls.drop_last(), target, block);
        let (out, replaced, skip) = upsert_fold(ls.drop_last(), target, block);
        let line = ls.last();
        if replaced {
            lemma_contains_extend(out, line + seq!['\n'], block);
            assert(out + line + seq!['\n'] =~= out + (line + seq!['\n']));
        } else {
            lemma_contains_suffix(out, block);
        }
    }
}

/// After the upsert, the config text holds the new host block.
pub proof fn law_upsert_contains_block(existing: Seq<char>, host: Seq<char>, block: Seq<char>)
    ensures
        contains(upserted_text(existing, host, block), block),
{
    let ls = lines(existing);
    let target = "Host "@ + host;
    lemma_upsert_fold_contains(ls, target, block);
    let (out, replaced, _) = upsert_fold(ls, target, block);
    if !replaced {
        lemma_contains_suffix(out + block_separator(out), block);
    }
}

/// A line that opens a new `Host` / `Match` section.
pub open spec fn is_section_line(line: Seq<char>) -> bool {
    starts_with(trim(line), "Host "@) || starts_with(trim(line), "Match "@)
}

/// Line `i` is the first whose trimmed text is `target`.
pub open spec fn first_target(ls: Seq<Seq<char>>, target: Seq<char>, i: int) -> bool {
    &&& 0 <= i < ls.len()
    &&& trim(ls[i]) == target
    &&& forall|k: int| 0 <= k < i ==> trim(#[trigger] ls[k]) != target
}

/// The section opened at line `i` runs up to line `j`: no line in between
/// opens a section, and line `j` does if there is one.
pub open spec fn section_end(ls: Seq<Seq<char>>, i: int, j: int) -> bool {
    &&& i < j <= ls.len()
    &&& forall|k: int| i < k < j ==> !is_section_line(#[trigger] ls[k])
    &&& j < ls.len() ==> is_section_line(ls[j])
}

/// The text upsert on lines: the lines unchanged when no line matches, else
/// the lines before the first matching section, the block as given, and the
/// lines from the next section on, each line followed by a newline.
pub proof fn lemma_upsert_fold_shape(ls: Seq<Seq<char>>, target: Seq<char>, block: Seq<char>)
    ensures
        !upsert_fold(ls, target, block).1 ==> upsert_fold(ls, target, block).0 == concat_lines(ls)
            && !upsert_fold(ls, target, block).2 && forall|k: int|
            0 <= k < ls.len() ==> trim(#[trigger] ls[k]) != target,
        upsert_fold(ls, target, block).1 ==> exists|i: int, j: int|
            first_target(ls, target, i) && section_end(ls, i, j) && upsert_fold(ls, target, block).0
                == concat_lines(ls.take(i)) + block + concat_lines(ls.skip(j)) && upsert_fold(
                ls,
                target,
                block,
            ).2 == (j == ls.len()),
    decreases ls.len(),
{
    reveal_strlit("Host ");
    reveal_strlit("Match ");
    if ls.len() == 0 {
        assert(concat_lines(ls) =~= Seq::<char>::empty());
    } else {
        let ls1 = ls.drop_last();
        let x = ls.last();
        let n1 = ls1.len() as int;
        lemma_upsert_fold_shape(ls1, target, block);
        let (o1, r1, s1) = upsert_fold(ls1, target, block);
        assert(ls1.push(x) =~= ls);
        assert forall|k: int| 0 <= k < n1 implies ls[k] == ls1[k] by {}
        lemma_concat_push(ls1, x);
        if !r1 {
            if trim(x) == target {
                assert(first_target(ls, target, n1));
                assert(section_end(ls, n1, n1 + 1));
                assert(ls.take(n1) =~= ls1);
                assert(ls.skip(n1 + 1) =~= Seq::<Seq<char>>::empty());
                assert(concat_lines(ls.skip(n1 + 1)) =~= Seq::<char>::empty());
                assert(o1 + block =~= concat_lines(ls.take(n1)) + block + concat_lines(ls.skip(n1 + 1)));
            }
        } else {
            let (i, j) = choose|i: int, j: int|
                first_target(ls1, target, i) && section_end(ls1, i, j) && o1 == concat_lines(ls1.take(i))
                    + block + concat_lines(ls1.skip(j)) && s1 == (j == ls1.len());
            assert(first_target(ls, target, i));
            assert(ls.take(i) =~= ls1.take(i));
            if s1 && !is_section_line(x) {
                assert(section_end(ls, i, n1 + 1));
                assert(ls.skip(n1 + 1) =~= Seq::<Seq<char>>::empty());
                assert(ls1.skip(j) =~= Seq::<Seq<char>>::empty());
            } else if !s1 {
                assert(section_end(ls, i, j));
                assert(ls.skip(j) =~= ls1.skip(j).push(x));
                lemma_concat_push(ls1.skip(j), x);
            } else {
                assert(section_end(ls, i, n1));
                assert(ls1.skip(j) =~= Seq::<Seq<char>>::empty());
                assert(ls.skip(n1) =~= seq![x]);
                lemma_concat_push(Seq::<Seq<char>>::empty(), x);
                assert(seq![x] =~= Seq::<Seq<char>>::empty().push(x));
            }
        }
    }
}

/// Joined lines are empty or end in a newline.
proof fn lemma_concat_nl_end(ls: Seq<Seq<char>>)
    ensures
        concat_lines(ls).len() == 0 || concat_lines(ls).last() == '\n',
{
    if ls.len() > 0 {
        lemma_concat_push(ls.drop_last(), ls.last());
        assert(ls.drop_last().push(ls.last()) =~= ls);
    } else {
        assert(concat_lines(ls) =~= Seq::<char>::empty());
    }
}

/// Plain lines joined, then more text, read back as those lines first.
proof fn lemma_lines_after_concat(pre: Seq<Seq<char>>, x: Seq<char>)
    requires
        plain_lines(pre),
    ensures
        lines(concat_lines(pre) + x) == pre + lines(x),
{
    lemma_concat_nl_end(pre);
    crate::text::lemma_lines_append(concat_lines(pre), x);
    lemma_lines_of_concat(pre);
}

/// A text made of plain lines, the block (opening with the target line and
/// holding no other section line), and plain lines from a section line on,
/// is left as it is by the upsert of that block.
proof fn lemma_upsert_fold_fixed(
    pre: Seq<Seq<char>>,
    block: Seq<char>,
    post: Seq<Seq<char>>,
    target: Seq<char>,
)
    requires
        lines(block).len() > 0,
        trim(lines(block)[0]) == target,
        forall|k: int| 1 <= k < lines(block).len() ==> !is_section_line(#[trigger] lines(block)[k]),
        forall|k: int| 0 <= k < pre.len() ==> trim(#[trigger] pre[k]) != target,
        post.len() > 0 ==> is_section_line(post[0]) && block.last() == '\n',
        plain_lines(pre),
        plain_lines(post),
    ensures
        upsert_fold(
            lines(concat_lines(pre) + block + concat_lines(post)),
            target,
            block,
        ).0 == concat_lines(pre) + block + concat_lines(post),
        upsert_fold(lines(concat_lines(pre) + block + concat_lines(post)), target, block).1,
{
    let bl = lines(block);
    let t = concat_lines(pre) + block + concat_lines(post);
    lemma_lines_after_concat(pre, block + concat_lines(post));
    assert(t =~= concat_lines(pre) + (block + concat_lines(post)));
    if post.len() > 0 {
        crate::text::lemma_lines_append(block, concat_lines(post));
        lemma_lines_of_concat(post);
    } else {
        assert(concat_lines(post) =~= Seq::<char>::empty());
        assert(block + concat_lines(post) =~= block);
        assert(lines(concat_lines(post)) =~= Seq::<Seq<char>>::empty());
    }
    let m = pre + bl + post;
    assert(lines(t) == m);
    let p = pre.len() as int;
    let e = p + bl.len();
    assert(m[p] == bl[0]);
    assert forall|k: int| 0 <= k < p implies trim(#[trigger] m[k]) != target by {
        assert(m[k] == pre[k]);
    }
    assert(first_target(m, target, p));
    assert forall|k: int| p < k < e implies !is_section_line(#[trigger] m[k]) by {
        assert(m[k] == bl[k - p]);
    }
    if e < m.len() {
        assert(m[e] == post[0]);
    }
    assert(section_end(m, p, e));
    lemma_upsert_fold_shape(m, target, block);
    if !upsert_fold(m, target, block).1 {
        assert(trim(m[p]) != target);
    }
    let (i2, j2) = choose|i2: int, j2: int|
        first_target(m, target, i2) && section_end(m, i2, j2) && upsert_fold(m, target, block).0
            == concat_lines(m.take(i2)) + block + concat_lines(m.skip(j2)) && upsert_fold(
            m,
            target,
            block,
        ).2 == (j2 == m.len());
    if i2 < p {
        assert(trim(m[i2]) != target);
    }
    if p < i2 {
        assert(trim(m[p]) != target);
    }
    if j2 < e {
        assert(!is_section_line(m[j2]));
    }
    if e < j2 {
        assert(!is_section_line(m[e]));
    }
    assert(m.take(p) =~= pre);
    assert(m.skip(e) =~= post);
}

/// Conditions under which re-writing the host block is a fixed point: a
/// block that opens with the `Host <host>` line and holds no other `Host` /
/// `Match` line; the config lines the upsert keeps (outside the section it
/// replaces, or all of them when it appends) do not end in a carriage
/// return; and a block followed by kept lines ends in a newline.
pub open spec fn upsert_fixable(existing: Seq<char>, host: Seq<char>, block: Seq<char>) -> bool {
    let ls = lines(existing);
    let bl = lines(block);
    let target = "Host "@ + host;
    &&& bl.len() > 0
    &&& trim(bl[0]) == target
    &&& forall|k: int| 1 <= k < bl.len() ==> !is_section_line(#[trigger] bl[k])
    &&& (forall|k: int| 0 <= k < ls.len() ==> trim(#[trigger] ls[k]) != target) ==> plain_lines(ls)
    &&& forall|i: int, j: int|
        first_target(ls, target, i) && section_end(ls, i, j) ==> plain_lines(ls.take(i))
            && plain_lines(ls.skip(j)) && (j < ls.len() ==> block.last() == '\n')
}

/// Writing the host block again into the config it produced leaves the text
/// as it is and reports it unchanged. Stated for a block that opens with the
/// `Host <host>` line and holds no other `Host` / `Match` line, where the
/// config lines kept around it do not end in a carriage return and the block
/// ends in a newline when kept lines follow it.
pub proof fn law_upsert_idempotent(existing: Seq<char>, host: Seq<char>, block: Seq<char>)
    requires
        upsert_fixable(existing, host, block),
    ensures
        upserted_text(upserted_text(existing, host, block), host, block) == upserted_text(
            existing,
            host,
            block,
        ),
        upsert_state(upserted_text(existing, host, block), host, block) == ConfigState::Unchanged,
{
    reveal_strlit("Host ");
    reveal_strlit("\n");
    reveal_strlit("\n\n");
    let ls = lines(existing);
    let bl = lines(block);
    let target = "Host "@ + host;
    lemma_upsert_fold_shape(ls, target, block);
    let (o, r, sk) = upsert_fold(ls, target, block);
    let out = upserted_text(existing, host, block);
    if r {
        let (i, j) = choose|i: int, j: int|
            first_target(ls, target, i) && section_end(ls, i, j) && o == concat_lines(ls.take(i)) + block
                + concat_lines(ls.skip(j)) && sk == (j == ls.len());
        let pre = ls.take(i);
        let post = ls.skip(j);
        assert forall|k: int| 0 <= k < pre.len() implies trim(#[trigger] pre[k]) != target by {
            assert(pre[k] == ls[k]);
        }
        if post.len() > 0 {
            assert(post[0] == ls[j]);
        }
        lemma_upsert_fold_fixed(pre, block, post, target);
    } else {
        let c = concat_lines(ls);
        lemma_concat_nl_end(ls);
        assert(plain_lines(ls));
        let pre = if c.len() > 0 && !ends_with(c, "\n\n"@) {
            ls.push(Seq::<char>::empty())
        } else {
            ls
        };
        if c.len() > 0 && !ends_with(c, "\n\n"@) {
            assert(ends_with(c, "\n"@)) by {
                assert(c.skip(c.len() - 1) =~= "\n"@);
            }
            assert(block_separator(c) == "\n"@);
            lemma_concat_push(ls, Seq::<char>::empty());
            assert(concat_lines(pre) =~= c + "\n"@);
            assert forall|k: int| 0 <= k < pre.len() implies crate::text::plain_line(#[trigger] pre[k]) by {
                if k < ls.len() {
                    assert(pre[k] == ls[k]);
                }
            }
        } else {
            assert(block_separator(c) =~= Seq::<char>::empty());
        }
        assert(o + block_separator(o) + block =~= concat_lines(pre) + block);
        assert forall|k: int| 0 <= k < pre.len() implies trim(#[trigger] pre[k]) != target by {
            if k < ls.len() {
                assert(pre[k] == ls[k]);
            } else {
                assert(pre[k] == Seq::<char>::empty());
                assert(trim(Seq::<char>::empty()).len() == 0);
            }
        }
        let post = Seq::<Seq<char>>::empty();
        assert(concat_lines(post) =~= Seq::<char>::empty());
        assert(concat_lines(pre) + block + concat_lines(post) =~= concat_lines(pre) + block);
        lemma_upsert_fold_fixed(pre, block, post, target);
    }
}

pub proof fn lemma_lex_irreflexive(a: Seq<char>)
    ensures
        !lex_lt(a, a),
    decreases a.len(),
{
    if a.len() > 0 {
        lemma_lex_irreflexive(a.drop_first());
    }
}

pub proof fn lemma_lex_transitive(a: Seq<char>, b: Seq<char>, c: Seq<char>)
    requires
        lex_lt(a, b),
        lex_lt(b, c),
    ensures
        lex_lt(a, c),
    decreases a.len(),
{
    if a.len() > 0 && b.len() > 0 && c.len() > 0 {
        if a[0] == b[0] && b[0] == c[0] {
            lemma_lex_transitive(a.drop_first(), b.drop_first(), c.drop_first());
        }
    }
}

/// What is appended to `known_hosts`: a newline first when the file is not
/// empty and does not end with one, the scanned keys, and a final newline
/// when they lack it.
pub open spec fn known_hosts_addition_text(file_needs_newline: bool, scanned: Seq<char>) -> Seq<char> {
    (if file_needs_newline { seq!['\n'] } else { Seq::empty() }) + scanned + (if scanned.len() > 0
        && scanned.last() == '\n' {
        Seq::empty()
    } else {
        seq!['\n']
    })
}

/// The text to append to `known_hosts` for freshly scanned host keys; an
/// error when the scan returned nothing but blanks.
pub fn known_hosts_addition(file_needs_newline: bool, scanned: &str) -> (r: Result<String, SshSetupError>)
    ensures
        trim(scanned@).len() == 0 ==> (r matches Err(SshSetupError::Other(m)) && m@
            == "ssh-keyscan returned no host keys"@),
        trim(scanned@).len() > 0 ==> (r matches Ok(t) && t@ == known_hosts_addition_text(file_needs_newline, scanned@)),
{
    let v = chars_of(scanned);
    let (a, b) = trim_bounds(&v);
    if a == b {
        return Err(SshSetupError::Other(string_of(&chars_of("ssh-keyscan returned no host keys"))));
    }
    let mut out: Vec<char> = Vec::new();
    if file_needs_newline {
        out.push('\n');
    }
    append_chars(&mut out, &v);
    if !(v.len() > 0 && v[v.len() - 1] == '\n') {
        out.push('\n');
    }
    assert(out@ =~= known_hosts_addition_text(file_needs_newline, scanned@));
    Ok(string_of(&out))
}


/// What checking one scanned key's `ssh-keygen -lf` output reports: nothing
/// when its fingerprint is trusted, else the refusal message.
pub open spec fn fp_check_msg(lf: Seq<char>, trusted: Seq<Seq<char>>) -> Option<Seq<char>> {
    match keygen_sha256_token(lf) {
        None => Some(unparsable_fp_msg(lf)),
        Some(tok) => if trusted.contains(tok) {
            None
        } else {
            Some(untrusted_key_msg(tok))
        },
    }
}

/// The message of the first scanned key whose check fails, in scan order.
pub open spec fn first_fp_error(lfs: Seq<Seq<char>>, trusted: Seq<Seq<char>>) -> Option<Seq<char>>
    decreases lfs.len(),
{
    if lfs.len() == 0 {
        None
    } else {
        match fp_check_msg(lfs[0], trusted) {
            Some(m) => Some(m),
            None => first_fp_error(lfs.skip(1), trusted),
        }
    }
}

/// Text to append to `known_hosts` after scanning the AUR host keys, or why
/// nothing may be written. `keygen_outputs[i]` is the `ssh-keygen -lf`
/// output for the i-th key line of the scan ([`keyscan_key_lines`]). A blank
/// scan is refused first; then every key line's fingerprint must be trusted
/// (the first that is not gives the error); a scan without key lines is
/// refused; otherwise the scan is appended as [`known_hosts_addition`] does.
pub fn known_hosts_update(
    file_needs_newline: bool,
    scanned: &str,
    keygen_outputs: &Vec<String>,
    trusted: &Vec<String>,
) -> (r: Result<String, SshSetupError>)
    requires
        keygen_outputs.len() == key_lines(lines(scanned@)).len(),
    ensures
        trim(scanned@).len() == 0 ==> (r matches Err(SshSetupError::Other(m)) && m@
            == "ssh-keyscan returned no host keys"@),
        trim(scanned@).len() > 0 ==> match first_fp_error(
            strings_view(keygen_outputs@),
            strings_view(trusted@),
        ) {
            Some(msg) => r matches Err(SshSetupError::Other(m)) && m@ == msg,
            None => if key_lines(lines(scanned@)).len() == 0 {
                r matches Err(SshSetupError::Other(m)) && m@
                    == "ssh-keyscan produced no host key lines to verify"@
            } else {
                r matches Ok(t) && t@ == known_hosts_addition_text(file_needs_newline, scanned@)
            },
        },
{
    let addition = match known_hosts_addition(file_needs_newline, scanned) {
        Err(e) => return Err(e),
        Ok(t) => t,
    };
    let ghost lfs = strings_view(keygen_outputs@);
    let ghost tr = strings_view(trusted@);
    let mut i: usize = 0;
    assert(lfs.skip(0) =~= lfs);
    while i < keygen_outputs.len()
        invariant
            i <= keygen_outputs.len(),
            lfs == strings_view(keygen_outputs@),
            tr == strings_view(trusted@),
            first_fp_error(lfs, tr) == first_fp_error(lfs.skip(i as int), tr),
            trim(scanned@).len() > 0,
            addition@ == known_hosts_addition_text(file_needs_newline, scanned@),
            keygen_outputs.len() == key_lines(lines(scanned@)).len(),
        decreases keygen_outputs.len() - i,
    {
        let ghost rest = lfs.skip(i as int);
        assert(rest[0] == keygen_outputs@[i as int]@);
        assert(rest.skip(1) =~= lfs.skip(i as int + 1));
        match check_keyscan_fingerprint(keygen_outputs[i].as_str(), trusted) {
            Err(e) => {
                return Err(e);
            },
            Ok(()) => {},
        }
        i += 1;
    }
    assert(lfs.skip(i as int) =~= Seq::<Seq<char>>::empty());
    if keygen_outputs.len() == 0 {
        return Err(
            SshSetupError::Other(
                string_of(&chars_of("ssh-keyscan produced no host key lines to verify")),
            ),
        );
    }
    Ok(addition)
}

} // verus!
