//! AUR Git clone layout and the reading of `git` outputs. The `git`
//! processes themselves run in the application.
use vstd::prelude::*;

use crate::text::{
    append_chars, chars_of, lemma_deep_chars, lines, lines_exec, string_of, trim, trim_vec,
};
use crate::workflow::sync::path_join;

verus! {

/// `<work_dir>/aur/<pkg_id>`, the AUR git clone of a package.
pub open spec fn aur_clone_dir_of(work_dir: Seq<char>, pkg_id: Seq<char>) -> Seq<char> {
    path_join(path_join(work_dir, "aur"@), pkg_id)
}

/// Layout: `<work_dir>/aur/<pkgname>` is the AUR git clone.
pub fn aur_clone_dir(work_dir: &str, pkg_id: &str) -> (r: String)
    ensures
        r@ == aur_clone_dir_of(work_dir@, pkg_id@),
{
    let a = crate::workflow::sync::join_paths(work_dir, "aur");
    crate::workflow::sync::join_paths(a.as_str(), pkg_id)
}

/// Some line of the text is not blank.
pub open spec fn has_nonblank_line(ls: Seq<Seq<char>>) -> bool {
    exists|i: int| 0 <= i < ls.len() && trim(#[trigger] ls[i]).len() > 0
}

/// Whether `git ls-remote` output advertises any ref (a non-blank line).
pub fn ls_remote_output_has_ref(stdout: &str) -> (r: bool)
    ensures
        r == has_nonblank_line(lines(stdout@)),
{
    let ls = lines_exec(&chars_of(stdout));
    let mut i: usize = 0;
    while i < ls.len()
        invariant
            i <= ls.len(),
            ls.deep_view() == lines(stdout@),
            forall|j: int| 0 <= j < i ==> trim(#[trigger] ls.deep_view()[j]).len() == 0,
        decreases ls.len() - i,
    {
        proof {
            lemma_deep_chars(&ls[i as int]);
        }
        if trim_vec(&ls[i]).len() > 0 {
            assert(trim(ls.deep_view()[i as int]).len() > 0);
            return true;
        }
        i += 1;
    }
    false
}

/// Text shown for the staged changes: the `--stat` block and a blank line
/// when it is not blank, then the patch; a note when everything is blank.
pub open spec fn diff_report(stat: Seq<char>, body: Seq<char>) -> Seq<char> {
    let out = (if trim(stat).len() > 0 {
        stat + seq!['\n']
    } else {
        seq![]
    }) + body;
    if trim(out).len() == 0 {
        out + "(no changes staged against HEAD)"@
    } else {
        out
    }
}

/// Combines `git diff --stat HEAD` and `git diff HEAD` outputs for display.
pub fn compose_diff_report(stat: &str, body: &str) -> (r: String)
    ensures
        r@ == diff_report(stat@, body@),
{
    let sv = chars_of(stat);
    let mut out: Vec<char> = Vec::new();
    if trim_vec(&sv).len() > 0 {
        append_chars(&mut out, &sv);
        out.push('\n');
        assert(out@ =~= stat@ + seq!['\n']);
    } else {
        assert(out@ =~= Seq::<char>::empty());
    }
    append_chars(&mut out, &chars_of(body));
    if trim_vec(&out).len() == 0 {
        append_chars(&mut out, &chars_of("(no changes staged against HEAD)"));
    }
    string_of(&out)
}

/// Meaning of the exit code of `git diff --quiet HEAD`: 0 no changes, 1
/// changes, anything else (or a signal) a failure with its message.
pub fn diff_quiet_exit(code: Option<i32>) -> (r: Result<bool, String>)
    ensures
        code == Some(0i32) ==> r == Ok::<bool, String>(false),
        code == Some(1i32) ==> r == Ok::<bool, String>(true),
        code is None ==> (r matches Err(m) && m@ == "git diff --quiet HEAD: no exit code"@),
        (code matches Some(c) && c != 0 && c != 1) ==> r is Err,
{
    match code {
        Some(0) => Ok(false),
        Some(1) => Ok(true),
        Some(c) => {
            let mut m = chars_of("git diff --quiet HEAD exited with ");
            let digits = if c < 0 {
                let mut d = vec!['-'];
                let mag: u64 = if c == i32::MIN {
                    2147483648
                } else {
                    (-c) as u64
                };
                append_chars(&mut d, &crate::text::decimal_exec(mag));
                d
            } else {
                crate::text::decimal_exec(c as u64)
            };
            append_chars(&mut m, &digits);
            Err(string_of(&m))
        },
        None => Err(string_of(&chars_of("git diff --quiet HEAD: no exit code"))),
    }
}

} // verus!
