//! Manage page: the transcript of "check all packages for upstream updates",
//! the packages a bulk PKGBUILD download would fetch, how one package's
//! upstream check is shown, and the page's toasts.
use vstd::prelude::*;

use crate::text::{
    append_chars, chars_of, decimal, decimal_exec, join, join_exec, lemma_deep_chars, opt_str, replace_all,
    replace_all_exec, string_of, utf8_len, utf8_len_capped,
};
use crate::workflow::admin::{admin_error_message, is_missing_pkgbuild_upstream_error, missing_msg, AdminError, UpdateStatus};
use crate::workflow::package::PackageDef;

verus! {

/// Outcome of the upstream check of one package.
pub type UpstreamResult = Result<UpdateStatus, AdminError>;

/// The check failed because the package has no local `PKGBUILD`.
pub open spec fn missing_pkgbuild(res: UpstreamResult) -> bool {
    res matches Err(AdminError::Other(m)) && m@ == missing_msg()
}

/// The packages whose check failed for a missing local `PKGBUILD`, in order.
pub open spec fn missing_of(rs: Seq<(PackageDef, UpstreamResult)>) -> Seq<PackageDef>
    decreases rs.len(),
{
    if rs.len() == 0 {
        Seq::empty()
    } else if missing_pkgbuild(rs.last().1) {
        missing_of(rs.drop_last()).push(rs.last().0)
    } else {
        missing_of(rs.drop_last())
    }
}

/// The packages a bulk PKGBUILD download should fetch: those whose check
/// failed for a missing local `PKGBUILD`; `None` when there are none.
pub fn packages_missing_pkgbuild_for_bulk_sync(results: &Vec<(PackageDef, UpstreamResult)>) -> (r:
    Option<Vec<PackageDef>>)
    ensures
        match r {
            Some(v) => v@ == missing_of(results@) && v.len() > 0,
            None => missing_of(results@).len() == 0,
        },
{
    let mut out: Vec<PackageDef> = Vec::new();
    let mut i: usize = 0;
    assert(results@.take(0) =~= Seq::<(PackageDef, UpstreamResult)>::empty());
    while i < results.len()
        invariant
            i <= results.len(),
            out@ == missing_of(results@.take(i as int)),
        decreases results.len() - i,
    {
        assert(results@.take(i as int + 1).drop_last() =~= results@.take(i as int));
        assert(results@.take(i as int + 1).last() == results@[i as int]);
        let missing = match &results[i].1 {
            Err(e) => is_missing_pkgbuild_upstream_error(e),
            Ok(_) => false,
        };
        if missing {
            out.push(results[i].0.clone());
        }
        i += 1;
    }
    assert(results@.take(i as int) =~= results@);
    if out.len() == 0 {
        None
    } else {
        Some(out)
    }
}

/// Longest package id in UTF-8 bytes.
pub open spec fn max_id_len(rs: Seq<(PackageDef, UpstreamResult)>) -> int
    decreases rs.len(),
{
    if rs.len() == 0 {
        0
    } else {
        let m = max_id_len(rs.drop_last());
        let l = utf8_len(rs.last().0.id@) as int;
        if l > m {
            l
        } else {
            m
        }
    }
}

/// Width of the package column: the longest id or the header (`"Package"`,
/// seven bytes), kept between 16 and 48.
pub open spec fn package_column_width(rs: Seq<(PackageDef, UpstreamResult)>) -> int {
    let m = if max_id_len(rs) > 7 {
        max_id_len(rs)
    } else {
        7
    };
    if m < 16 {
        16
    } else if m > 48 {
        48
    } else {
        m
    }
}

/// Package column width for the report (see [`package_column_width`]).
pub fn bulk_upstream_package_column_width(results: &Vec<(PackageDef, UpstreamResult)>) -> (r: usize)
    ensures
        r == package_column_width(results@),
{
    // The running maximum, with every length above 48 counted as 49.
    let mut m: usize = 7;
    let mut i: usize = 0;
    assert(results@.take(0) =~= Seq::<(PackageDef, UpstreamResult)>::empty());
    while i < results.len()
        invariant
            i <= results.len(),
            7 <= m <= 49,
            m == (if max_id_len(results@.take(i as int)) > 48 {
                49
            } else if max_id_len(results@.take(i as int)) > 7 {
                max_id_len(results@.take(i as int))
            } else {
                7
            }),
        decreases results.len() - i,
    {
        assert(results@.take(i as int + 1).drop_last() =~= results@.take(i as int));
        assert(results@.take(i as int + 1).last() == results@[i as int]);
        let l: usize = match utf8_len_capped(&chars_of(results[i].0.id.as_str()), 48) {
            Some(n) => n,
            None => 49,
        };
        if l > m {
            m = l;
        }
        i += 1;
    }
    assert(results@.take(i as int) =~= results@);
    if m < 16 {
        16
    } else if m > 48 {
        48
    } else {
        m
    }
}

/// `s` padded on the right with spaces to `w` characters (`{:<w$}`).
pub open spec fn pad_right(s: Seq<char>, w: int) -> Seq<char> {
    if s.len() < w {
        s + Seq::new((w - s.len()) as nat, |i: int| ' ')
    } else {
        s
    }
}

/// `n` copies of `c`.
pub open spec fn repeat_char(c: char, n: int) -> Seq<char> {
    Seq::new(n as nat, |i: int| c)
}

/// Width of the status column.
pub open spec fn status_width() -> int {
    10
}

/// Start of a report row: padded id and padded status, with separators.
pub open spec fn row_head(w: int, id: Seq<char>, status: Seq<char>) -> Seq<char> {
    pad_right(id, w) + " | "@ + pad_right(status, status_width()) + " | "@
}

/// The report lines of one package.
pub open spec fn row_lines(w: int, p: PackageDef, res: UpstreamResult) -> Seq<Seq<char>> {
    let id = p.id@;
    match res {
        Ok(UpdateStatus::UpToDate { version }) => seq![row_head(w, id, "up to date"@) + "pkgver "@ + version@],
        Ok(UpdateStatus::Outdated { local, upstream, diff }) => seq![
            row_head(w, id, "outdated"@) + "pkgver: "@ + local@ + " (local) → "@ + upstream@ + " (upstream)"@,
            "=== "@ + id + " (PKGBUILD vs upstream) ===\n\n"@ + diff@,
        ],
        Err(AdminError::NotImplemented(what)) => seq![row_head(w, id, "preview"@) + what@],
        Err(e) => seq![row_head(w, id, "error"@) + replace_all(admin_error_message(e), seq!['\n'], seq![' '])],
    }
}

/// The report lines of all packages, in order.
pub open spec fn report_rows(w: int, rs: Seq<(PackageDef, UpstreamResult)>) -> Seq<Seq<char>>
    decreases rs.len(),
{
    if rs.len() == 0 {
        Seq::empty()
    } else {
        report_rows(w, rs.drop_last()) + row_lines(w, rs.last().0, rs.last().1)
    }
}

/// The whole transcript: header, rule, the rows, one line each, each line
/// ended by a newline.
pub open spec fn bulk_report(rs: Seq<(PackageDef, UpstreamResult)>) -> Seq<char> {
    let w = package_column_width(rs);
    let header = pad_right("Package"@, w) + " | "@ + pad_right("Status"@, status_width()) + " | "@ + "Details"@;
    let rule = repeat_char('-', w) + "-+-"@ + repeat_char('-', status_width()) + "-+-"@ + repeat_char('-', 52);
    join(seq![header, rule] + report_rows(w, rs), seq!['\n']) + seq!['\n']
}

fn pad_right_exec(s: &[char], w: usize) -> (r: Vec<char>)
    ensures
        r@ == pad_right(s@, w as int),
{
    let mut r: Vec<char> = Vec::new();
    append_chars(&mut r, s);
    let mut n: usize = s.len();
    while n < w
        invariant
            s.len() <= n,
            n <= w || n == s.len(),
            r@ == s@ + Seq::new((n - s.len()) as nat, |i: int| ' '),
        decreases w - n,
    {
        r.push(' ');
        assert(r@ =~= s@ + Seq::new((n + 1 - s.len()) as nat, |i: int| ' '));
        n += 1;
    }
    if s.len() >= w {
        assert(r@ =~= s@);
    }
    r
}

fn repeat_char_exec(c: char, n: usize) -> (r: Vec<char>)
    ensures
        r@ == repeat_char(c, n as int),
{
    let mut r: Vec<char> = Vec::new();
    let mut i: usize = 0;
    while i < n
        invariant
            i <= n,
            r@ =~= repeat_char(c, i as int),
        decreases n - i,
    {
        r.push(c);
        i += 1;
    }
    r
}

/// Start of a report row (see [`row_head`]).
fn row_head_exec(w: usize, id: &[char], status: &str) -> (r: Vec<char>)
    ensures
        r@ == row_head(w as int, id@, status@),
{
    let mut r = pad_right_exec(id, w);
    append_chars(&mut r, &chars_of(" | "));
    append_chars(&mut r, &pad_right_exec(&chars_of(status), 10));
    append_chars(&mut r, &chars_of(" | "));
    r
}

/// Appends one line.
fn push_line(lines: &mut Vec<Vec<char>>, l: Vec<char>)
    ensures
        final(lines).deep_view() == old(lines).deep_view().push(l@),
{
    let ghost old_v = lines@;
    let ghost od = lines.deep_view();
    let ghost lv = l@;
    proof {
        lemma_deep_chars(&l);
    }
    lines.push(l);
    assert(lines.deep_view() =~= od.push(lv)) by {
        assert forall|q: int| 0 <= q < lines.len() implies lines.deep_view()[q] == od.push(lv)[q] by {
            if q < old_v.len() {
                assert(lines@[q] == old_v[q]);
            }
        }
    }
}

/// Appends the report lines of one package (see [`row_lines`]).
fn push_row_lines(lines: &mut Vec<Vec<char>>, w: usize, p: &PackageDef, res: &UpstreamResult)
    ensures
        final(lines).deep_view() == old(lines).deep_view() + row_lines(w as int, *p, *res),
{
    let ghost od = lines.deep_view();
    let id = chars_of(p.id.as_str());
    match res {
        Ok(UpdateStatus::UpToDate { version }) => {
            let mut l = row_head_exec(w, &id, "up to date");
            append_chars(&mut l, &chars_of("pkgver "));
            append_chars(&mut l, &chars_of(version.as_str()));
            assert(l@ == row_head(w as int, p.id@, "up to date"@) + "pkgver "@ + version@);
            push_line(lines, l);
        },
        Ok(UpdateStatus::Outdated { local, upstream, diff }) => {
            let mut l = row_head_exec(w, &id, "outdated");
            append_chars(&mut l, &chars_of("pkgver: "));
            append_chars(&mut l, &chars_of(local.as_str()));
            append_chars(&mut l, &chars_of(" (local) → "));
            append_chars(&mut l, &chars_of(upstream.as_str()));
            append_chars(&mut l, &chars_of(" (upstream)"));
            let mut d = chars_of("=== ");
            append_chars(&mut d, &id);
            append_chars(&mut d, &chars_of(" (PKGBUILD vs upstream) ===\n\n"));
            append_chars(&mut d, &chars_of(diff.as_str()));
            push_line(lines, l);
            push_line(lines, d);
        },
        Err(AdminError::NotImplemented(what)) => {
            let mut l = row_head_exec(w, &id, "preview");
            append_chars(&mut l, &chars_of(what));
            push_line(lines, l);
        },
        Err(e) => {
            let mut l = row_head_exec(w, &id, "error");
            let msg = e.message();
            let nl = vec!['\n'];
            let sp = vec![' '];
            assert(nl@ =~= seq!['\n']);
            assert(sp@ =~= seq![' ']);
            append_chars(&mut l, &replace_all_exec(&chars_of(msg.as_str()), &nl, &sp));
            push_line(lines, l);
        },
    }
    assert(lines.deep_view() =~= od + row_lines(w as int, *p, *res));
}

/// The monospace transcript of "check all packages for upstream updates":
/// a header, a rule, then one aligned row per package (pipes between the
/// columns); an outdated package adds its diff block after a short title.
pub fn format_bulk_upstream_report(results: &Vec<(PackageDef, UpstreamResult)>) -> (r: String)
    ensures
        r@ == bulk_report(results@),
{
    let w = bulk_upstream_package_column_width(results);
    let mut lines: Vec<Vec<char>> = Vec::new();
    let mut header = pad_right_exec(&chars_of("Package"), w);
    append_chars(&mut header, &chars_of(" | "));
    append_chars(&mut header, &pad_right_exec(&chars_of("Status"), 10));
    append_chars(&mut header, &chars_of(" | "));
    append_chars(&mut header, &chars_of("Details"));
    let mut rule = repeat_char_exec('-', w);
    append_chars(&mut rule, &chars_of("-+-"));
    append_chars(&mut rule, &repeat_char_exec('-', 10));
    append_chars(&mut rule, &chars_of("-+-"));
    append_chars(&mut rule, &repeat_char_exec('-', 52));
    let ghost hv = header@;
    let ghost rv = rule@;
    push_line(&mut lines, header);
    push_line(&mut lines, rule);
    let mut i: usize = 0;
    assert(results@.take(0) =~= Seq::<(PackageDef, UpstreamResult)>::empty());
    assert(lines.deep_view() =~= seq![hv, rv] + report_rows(w as int, results@.take(0)));
    while i < results.len()
        invariant
            i <= results.len(),
            lines.deep_view() == seq![hv, rv] + report_rows(w as int, results@.take(i as int)),
        decreases results.len() - i,
    {
        assert(results@.take(i as int + 1).drop_last() =~= results@.take(i as int));
        assert(results@.take(i as int + 1).last() == results@[i as int]);
        push_row_lines(&mut lines, w, &results[i].0, &results[i].1);
        assert(lines.deep_view() =~= seq![hv, rv] + report_rows(w as int, results@.take(i as int + 1)));
        i += 1;
    }
    assert(results@.take(i as int) =~= results@);
    let nl = vec!['\n'];
    assert(nl@ =~= seq!['\n']);
    let mut out = join_exec(&lines, &nl);
    out.push('\n');
    string_of(&out)
}

/// Toast after a bulk PKGBUILD download (none when nothing was attempted).
pub open spec fn bulk_sync_toast_text(n_ok: nat, n_fail: nat) -> Option<Seq<char>> {
    if n_ok == 0 && n_fail == 0 {
        None
    } else if n_fail == 0 {
        Some("Downloaded PKGBUILD for "@ + decimal(n_ok) + " package(s)."@)
    } else if n_ok == 0 {
        Some("Could not download PKGBUILD for "@ + decimal(n_fail) + " package(s). Use Sync per package for details."@)
    } else {
        Some("Downloaded "@ + decimal(n_ok) + " PKGBUILD(s); "@ + decimal(n_fail)
            + " failed — use Sync or Edit package for failing rows."@)
    }
}

/// Toast text for the outcome of a bulk PKGBUILD download.
pub fn bulk_sync_toast(n_ok: usize, n_fail: usize) -> (r: Option<String>)
    ensures
        opt_str(r) == bulk_sync_toast_text(n_ok as nat, n_fail as nat),
{
    if n_ok == 0 && n_fail == 0 {
        return None;
    }
    let mut v: Vec<char>;
    if n_fail == 0 {
        v = chars_of("Downloaded PKGBUILD for ");
        append_chars(&mut v, &decimal_exec(n_ok as u64));
        append_chars(&mut v, &chars_of(" package(s)."));
    } else if n_ok == 0 {
        v = chars_of("Could not download PKGBUILD for ");
        append_chars(&mut v, &decimal_exec(n_fail as u64));
        append_chars(&mut v, &chars_of(" package(s). Use Sync per package for details."));
    } else {
        v = chars_of("Downloaded ");
        append_chars(&mut v, &decimal_exec(n_ok as u64));
        append_chars(&mut v, &chars_of(" PKGBUILD(s); "));
        append_chars(&mut v, &decimal_exec(n_fail as u64));
        append_chars(&mut v, &chars_of(" failed — use Sync or Edit package for failing rows."));
    }
    Some(string_of(&v))
}

/// Toast for the outcome of a package action.
pub open spec fn admin_result_toast_text(res: Result<(), AdminError>, ok_msg: Seq<char>) -> Seq<char> {
    match res {
        Ok(()) => ok_msg,
        Err(AdminError::NotImplemented(what)) => "Coming soon: "@ + what@,
        Err(e) => "Failed: "@ + admin_error_message(e),
    }
}

/// Toast text for the outcome of a package action: the success message,
/// "Coming soon" for a planned feature, else the failure.
pub fn admin_result_toast(res: &Result<(), AdminError>, ok_msg: &str) -> (r: String)
    ensures
        r@ == admin_result_toast_text(*res, ok_msg@),
{
    match res {
        Ok(()) => string_of(&chars_of(ok_msg)),
        Err(AdminError::NotImplemented(what)) => {
            let mut v = chars_of("Coming soon: ");
            append_chars(&mut v, &chars_of(what));
            string_of(&v)
        },
        Err(e) => {
            let mut v = chars_of("Failed: ");
            append_chars(&mut v, &chars_of(e.message().as_str()));
            string_of(&v)
        },
    }
}


/// How the result of checking one package against its upstream PKGBUILD is shown.
#[derive(Debug, PartialEq, Eq)]
pub enum UpstreamCheckView {
    /// A short message.
    Toast(String),
    /// A report window with a title and a monospace body.
    Report { title: String, body: String },
}

/// Body of the report for a package whose PKGBUILD differs from upstream.
pub open spec fn outdated_report_body(local: Seq<char>, upstream: Seq<char>, diff: Seq<char>) -> Seq<char> {
    "pkgver: "@ + local + " (local) → "@ + upstream
        + " (upstream)\n\nDiff (same style as Publish “Diff vs HEAD”):\n\n"@ + diff
}

/// How the check of package `pkg_id` against upstream is shown: a message
/// when it matches, a report with the version change and the diff when it
/// differs, "Coming soon" for a planned feature, else the failure.
pub fn upstream_check_view(pkg_id: &str, res: &UpstreamResult) -> (r: UpstreamCheckView)
    ensures
        match res {
            Ok(UpdateStatus::UpToDate { version }) => r matches UpstreamCheckView::Toast(t) && t@
                == pkg_id@ + ": PKGBUILD matches upstream (pkgver "@ + version@ + ")."@,
            Ok(UpdateStatus::Outdated { local, upstream, diff }) => r matches UpstreamCheckView::Report {
                title,
                body,
            } && title@ == pkg_id@ + " — PKGBUILD vs upstream"@ && body@ == outdated_report_body(
                local@,
                upstream@,
                diff@,
            ),
            Err(AdminError::NotImplemented(what)) => r matches UpstreamCheckView::Toast(t) && t@
                == "Coming soon: "@ + what@,
            Err(e) => r matches UpstreamCheckView::Toast(t) && t@ == pkg_id@ + ": "@
                + admin_error_message(*e),
        },
{
    match res {
        Ok(UpdateStatus::UpToDate { version }) => {
            let mut v = chars_of(pkg_id);
            append_chars(&mut v, &chars_of(": PKGBUILD matches upstream (pkgver "));
            append_chars(&mut v, &chars_of(version.as_str()));
            append_chars(&mut v, &chars_of(")."));
            UpstreamCheckView::Toast(string_of(&v))
        },
        Ok(UpdateStatus::Outdated { local, upstream, diff }) => {
            let mut t = chars_of(pkg_id);
            append_chars(&mut t, &chars_of(" — PKGBUILD vs upstream"));
            let mut b = chars_of("pkgver: ");
            append_chars(&mut b, &chars_of(local.as_str()));
            append_chars(&mut b, &chars_of(" (local) → "));
            append_chars(&mut b, &chars_of(upstream.as_str()));
            append_chars(
                &mut b,
                &chars_of(" (upstream)\n\nDiff (same style as Publish “Diff vs HEAD”):\n\n"),
            );
            append_chars(&mut b, &chars_of(diff.as_str()));
            UpstreamCheckView::Report { title: string_of(&t), body: string_of(&b) }
        },
        Err(AdminError::NotImplemented(what)) => {
            let mut v = chars_of("Coming soon: ");
            append_chars(&mut v, &chars_of(what));
            UpstreamCheckView::Toast(string_of(&v))
        },
        Err(e) => {
            let mut v = chars_of(pkg_id);
            append_chars(&mut v, &chars_of(": "));
            append_chars(&mut v, &chars_of(e.message().as_str()));
            UpstreamCheckView::Toast(string_of(&v))
        },
    }
}


/// Every package matched its upstream PKGBUILD.
pub open spec fn all_up_to_date(rs: Seq<(PackageDef, UpstreamResult)>) -> bool {
    forall|i: int| 0 <= i < rs.len() ==> (#[trigger] rs[i]).1 matches Ok(UpdateStatus::UpToDate { .. })
}

/// Some package differs from its upstream PKGBUILD.
pub open spec fn any_outdated(rs: Seq<(PackageDef, UpstreamResult)>) -> bool {
    exists|i: int| 0 <= i < rs.len() && (#[trigger] rs[i]).1 matches Ok(UpdateStatus::Outdated { .. })
}

/// How the result of "check all packages" is shown.
pub enum BulkCheckView {
    /// Everything matched: a message.
    AllMatch(String),
    /// Something differed or failed: a report window (offering to download the
    /// PKGBUILDs that are missing locally, when there are any) and a message.
    Report {
        title: &'static str,
        report: String,
        bulk_sync: Option<Vec<PackageDef>>,
        toast: &'static str,
    },
}

/// How the result of "check all packages" is shown: a message when every
/// package matched upstream, else the transcript under a title that asks for
/// a review when some package differs.
pub fn bulk_upstream_check_view(results: &Vec<(PackageDef, UpstreamResult)>) -> (r: BulkCheckView)
    ensures
        match r {
            BulkCheckView::AllMatch(t) => all_up_to_date(results@) && t@ == "All "@ + decimal(
                results@.len(),
            ) + " package(s) match upstream PKGBUILD."@,
            BulkCheckView::Report { title, report, bulk_sync, toast } => {
                &&& !all_up_to_date(results@)
                &&& title@ == (if any_outdated(results@) {
                    "Upstream check — review diffs"@
                } else {
                    "Upstream check — report"@
                })
                &&& report@ == bulk_report(results@)
                &&& match bulk_sync {
                    Some(v) => v@ == missing_of(results@) && v.len() > 0,
                    None => missing_of(results@).len() == 0,
                }
                &&& toast@ == "One or more packages differ from upstream or failed — see the report window."@
            },
        },
{
    let mut all_match = true;
    let mut outdated = false;
    let mut i: usize = 0;
    while i < results.len()
        invariant
            i <= results.len(),
            all_match <==> forall|j: int|
                0 <= j < i ==> (#[trigger] results@[j]).1 matches Ok(UpdateStatus::UpToDate { .. }),
            outdated <==> exists|j: int|
                0 <= j < i && (#[trigger] results@[j]).1 matches Ok(UpdateStatus::Outdated { .. }),
        decreases results.len() - i,
    {
        match &results[i].1 {
            Ok(UpdateStatus::UpToDate { .. }) => {},
            Ok(UpdateStatus::Outdated { .. }) => {
                all_match = false;
                outdated = true;
            },
            Err(_) => {
                all_match = false;
            },
        }
        i += 1;
    }
    if all_match {
        let mut v = chars_of("All ");
        append_chars(&mut v, &decimal_exec(results.len() as u64));
        append_chars(&mut v, &chars_of(" package(s) match upstream PKGBUILD."));
        return BulkCheckView::AllMatch(string_of(&v));
    }
    let title = if outdated {
        "Upstream check — review diffs"
    } else {
        "Upstream check — report"
    };
    BulkCheckView::Report {
        title,
        report: format_bulk_upstream_report(results),
        bulk_sync: packages_missing_pkgbuild_for_bulk_sync(results),
        toast: "One or more packages differ from upstream or failed — see the report window.",
    }
}

} // verus!
