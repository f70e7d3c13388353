//! PKGBUILD lines grouped as the quick editor reads them: a line that opens a
//! bash array continued on later lines forms one unit with those lines, and
//! reading the unit is reading one logical line, its lines joined by newlines.
use vstd::prelude::*;

use crate::text::{
    concat_lines, lemma_concat_cons, nl, plain_line, plain_lines, starts_with, trim_start,
};
use crate::workflow::pkgbuild_edit::{
    assign_walk, collect_array, is_bash_function_start, opens_array, paren_delta,
    parse_simple_assignment, parse_walk, preserve_indent,
};
use crate::workflow::pkgbuild_round_trip::{
    apply_write, assign_out, first_function, good_line, has_key_line, indentation, insert_at,
    is_maintainer_line, key_line, lemma_has_key_line_front, lemma_insert_fold, maintainer_lines,
    lemma_kept_indentation, line_write, single_line, steps,
};

verus! {

/// The value a line assigns (meaningful where the line is an assignment).
pub open spec fn assigned_value(line: Seq<char>) -> Seq<char> {
    parse_simple_assignment(trim_start(line)).unwrap().1
}

/// Index after the unit that starts at line `i`: the next line, or the line
/// after the array that line `i` opens.
pub open spec fn unit_end(ls: Seq<Seq<char>>, i: int) -> int {
    if single_line(ls[i]) {
        i + 1
    } else {
        collect_array(ls, i + 1, paren_delta(assigned_value(ls[i])), assigned_value(ls[i])).1
    }
}

/// The units from line `i` on.
pub open spec fn units_from(ls: Seq<Seq<char>>, i: int) -> Seq<Seq<Seq<char>>>
    decreases ls.len() - i,
{
    if i < 0 || i >= ls.len() {
        seq![]
    } else {
        let j = unit_end(ls, i);
        if j <= i || j > ls.len() {
            seq![]
        } else {
            seq![ls.subrange(i, j)] + units_from(ls, j)
        }
    }
}

/// Each line of `seg` after a newline.
pub open spec fn nl_tail(seg: Seq<Seq<char>>) -> Seq<char>
    decreases seg.len(),
{
    if seg.len() == 0 {
        seq![]
    } else {
        nl() + seg[0] + nl_tail(seg.skip(1))
    }
}

/// A unit read as one logical line.
pub open spec fn render(u: Seq<Seq<char>>) -> Seq<char> {
    u[0] + nl_tail(u.skip(1))
}

/// The logical lines of a list of units.
pub open spec fn renders(us: Seq<Seq<Seq<char>>>) -> Seq<Seq<char>> {
    Seq::new(us.len(), |k: int| render(us[k]))
}

/// Joining continuation lines appends them, each after a newline.
pub proof fn lemma_collect_array(ls: Seq<Seq<char>>, j: int, depth: int, acc: Seq<char>)
    requires
        0 <= j <= ls.len(),
    ensures
        j <= collect_array(ls, j, depth, acc).1 <= ls.len(),
        collect_array(ls, j, depth, acc).0 == acc + nl_tail(
            ls.subrange(j, collect_array(ls, j, depth, acc).1),
        ),
    decreases ls.len() - j,
{
    let k = collect_array(ls, j, depth, acc).1;
    if depth > 0 && j < ls.len() {
        lemma_collect_array(ls, j + 1, depth + paren_delta(ls[j]), acc + nl() + ls[j]);
        let seg = ls.subrange(j, k);
        assert(seg[0] == ls[j]);
        assert(seg.skip(1) =~= ls.subrange(j + 1, k));
        assert(acc + nl() + ls[j] + nl_tail(ls.subrange(j + 1, k)) =~= acc + (nl() + seg[0] + nl_tail(
            seg.skip(1),
        )));
    } else {
        assert(ls.subrange(j, j) =~= Seq::<Seq<char>>::empty());
        assert(acc + Seq::<char>::empty() =~= acc);
    }
}

/// Where units end.
pub proof fn lemma_unit_end(ls: Seq<Seq<char>>, i: int)
    requires
        0 <= i < ls.len(),
    ensures
        i < unit_end(ls, i) <= ls.len(),
{
    if !single_line(ls[i]) {
        let v = assigned_value(ls[i]);
        lemma_collect_array(ls, i + 1, paren_delta(v), v);
    }
}

/// Text after a line with a non-blank character leaves its trimmed start alone.
pub proof fn lemma_trim_start_append(l: Seq<char>, r: Seq<char>)
    requires
        trim_start(l).len() > 0,
    ensures
        trim_start(l + r) == trim_start(l) + r,
{
    crate::text::lemma_trim_start_len_bounds(l);
    let k = crate::text::trim_start_len(l);
    assert forall|i: int| 0 <= i < k implies crate::text::is_ws(#[trigger] (l + r)[i]) by {
        assert((l + r)[i] == l[i]);
    }
    assert((l + r)[k] == l[k]);
    crate::text::lemma_trim_start_len_unique(l + r, k);
    assert((l + r).skip(k) =~= l.skip(k) + r);
}

/// Reading a line that opens an array, with its continuation appended, is
/// reading the assignment of the whole array.
pub proof fn lemma_opener_parse(l: Seq<char>, r: Seq<char>)
    requires
        !single_line(l),
    ensures
        parse_simple_assignment(trim_start(l + r)) == Some(
            (parse_simple_assignment(trim_start(l)).unwrap().0, assigned_value(l) + r),
        ),
        !starts_with(trim_start(l + r), "# Maintainer:"@),
{
    reveal_strlit("# Maintainer:");
    let t = trim_start(l);
    let (key, val) = parse_simple_assignment(t).unwrap();
    assert(t.len() > 0);
    lemma_trim_start_append(l, r);
    let idx = crate::text::index_of(t, '=').unwrap();
    crate::text::lemma_index_of(t, '=');
    crate::text::lemma_index_of_unique(t + r, '=', idx);
    assert((t + r).take(idx) =~= t.take(idx));
    assert(starts_with(trim_start(val), seq!['(']));
    assert(val == trim_start(t.skip(idx + 1)));
    crate::text::lemma_trim_start_len_bounds(t.skip(idx + 1));
    crate::text::lemma_trim_start_len_bounds(val);
    assert(trim_start(t.skip(idx + 1)).len() > 0);
    lemma_trim_start_append(t.skip(idx + 1), r);
    assert((t + r).skip(idx + 1) =~= t.skip(idx + 1) + r);
    assert((t + r)[0] == t[0]);
    if starts_with(t + r, "# Maintainer:"@) {
        assert((t + r).take(13)[0] == t[0]);
    }
}

/// Reading lines is reading their units' logical lines one after the other.
pub proof fn lemma_parse_units(ls: Seq<Seq<char>>, i: int, acc: crate::workflow::pkgbuild_edit::FieldsModel)
    requires
        0 <= i <= ls.len(),
    ensures
        parse_walk(ls, i, acc) == steps(renders(units_from(ls, i)), acc),
    decreases ls.len() - i,
{
    if i == ls.len() {
        assert(renders(units_from(ls, i)) =~= Seq::<Seq<char>>::empty());
    } else {
        lemma_unit_end(ls, i);
        let j = unit_end(ls, i);
        let u = ls.subrange(i, j);
        let rs = renders(units_from(ls, i));
        assert(rs =~= seq![render(u)] + renders(units_from(ls, j)));
        assert(rs[0] == render(u));
        assert(rs.skip(1) =~= renders(units_from(ls, j)));
        assert(u[0] == ls[i]);
        if single_line(ls[i]) {
            assert(u.skip(1) =~= Seq::<Seq<char>>::empty());
            assert(render(u) =~= ls[i]);
            let t = trim_start(ls[i]);
            if !starts_with(t, "# Maintainer:"@) {
                match parse_simple_assignment(t) {
                    None => {},
                    Some((key, val)) => {
                        if opens_array(key, val) {
                            assert(collect_array(ls, i + 1, paren_delta(val), val) == (val, i + 1));
                        }
                    },
                }
            }
        } else {
            let v = assigned_value(ls[i]);
            lemma_collect_array(ls, i + 1, paren_delta(v), v);
            assert(u.skip(1) =~= ls.subrange(i + 1, j));
            let r = nl_tail(u.skip(1));
            lemma_opener_parse(ls[i], r);
            lemma_opener_parse(ls[i], seq![]);
            assert(ls[i] + Seq::<char>::empty() =~= ls[i]);
            let t = trim_start(ls[i]);
            let key = parse_simple_assignment(t).unwrap().0;
            assert(parse_simple_assignment(t) == Some((key, v)));
            assert(opens_array(key, v));
            assert(collect_array(ls, i + 1, paren_delta(v), v) == (v + r, j));
            assert(crate::workflow::pkgbuild_edit::apply_assignment(acc, key, v + r) == (match line_write(
                render(u),
            ) {
                None => None,
                Some(w) => Some(apply_write(acc, w)),
            }));
        }
        lemma_parse_units(ls, j, apply_write(acc, line_write(render(u)).unwrap_or(None)));
        if line_write(render(u)) is Some {
            lemma_parse_units(ls, j, apply_write(acc, line_write(render(u)).unwrap()));
        }
    }
}


/// The lines of a list of units.
pub open spec fn flatten(us: Seq<Seq<Seq<char>>>) -> Seq<Seq<char>>
    decreases us.len(),
{
    if us.len() == 0 {
        seq![]
    } else {
        us[0] + flatten(us.skip(1))
    }
}

/// Units cover the lines they are cut from.
pub proof fn lemma_flatten_units(ls: Seq<Seq<char>>, i: int)
    requires
        0 <= i <= ls.len(),
    ensures
        flatten(units_from(ls, i)) == ls.skip(i),
    decreases ls.len() - i,
{
    if i == ls.len() {
        assert(ls.skip(i) =~= Seq::<Seq<char>>::empty());
    } else {
        lemma_unit_end(ls, i);
        let j = unit_end(ls, i);
        let us = units_from(ls, i);
        assert(us[0] == ls.subrange(i, j));
        assert(us.skip(1) =~= units_from(ls, j));
        lemma_flatten_units(ls, j);
        assert(ls.subrange(i, j) + ls.skip(j) =~= ls.skip(i));
    }
}

/// `collect_array` in `ls` from `j` is `collect_array` in `ls.skip(i)`, shifted.
pub proof fn lemma_collect_shift(ls: Seq<Seq<char>>, i: int, j: int, depth: int, acc: Seq<char>)
    requires
        0 <= i <= j <= ls.len(),
    ensures
        collect_array(ls, j, depth, acc) == (
            collect_array(ls.skip(i), j - i, depth, acc).0,
            collect_array(ls.skip(i), j - i, depth, acc).1 + i,
        ),
    decreases ls.len() - j,
{
    if depth > 0 && j < ls.len() {
        assert(ls.skip(i)[j - i] == ls[j]);
        lemma_collect_shift(ls, i, j + 1, depth + paren_delta(ls[j]), acc + nl() + ls[j]);
    }
}

/// `units_from` in `ls` from `a` is `units_from` in `ls.skip(i)`, shifted.
pub proof fn lemma_units_shift(ls: Seq<Seq<char>>, i: int, a: int)
    requires
        0 <= i <= a <= ls.len(),
    ensures
        units_from(ls, a) == units_from(ls.skip(i), a - i),
    decreases ls.len() - a,
{
    if a < ls.len() {
        let t = ls.skip(i);
        assert(t[a - i] == ls[a]);
        if !single_line(ls[a]) {
            let v = assigned_value(ls[a]);
            lemma_collect_shift(ls, i, a + 1, paren_delta(v), v);
        }
        lemma_unit_end(ls, a);
        let j = unit_end(ls, a);
        assert(unit_end(t, a - i) == j - i);
        assert(t.subrange(a - i, j - i) =~= ls.subrange(a, j));
        lemma_units_shift(ls, i, j);
    }
}

/// Walking an array's continuation from line `j` at `depth`, the depth drops
/// to zero or below exactly at the end of `u`.
pub open spec fn block_closes(u: Seq<Seq<char>>, j: int, depth: int) -> bool
    decreases u.len() - j,
{
    if depth <= 0 {
        j == u.len()
    } else if j < 0 || j >= u.len() {
        false
    } else {
        block_closes(u, j + 1, depth + paren_delta(u[j]))
    }
}

/// A closed block ends where it closes, whatever follows it.
pub proof fn lemma_closed_collect(
    u: Seq<Seq<char>>,
    x: Seq<Seq<char>>,
    j: int,
    depth: int,
    acc: Seq<char>,
)
    requires
        0 <= j <= u.len(),
        block_closes(u, j, depth),
    ensures
        collect_array(u + x, j, depth, acc).1 == u.len(),
    decreases u.len() - j,
{
    if depth > 0 {
        assert((u + x)[j] == u[j]);
        lemma_closed_collect(u, x, j + 1, depth + paren_delta(u[j]), acc + nl() + u[j]);
    }
}

/// A unit as the editor reads it: one line that opens no continued array, or
/// a line opening an array followed by the lines that close it.
pub open spec fn wf_unit(u: Seq<Seq<char>>) -> bool {
    &&& u.len() > 0
    &&& single_line(u[0]) ==> u.len() == 1
    &&& !single_line(u[0]) ==> block_closes(u, 1, paren_delta(assigned_value(u[0])))
}

/// Well-formed units, written out as lines, are cut back into themselves.
pub proof fn lemma_resegment(us: Seq<Seq<Seq<char>>>)
    requires
        forall|k: int| 0 <= k < us.len() ==> wf_unit(#[trigger] us[k]),
    ensures
        units_from(flatten(us), 0) == us,
    decreases us.len(),
{
    if us.len() == 0 {
        assert(units_from(flatten(us), 0) =~= us);
    } else {
        let u = us[0];
        let rest = us.skip(1);
        let ls = flatten(us);
        assert(ls == u + flatten(rest));
        assert(wf_unit(u));
        assert(ls[0] == u[0]);
        if !single_line(u[0]) {
            let v = assigned_value(u[0]);
            lemma_closed_collect(u, flatten(rest), 1, paren_delta(v), v);
        }
        assert(unit_end(ls, 0) == u.len());
        assert(ls.subrange(0, u.len() as int) =~= u);
        lemma_units_shift(ls, u.len() as int, u.len() as int);
        assert(ls.skip(u.len() as int) =~= flatten(rest));
        assert forall|k: int| 0 <= k < rest.len() implies wf_unit(#[trigger] rest[k]) by {
            assert(rest[k] == us[k + 1]);
        }
        lemma_resegment(rest);
        assert(us =~= seq![u] + rest);
    }
}


/// Every continuation line of every unit satisfies `p`.
pub open spec fn inner_lines(us: Seq<Seq<Seq<char>>>, p: spec_fn(Seq<char>) -> bool) -> bool {
    forall|k: int, m: int| 0 <= k < us.len() && 1 <= m < us[k].len() ==> p(#[trigger] us[k][m])
}

/// Written out, a unit is its logical line and a newline.
pub proof fn lemma_concat_unit(x: Seq<char>, seg: Seq<Seq<char>>)
    ensures
        concat_lines(seq![x] + seg) == x + nl_tail(seg) + nl(),
    decreases seg.len(),
{
    lemma_concat_cons(x, seg);
    if seg.len() > 0 {
        lemma_concat_unit(seg[0], seg.skip(1));
        assert(seg =~= seq![seg[0]] + seg.skip(1));
        assert(x + nl() + (seg[0] + nl_tail(seg.skip(1)) + nl()) =~= x + (nl() + seg[0] + nl_tail(
            seg.skip(1),
        )) + nl());
    } else {
        assert(concat_lines(seg) =~= Seq::<char>::empty());
        assert(nl_tail(seg) =~= Seq::<char>::empty());
        assert(x + nl() + Seq::<char>::empty() =~= x + Seq::<char>::empty() + nl());
    }
}

/// A unit's logical line looks like its first line to every test made on
/// whole lines.
pub proof fn lemma_render_like_first(u: Seq<Seq<char>>, key: Seq<char>, body: Seq<char>)
    requires
        u.len() > 0,
        single_line(u[0]) ==> u.len() == 1,
    ensures
        key_line(render(u), key) == key_line(u[0], key),
        is_maintainer_line(render(u)) == is_maintainer_line(u[0]),
        preserve_indent(render(u), body) == preserve_indent(u[0], body),
        concat_lines(u) == render(u) + nl(),
{
    let r = nl_tail(u.skip(1));
    assert(u =~= seq![u[0]] + u.skip(1));
    lemma_concat_unit(u[0], u.skip(1));
    if single_line(u[0]) {
        assert(u.skip(1) =~= Seq::<Seq<char>>::empty());
        assert(render(u) =~= u[0]);
    } else {
        lemma_opener_parse(u[0], r);
        lemma_opener_parse(u[0], seq![]);
        assert(u[0] + Seq::<char>::empty() =~= u[0]);
        let l = u[0];
        crate::text::lemma_trim_start_len_bounds(l);
        let k = crate::text::trim_start_len(l);
        assert(k < l.len());
        assert forall|j: int| 0 <= j < k implies (crate::text::ws_pred())(#[trigger] l[j]) by {}
        crate::text::lemma_skip_while_unique(l, 0, k, crate::text::ws_pred());
        assert forall|j: int| 0 <= j < k implies (crate::text::ws_pred())(#[trigger] (l + r)[j]) by {
            assert((l + r)[j] == l[j]);
        }
        assert((l + r)[k] == l[k]);
        crate::text::lemma_skip_while_unique(l + r, 0, k, crate::text::ws_pred());
        assert((l + r).take(k) =~= l.take(k));
    }
}

/// Skipping an array block ends where joining it does.
pub proof fn lemma_skip_is_collect(ls: Seq<Seq<char>>, j: int, depth: int, acc: Seq<char>)
    ensures
        crate::workflow::pkgbuild_edit::skip_array_block(ls, j, depth) == collect_array(
            ls,
            j,
            depth,
            acc,
        ).1,
    decreases ls.len() - j,
{
    if depth > 0 && 0 <= j < ls.len() {
        lemma_skip_is_collect(ls, j + 1, depth + paren_delta(ls[j]), acc + nl() + ls[j]);
    }
}

/// Lines that do not assign `key` are copied by the assignment walk.
pub proof fn lemma_assign_walk_copies(
    ls: Seq<Seq<char>>,
    m: int,
    j: int,
    key: Seq<char>,
    body: Seq<char>,
    out: Seq<char>,
    replaced: bool,
)
    requires
        0 <= m <= j <= ls.len(),
        forall|k: int| m <= k < j ==> !key_line(#[trigger] ls[k], key),
    ensures
        assign_walk(ls, m, key, body, out, replaced) == assign_walk(
            ls,
            j,
            key,
            body,
            out + concat_lines(ls.subrange(m, j)),
            replaced,
        ),
    decreases j - m,
{
    if m == j {
        assert(ls.subrange(m, j) =~= Seq::<Seq<char>>::empty());
        assert(out + Seq::<char>::empty() =~= out);
    } else {
        assert(!key_line(ls[m], key));
        lemma_assign_walk_copies(ls, m + 1, j, key, body, out + ls[m] + nl(), replaced);
        lemma_concat_cons(ls[m], ls.subrange(m + 1, j));
        assert(seq![ls[m]] + ls.subrange(m + 1, j) =~= ls.subrange(m, j));
        assert(out + ls[m] + nl() + concat_lines(ls.subrange(m + 1, j)) =~= out + (ls[m] + nl()
            + concat_lines(ls.subrange(m + 1, j))));
    }
}

/// Where no continuation line assigns `key`, the assignment walk rewrites
/// the logical lines with `assign_out`.
pub proof fn lemma_assign_walk_units(
    ls: Seq<Seq<char>>,
    i: int,
    key: Seq<char>,
    body: Seq<char>,
    out: Seq<char>,
    replaced: bool,
)
    requires
        0 <= i <= ls.len(),
        inner_lines(units_from(ls, i), |c: Seq<char>| !key_line(c, key)),
    ensures
        assign_walk(ls, i, key, body, out, replaced) == (
            out + concat_lines(assign_out(renders(units_from(ls, i)), key, body, replaced)),
            replaced || has_key_line(renders(units_from(ls, i)), key),
        ),
    decreases ls.len() - i,
{
    let us = units_from(ls, i);
    let rs = renders(us);
    if i == ls.len() {
        assert(rs =~= Seq::<Seq<char>>::empty());
        assert(out + Seq::<char>::empty() =~= out);
    } else {
        lemma_unit_end(ls, i);
        let j = unit_end(ls, i);
        let u = ls.subrange(i, j);
        assert(us[0] == u);
        assert(us.skip(1) =~= units_from(ls, j));
        let rest = renders(units_from(ls, j));
        assert(rs =~= seq![render(u)] + rest);
        assert(rs[0] == render(u));
        assert(rs.skip(1) =~= rest);
        assert(u[0] == ls[i]);
        assert forall|k: int, m: int|
            0 <= k < units_from(ls, j).len() && 1 <= m < units_from(ls, j)[k].len() implies (|
            c: Seq<char>,
        | !key_line(c, key))(#[trigger] units_from(ls, j)[k][m]) by {
            assert(units_from(ls, j)[k] == us[k + 1]);
        }
        if !single_line(ls[i]) {
            let v = assigned_value(ls[i]);
            lemma_collect_array(ls, i + 1, paren_delta(v), v);
            lemma_skip_is_collect(ls, i + 1, paren_delta(v), v);
        } else {
            assert(j == i + 1);
            assert(u =~= seq![ls[i]]);
        }
        lemma_render_like_first(u, key, body);
        lemma_has_key_line_front(rs, key);
        if key_line(ls[i], key) {
            let pi = preserve_indent(ls[i], body);
            let out2 = if !replaced { out + pi + nl() } else { out };
            let val = parse_simple_assignment(trim_start(ls[i])).unwrap().1;
            if single_line(ls[i]) && opens_array(key, val) {
                assert(crate::workflow::pkgbuild_edit::skip_array_block(ls, i + 1, paren_delta(val)) == i + 1);
            }
            lemma_assign_walk_units(ls, j, key, body, out2, true);
            let ar = assign_out(rest, key, body, true);
            if !replaced {
                lemma_concat_cons(pi, ar);
                assert(out2 + concat_lines(ar) =~= out + (pi + nl() + concat_lines(ar)));
            }
        } else {
            assert forall|k: int| i + 1 <= k < j implies !key_line(#[trigger] ls[k], key) by {
                assert(ls[k] == u[k - i]);
                assert((|c: Seq<char>| !key_line(c, key))(us[0][k - i]));
            }
            lemma_assign_walk_copies(ls, i + 1, j, key, body, out + ls[i] + nl(), replaced);
            lemma_assign_walk_units(ls, j, key, body, out + concat_lines(u), replaced);
            lemma_concat_cons(ls[i], ls.subrange(i + 1, j));
            assert(seq![ls[i]] + ls.subrange(i + 1, j) =~= u);
            assert(out + ls[i] + nl() + concat_lines(ls.subrange(i + 1, j)) =~= out + concat_lines(u));
            let ar = assign_out(rest, key, body, replaced);
            lemma_concat_cons(render(u), ar);
            assert(out + concat_lines(u) + concat_lines(ar) =~= out + (render(u) + nl() + concat_lines(
                ar,
            )));
        }
    }
}


/// A unit of one line that opens no continued array, or of an opening line
/// followed by more.
pub open spec fn shaped(u: Seq<Seq<char>>) -> bool {
    u.len() > 0 && (single_line(u[0]) ==> u.len() == 1)
}

/// Lines of joined unit lists.
pub proof fn lemma_flatten_append(a: Seq<Seq<Seq<char>>>, b: Seq<Seq<Seq<char>>>)
    ensures
        flatten(a + b) == flatten(a) + flatten(b),
    decreases a.len(),
{
    if a.len() == 0 {
        assert(a + b =~= b);
        assert(flatten(a) + flatten(b) =~= flatten(b));
    } else {
        assert((a + b)[0] == a[0]);
        assert((a + b).skip(1) =~= a.skip(1) + b);
        lemma_flatten_append(a.skip(1), b);
        assert(a[0] + (flatten(a.skip(1)) + flatten(b)) =~= a[0] + flatten(a.skip(1)) + flatten(b));
    }
}

/// Lines of one unit.
pub proof fn lemma_flatten_one(u: Seq<Seq<char>>)
    ensures
        flatten(seq![u]) == u,
{
    assert(seq![u].skip(1) =~= Seq::<Seq<Seq<char>>>::empty());
    assert(flatten(Seq::<Seq<Seq<char>>>::empty()) =~= Seq::<Seq<char>>::empty());
    assert(seq![u][0] == u);
    assert(flatten(seq![u]) == seq![u][0] + flatten(seq![u].skip(1)));
    assert(u + Seq::<Seq<char>>::empty() =~= u);
}

/// Written out, units and their logical lines give the same text.
pub proof fn lemma_concat_renders(us: Seq<Seq<Seq<char>>>)
    requires
        forall|k: int| 0 <= k < us.len() ==> shaped(#[trigger] us[k]),
    ensures
        concat_lines(renders(us)) == concat_lines(flatten(us)),
    decreases us.len(),
{
    if us.len() == 0 {
        assert(renders(us) =~= Seq::<Seq<char>>::empty());
    } else {
        let rest = us.skip(1);
        assert(renders(us) =~= seq![render(us[0])] + renders(rest));
        lemma_concat_cons(render(us[0]), renders(rest));
        assert(shaped(us[0]));
        lemma_render_like_first(us[0], seq![], seq![]);
        crate::text::lemma_concat_append(us[0], flatten(rest));
        assert forall|k: int| 0 <= k < rest.len() implies shaped(#[trigger] rest[k]) by {
            assert(rest[k] == us[k + 1]);
        }
        lemma_concat_renders(rest);
    }
}

/// Units the assignment merge writes: the first unit whose line assigns
/// `key` becomes the new line (unless one already was), later ones go.
pub open spec fn assign_units(
    us: Seq<Seq<Seq<char>>>,
    key: Seq<char>,
    body: Seq<char>,
    replaced: bool,
) -> Seq<Seq<Seq<char>>>
    decreases us.len(),
{
    if us.len() == 0 {
        seq![]
    } else if key_line(us[0][0], key) {
        if replaced {
            assign_units(us.skip(1), key, body, true)
        } else {
            seq![seq![preserve_indent(us[0][0], body)]] + assign_units(us.skip(1), key, body, true)
        }
    } else {
        seq![us[0]] + assign_units(us.skip(1), key, body, replaced)
    }
}

/// A one-line unit reads as its line.
pub proof fn lemma_render_one(x: Seq<char>)
    ensures
        render(seq![x]) == x,
{
    assert(seq![x].skip(1) =~= Seq::<Seq<char>>::empty());
    assert(x + Seq::<char>::empty() =~= x);
}

/// The logical lines of the rewritten units are the rewritten logical lines.
pub proof fn lemma_assign_units(us: Seq<Seq<Seq<char>>>, key: Seq<char>, body: Seq<char>, replaced: bool)
    requires
        forall|k: int| 0 <= k < us.len() ==> shaped(#[trigger] us[k]),
    ensures
        renders(assign_units(us, key, body, replaced)) == assign_out(renders(us), key, body, replaced),
    decreases us.len(),
{
    let rs = renders(us);
    if us.len() == 0 {
        assert(rs =~= Seq::<Seq<char>>::empty());
        assert(renders(assign_units(us, key, body, replaced)) =~= Seq::<Seq<char>>::empty());
    } else {
        let rest = us.skip(1);
        assert(rs[0] == render(us[0]));
        assert(rs.skip(1) =~= renders(rest));
        assert(shaped(us[0]));
        lemma_render_like_first(us[0], key, body);
        assert forall|k: int| 0 <= k < rest.len() implies shaped(#[trigger] rest[k]) by {
            assert(rest[k] == us[k + 1]);
        }
        let pi = preserve_indent(us[0][0], body);
        lemma_render_one(pi);
        if key_line(us[0][0], key) {
            lemma_assign_units(rest, key, body, true);
            if !replaced {
                assert(renders(seq![seq![pi]] + assign_units(rest, key, body, true)) =~= seq![pi]
                    + renders(assign_units(rest, key, body, true)));
            }
        } else {
            lemma_assign_units(rest, key, body, replaced);
            assert(renders(seq![us[0]] + assign_units(rest, key, body, replaced)) =~= seq![
                render(us[0]),
            ] + renders(assign_units(rest, key, body, replaced)));
        }
    }
}

/// Units as the quick editor must find them: well formed, made of plain
/// lines, with every continuation line satisfying `p`.
pub open spec fn units_ok(us: Seq<Seq<Seq<char>>>, p: spec_fn(Seq<char>) -> bool) -> bool {
    &&& forall|k: int| 0 <= k < us.len() ==> wf_unit(#[trigger] us[k])
    &&& plain_lines(flatten(us))
    &&& inner_lines(us, p)
}

/// Plain lines of a concatenation.
pub proof fn lemma_plain_lines_append(a: Seq<Seq<char>>, b: Seq<Seq<char>>)
    ensures
        plain_lines(a + b) == (plain_lines(a) && plain_lines(b)),
{
    if plain_lines(a + b) {
        assert forall|i: int| 0 <= i < a.len() implies plain_line(#[trigger] a[i]) by {
            assert((a + b)[i] == a[i]);
        }
        assert forall|i: int| 0 <= i < b.len() implies plain_line(#[trigger] b[i]) by {
            assert((a + b)[i + a.len()] == b[i]);
        }
    }
    if plain_lines(a) && plain_lines(b) {
        assert forall|i: int| 0 <= i < (a + b).len() implies plain_line(#[trigger] (a + b)[i]) by {
            if i < a.len() {
                assert((a + b)[i] == a[i]);
            } else {
                assert((a + b)[i] == b[i - a.len()]);
            }
        }
    }
}

/// `units_ok` of a unit in front of others.
pub proof fn lemma_units_ok_cons(u: Seq<Seq<char>>, us: Seq<Seq<Seq<char>>>, p: spec_fn(Seq<char>) -> bool)
    ensures
        units_ok(seq![u] + us, p) == (wf_unit(u) && plain_lines(u) && (forall|m: int|
            1 <= m < u.len() ==> p(#[trigger] u[m])) && units_ok(us, p)),
{
    let l = seq![u] + us;
    assert(l[0] == u);
    assert(l.skip(1) =~= us);
    assert(flatten(l) == u + flatten(us));
    lemma_plain_lines_append(u, flatten(us));
    assert forall|k: int| 0 <= k < us.len() implies l[k + 1] == us[k] by {}
    if units_ok(l, p) {
        assert(wf_unit(l[0]));
        assert forall|m: int| 1 <= m < u.len() implies p(#[trigger] u[m]) by {
            assert(p(l[0][m]));
        }
        assert forall|k: int| 0 <= k < us.len() implies wf_unit(#[trigger] us[k]) by {
            assert(wf_unit(l[k + 1]));
        }
        assert forall|k: int, m: int| 0 <= k < us.len() && 1 <= m < us[k].len() implies p(
            #[trigger] us[k][m],
        ) by {
            assert(p(l[k + 1][m]));
        }
    }
    if wf_unit(u) && plain_lines(u) && (forall|m: int| 1 <= m < u.len() ==> p(#[trigger] u[m]))
        && units_ok(us, p) {
        assert forall|k: int| 0 <= k < l.len() implies wf_unit(#[trigger] l[k]) by {
            if k > 0 {
                assert(l[k] == us[k - 1]);
            }
        }
        assert forall|k: int, m: int| 0 <= k < l.len() && 1 <= m < l[k].len() implies p(
            #[trigger] l[k][m],
        ) by {
            if k > 0 {
                assert(l[k] == us[k - 1]);
            }
        }
    }
}

/// A good line on its own is a sound unit.
pub proof fn lemma_good_unit(x: Seq<char>, p: spec_fn(Seq<char>) -> bool)
    requires
        good_line(x),
    ensures
        wf_unit(seq![x]),
        plain_lines(seq![x]),
        forall|m: int| 1 <= m < seq![x].len() ==> p(#[trigger] seq![x][m]),
{
    assert(seq![x][0] == x);
}

/// The assignment merge keeps the units sound.
pub proof fn lemma_assign_units_ok(
    us: Seq<Seq<Seq<char>>>,
    key: Seq<char>,
    body: Seq<char>,
    replaced: bool,
    p: spec_fn(Seq<char>) -> bool,
)
    requires
        units_ok(us, p),
        forall|q: Seq<char>| indentation(q) ==> good_line(#[trigger] (q + body)),
    ensures
        units_ok(assign_units(us, key, body, replaced), p),
    decreases us.len(),
{
    if us.len() == 0 {
        assert(flatten(assign_units(us, key, body, replaced)) =~= Seq::<Seq<char>>::empty());
    } else {
        let rest = us.skip(1);
        assert(us =~= seq![us[0]] + rest);
        lemma_units_ok_cons(us[0], rest, p);
        let l = us[0][0];
        assert(plain_line(us[0][0]));
        lemma_kept_indentation(l);
        let pi = preserve_indent(l, body);
        assert(good_line(pi));
        lemma_good_unit(pi, p);
        if key_line(l, key) {
            lemma_assign_units_ok(rest, key, body, true, p);
            if !replaced {
                lemma_units_ok_cons(seq![pi], assign_units(rest, key, body, true), p);
            }
        } else {
            lemma_assign_units_ok(rest, key, body, replaced, p);
            lemma_units_ok_cons(us[0], assign_units(rest, key, body, replaced), p);
        }
    }
}


/// Index of the first unit opened by a bash function line, or the number of units.
pub open spec fn first_function_unit(us: Seq<Seq<Seq<char>>>) -> int
    decreases us.len(),
{
    if us.len() == 0 {
        0
    } else {
        let k = first_function_unit(us.drop_last());
        if k < us.len() - 1 {
            k
        } else if is_bash_function_start(us.last()[0]) {
            us.len() - 1
        } else {
            us.len() as int
        }
    }
}

/// Without a function line, the first one is past the end.
pub proof fn lemma_first_function_none(ls: Seq<Seq<char>>)
    requires
        forall|j: int| 0 <= j < ls.len() ==> !is_bash_function_start(#[trigger] ls[j]),
    ensures
        first_function(ls) == ls.len(),
    decreases ls.len(),
{
    if ls.len() > 0 {
        assert forall|j: int| 0 <= j < ls.drop_last().len() implies !is_bash_function_start(
            #[trigger] ls.drop_last()[j],
        ) by {
            assert(ls.drop_last()[j] == ls[j]);
        }
        lemma_first_function_none(ls.drop_last());
        assert(!is_bash_function_start(ls[ls.len() - 1]));
    }
}

/// The first function line of two runs of lines.
pub proof fn lemma_first_function_append(a: Seq<Seq<char>>, b: Seq<Seq<char>>)
    ensures
        first_function(a + b) == (if first_function(a) < a.len() {
            first_function(a)
        } else {
            a.len() + first_function(b)
        }),
    decreases b.len(),
{
    lemma_insert_fold(a, seq![]);
    lemma_insert_fold(b, seq![]);
    if b.len() == 0 {
        assert(a + b =~= a);
    } else {
        lemma_first_function_append(a, b.drop_last());
        assert((a + b).drop_last() =~= a + b.drop_last());
        assert((a + b).last() == b.last());
        lemma_insert_fold(b.drop_last(), seq![]);
    }
}

/// Lines of a prefix and a suffix of units.
pub proof fn lemma_flatten_split(us: Seq<Seq<Seq<char>>>, k: int)
    requires
        0 <= k <= us.len(),
    ensures
        flatten(us) == flatten(us.take(k)) + flatten(us.skip(k)),
{
    lemma_flatten_append(us.take(k), us.skip(k));
    assert(us.take(k) + us.skip(k) =~= us);
}

/// Where no continuation line starts a function, the first function line
/// opens the first function unit.
pub proof fn lemma_first_function_units(us: Seq<Seq<Seq<char>>>)
    requires
        forall|k: int| 0 <= k < us.len() ==> shaped(#[trigger] us[k]),
        inner_lines(us, |c: Seq<char>| !is_bash_function_start(c)),
    ensures
        0 <= first_function_unit(us) <= us.len(),
        first_function(flatten(us)) == flatten(us.take(first_function_unit(us))).len(),
    decreases us.len(),
{
    if us.len() == 0 {
        assert(flatten(us) =~= Seq::<Seq<char>>::empty());
        lemma_insert_fold(flatten(us), seq![]);
    } else {
        let us1 = us.drop_last();
        let u = us.last();
        assert(shaped(u));
        assert forall|k: int| 0 <= k < us1.len() implies shaped(#[trigger] us1[k]) by {
            assert(us1[k] == us[k]);
        }
        assert forall|k: int, m: int| 0 <= k < us1.len() && 1 <= m < us1[k].len() implies (|
            c: Seq<char>,
        | !is_bash_function_start(c))(#[trigger] us1[k][m]) by {
            assert(us1[k] == us[k]);
        }
        lemma_first_function_units(us1);
        assert(us1 + seq![u] =~= us);
        lemma_flatten_append(us1, seq![u]);
        lemma_flatten_one(u);
        let f1 = flatten(us1);
        lemma_first_function_append(f1, u);
        let inner = u.skip(1);
        assert(u =~= seq![u[0]] + inner);
        assert forall|j: int| 0 <= j < inner.len() implies !is_bash_function_start(#[trigger] inner[j]) by {
            assert(inner[j] == u[j + 1]);
            assert((|c: Seq<char>| !is_bash_function_start(c))(us[us.len() - 1][j + 1]));
        }
        lemma_first_function_none(inner);
        lemma_first_function_append(seq![u[0]], inner);
        assert(seq![u[0]].drop_last() =~= Seq::<Seq<char>>::empty());
        assert(first_function(Seq::<Seq<char>>::empty()) == 0);
        assert(first_function(seq![u[0]]) == if is_bash_function_start(u[0]) { 0int } else { 1int });
        assert(first_function(u) == if is_bash_function_start(u[0]) { 0int } else { u.len() as int });
        let k1 = first_function_unit(us1);
        assert(flatten(us) == f1 + u);
        if k1 < us1.len() {
            lemma_flatten_split(us1, k1);
            assert(us1.skip(k1)[0] == us1[k1]);
            assert(shaped(us1[k1]));
            assert(flatten(us1.skip(k1)) == us1.skip(k1)[0] + flatten(us1.skip(k1).skip(1)));
            assert(flatten(us1.take(k1)).len() < f1.len());
            assert(first_function_unit(us) == k1);
            assert(us.take(k1) =~= us1.take(k1));
        } else {
            assert(first_function(f1) == f1.len()) by {
                assert(us1.take(us1.len() as int) =~= us1);
            }
            assert(us.take(us1.len() as int) =~= us1);
            assert(us.take(us.len() as int) =~= us);
            if is_bash_function_start(u[0]) {
                assert(first_function_unit(us) == us1.len());
            } else {
                assert(first_function_unit(us) == us.len());
            }
        }
    }
}

/// The unit `u` inserted in front of unit `k`.
pub open spec fn insert_unit(us: Seq<Seq<Seq<char>>>, k: int, u: Seq<Seq<char>>) -> Seq<Seq<Seq<char>>> {
    us.take(k) + seq![u] + us.skip(k)
}

/// Inserting a line in front of a unit, on lines and on units.
pub proof fn lemma_insert_units(us: Seq<Seq<Seq<char>>>, k: int, x: Seq<char>)
    requires
        0 <= k <= us.len(),
    ensures
        insert_at(flatten(us), flatten(us.take(k)).len() as int, x) == flatten(
            insert_unit(us, k, seq![x]),
        ),
{
    let ls = flatten(us);
    lemma_flatten_split(us, k);
    let a = flatten(us.take(k));
    lemma_flatten_append(us.take(k) + seq![seq![x]], us.skip(k));
    lemma_flatten_append(us.take(k), seq![seq![x]]);
    lemma_flatten_one(seq![x]);
    assert(ls.take(a.len() as int) =~= a);
    assert(ls.skip(a.len() as int) =~= flatten(us.skip(k)));
}

/// The logical lines after an insertion.
pub proof fn lemma_insert_renders(us: Seq<Seq<Seq<char>>>, k: int, x: Seq<char>)
    requires
        0 <= k <= us.len(),
    ensures
        renders(insert_unit(us, k, seq![x])) == insert_at(renders(us), k, x),
{
    lemma_render_one(x);
    assert(renders(insert_unit(us, k, seq![x])) =~= insert_at(renders(us), k, x));
}

/// Inserting a good line keeps the units sound.
pub proof fn lemma_insert_units_ok(us: Seq<Seq<Seq<char>>>, k: int, x: Seq<char>, p: spec_fn(Seq<char>) -> bool)
    requires
        0 <= k <= us.len(),
        units_ok(us, p),
        good_line(x),
    ensures
        units_ok(insert_unit(us, k, seq![x]), p),
{
    let out = insert_unit(us, k, seq![x]);
    lemma_insert_units(us, k, x);
    lemma_flatten_split(us, k);
    let ls = flatten(us);
    let a = flatten(us.take(k));
    lemma_plain_lines_append(a, flatten(us.skip(k)));
    assert(flatten(out) == a + seq![x] + flatten(us.skip(k))) by {
        assert(insert_at(ls, a.len() as int, x) == ls.take(a.len() as int) + seq![x] + ls.skip(a.len() as int));
        assert(ls.take(a.len() as int) =~= a);
        assert(ls.skip(a.len() as int) =~= flatten(us.skip(k)));
    }
    lemma_plain_lines_append(a + seq![x], flatten(us.skip(k)));
    lemma_plain_lines_append(a, seq![x]);
    assert(plain_lines(seq![x])) by {
        assert(seq![x][0] == x);
    }
    lemma_good_unit(x, p);
    assert forall|j: int| 0 <= j < out.len() implies wf_unit(#[trigger] out[j]) by {
        if j < k {
            assert(out[j] == us[j]);
        } else if j > k {
            assert(out[j] == us[j - 1]);
        } else {
            assert(out[j] == seq![x]);
        }
    }
    assert forall|j: int, m: int| 0 <= j < out.len() && 1 <= m < out[j].len() implies p(
        #[trigger] out[j][m],
    ) by {
        if j < k {
            assert(out[j] == us[j]);
        } else if j > k {
            assert(out[j] == us[j - 1]);
        } else {
            assert(out[j] == seq![x]);
        }
    }
}


/// Units the maintainer merge writes: the first unit that is a maintainer
/// comment becomes the new line, later ones go.
pub open spec fn maintainer_units(us: Seq<Seq<Seq<char>>>, new_line: Seq<char>) -> (
    Seq<Seq<Seq<char>>>,
    bool,
)
    decreases us.len(),
{
    if us.len() == 0 {
        (seq![], false)
    } else {
        let (o, r) = maintainer_units(us.drop_last(), new_line);
        let u = us.last();
        if is_maintainer_line(u[0]) {
            if !r {
                (o.push(seq![preserve_indent(u[0], new_line)]), true)
            } else {
                (o, r)
            }
        } else {
            (o.push(u), r)
        }
    }
}

/// Lines that are not maintainer comments pass through the maintainer pass.
pub proof fn lemma_maintainer_lines_pass(ls: Seq<Seq<char>>, seg: Seq<Seq<char>>, new_line: Seq<char>)
    requires
        forall|j: int| 0 <= j < seg.len() ==> !is_maintainer_line(#[trigger] seg[j]),
    ensures
        maintainer_lines(ls + seg, new_line) == (
            maintainer_lines(ls, new_line).0 + seg,
            maintainer_lines(ls, new_line).1,
        ),
    decreases seg.len(),
{
    if seg.len() == 0 {
        assert(ls + seg =~= ls);
        assert(maintainer_lines(ls, new_line).0 + seg =~= maintainer_lines(ls, new_line).0);
    } else {
        let s1 = seg.drop_last();
        assert forall|j: int| 0 <= j < s1.len() implies !is_maintainer_line(#[trigger] s1[j]) by {
            assert(s1[j] == seg[j]);
        }
        lemma_maintainer_lines_pass(ls, s1, new_line);
        assert((ls + seg).drop_last() =~= ls + s1);
        assert((ls + seg).last() == seg.last());
        assert(!is_maintainer_line(seg[seg.len() - 1]));
        assert((maintainer_lines(ls, new_line).0 + s1).push(seg.last()) =~= maintainer_lines(
            ls,
            new_line,
        ).0 + seg);
    }
}

/// Lines of units with one more unit.
pub proof fn lemma_flatten_push(us: Seq<Seq<Seq<char>>>, u: Seq<Seq<char>>)
    ensures
        flatten(us.push(u)) == flatten(us) + u,
{
    lemma_flatten_append(us, seq![u]);
    lemma_flatten_one(u);
    assert(us + seq![u] =~= us.push(u));
}

/// Where no continuation line is a maintainer comment, the maintainer pass on
/// lines is the pass on units.
pub proof fn lemma_maintainer_units(us: Seq<Seq<Seq<char>>>, new_line: Seq<char>)
    requires
        forall|k: int| 0 <= k < us.len() ==> shaped(#[trigger] us[k]),
        inner_lines(us, |c: Seq<char>| !is_maintainer_line(c)),
    ensures
        maintainer_lines(flatten(us), new_line) == (
            flatten(maintainer_units(us, new_line).0),
            maintainer_units(us, new_line).1,
        ),
    decreases us.len(),
{
    if us.len() == 0 {
        assert(flatten(us) =~= Seq::<Seq<char>>::empty());
        assert(flatten(maintainer_units(us, new_line).0) =~= Seq::<Seq<char>>::empty());
    } else {
        let us1 = us.drop_last();
        let u = us.last();
        assert(shaped(u));
        assert forall|k: int| 0 <= k < us1.len() implies shaped(#[trigger] us1[k]) by {
            assert(us1[k] == us[k]);
        }
        assert forall|k: int, m: int| 0 <= k < us1.len() && 1 <= m < us1[k].len() implies (|
            c: Seq<char>,
        | !is_maintainer_line(c))(#[trigger] us1[k][m]) by {
            assert(us1[k] == us[k]);
        }
        lemma_maintainer_units(us1, new_line);
        assert(us1.push(u) =~= us);
        lemma_flatten_push(us1, u);
        let f1 = flatten(us1);
        let inner = u.skip(1);
        assert(f1 + u =~= (f1 + seq![u[0]]) + inner);
        assert forall|j: int| 0 <= j < inner.len() implies !is_maintainer_line(#[trigger] inner[j]) by {
            assert(inner[j] == u[j + 1]);
            assert((|c: Seq<char>| !is_maintainer_line(c))(us[us.len() - 1][j + 1]));
        }
        lemma_maintainer_lines_pass(f1 + seq![u[0]], inner, new_line);
        assert((f1 + seq![u[0]]).drop_last() =~= f1);
        assert((f1 + seq![u[0]]).last() == u[0]);
        let (o, r) = maintainer_units(us1, new_line);
        let pi = preserve_indent(u[0], new_line);
        lemma_flatten_push(o, u);
        lemma_flatten_push(o, seq![pi]);
        if is_maintainer_line(u[0]) {
            reveal_strlit("# Maintainer:");
            assert(trim_start(u[0])[0] == '#') by {
                assert(trim_start(u[0]).take(13)[0] == trim_start(u[0])[0]);
            }
            assert(single_line(u[0]));
            assert(inner =~= Seq::<Seq<char>>::empty());
            assert(flatten(o).push(pi) =~= flatten(o) + seq![pi]);
            assert(flatten(o) + Seq::<Seq<char>>::empty() =~= flatten(o));
            assert(flatten(o).push(pi) + Seq::<Seq<char>>::empty() =~= flatten(o).push(pi));
        } else {
            assert(flatten(o).push(u[0]) + inner =~= flatten(o) + u);
        }
    }
}

/// The logical lines of the maintainer pass on units are the pass on logical lines.
pub proof fn lemma_maintainer_units_render(us: Seq<Seq<Seq<char>>>, new_line: Seq<char>)
    requires
        forall|k: int| 0 <= k < us.len() ==> shaped(#[trigger] us[k]),
    ensures
        renders(maintainer_units(us, new_line).0) == maintainer_lines(renders(us), new_line).0,
        maintainer_units(us, new_line).1 == maintainer_lines(renders(us), new_line).1,
    decreases us.len(),
{
    if us.len() == 0 {
        assert(renders(us) =~= Seq::<Seq<char>>::empty());
        assert(renders(maintainer_units(us, new_line).0) =~= Seq::<Seq<char>>::empty());
    } else {
        let us1 = us.drop_last();
        let u = us.last();
        assert(shaped(u));
        assert forall|k: int| 0 <= k < us1.len() implies shaped(#[trigger] us1[k]) by {
            assert(us1[k] == us[k]);
        }
        lemma_maintainer_units_render(us1, new_line);
        assert(renders(us).drop_last() =~= renders(us1));
        assert(renders(us).last() == render(u));
        lemma_render_like_first(u, seq![], new_line);
        let (o, r) = maintainer_units(us1, new_line);
        let pi = preserve_indent(u[0], new_line);
        lemma_render_one(pi);
        assert(renders(o.push(u)) =~= renders(o).push(render(u)));
        assert(renders(o.push(seq![pi])) =~= renders(o).push(pi));
    }
}

/// `units_ok` of units with one more unit.
pub proof fn lemma_units_ok_push(us: Seq<Seq<Seq<char>>>, u: Seq<Seq<char>>, p: spec_fn(Seq<char>) -> bool)
    ensures
        units_ok(us.push(u), p) == (units_ok(us, p) && wf_unit(u) && plain_lines(u) && (forall|m: int|
            1 <= m < u.len() ==> p(#[trigger] u[m]))),
{
    let l = us.push(u);
    lemma_flatten_push(us, u);
    lemma_plain_lines_append(flatten(us), u);
    assert(l[us.len() as int] == u);
    assert forall|k: int| 0 <= k < us.len() implies l[k] == us[k] by {}
    if units_ok(l, p) {
        assert(wf_unit(l[us.len() as int]));
        assert forall|m: int| 1 <= m < u.len() implies p(#[trigger] u[m]) by {
            assert(p(l[us.len() as int][m]));
        }
        assert forall|k: int| 0 <= k < us.len() implies wf_unit(#[trigger] us[k]) by {
            assert(wf_unit(l[k]));
        }
        assert forall|k: int, m: int| 0 <= k < us.len() && 1 <= m < us[k].len() implies p(
            #[trigger] us[k][m],
        ) by {
            assert(p(l[k][m]));
        }
    }
    if units_ok(us, p) && wf_unit(u) && plain_lines(u) && (forall|m: int|
        1 <= m < u.len() ==> p(#[trigger] u[m])) {
        assert forall|k: int| 0 <= k < l.len() implies wf_unit(#[trigger] l[k]) by {
            if k < us.len() {
                assert(l[k] == us[k]);
            }
        }
        assert forall|k: int, m: int| 0 <= k < l.len() && 1 <= m < l[k].len() implies p(
            #[trigger] l[k][m],
        ) by {
            if k < us.len() {
                assert(l[k] == us[k]);
            }
        }
    }
}

/// The maintainer merge keeps the units sound.
pub proof fn lemma_maintainer_units_ok(
    us: Seq<Seq<Seq<char>>>,
    new_line: Seq<char>,
    p: spec_fn(Seq<char>) -> bool,
)
    requires
        units_ok(us, p),
        forall|q: Seq<char>| indentation(q) ==> good_line(#[trigger] (q + new_line)),
    ensures
        units_ok(maintainer_units(us, new_line).0, p),
    decreases us.len(),
{
    if us.len() == 0 {
        assert(flatten(maintainer_units(us, new_line).0) =~= Seq::<Seq<char>>::empty());
    } else {
        let us1 = us.drop_last();
        let u = us.last();
        assert(us1.push(u) =~= us);
        lemma_units_ok_push(us1, u, p);
        lemma_maintainer_units_ok(us1, new_line, p);
        let (o, r) = maintainer_units(us1, new_line);
        assert(plain_line(u[0]));
        lemma_kept_indentation(u[0]);
        let pi = preserve_indent(u[0], new_line);
        assert(good_line(pi));
        lemma_good_unit(pi, p);
        lemma_units_ok_push(o, u, p);
        lemma_units_ok_push(o, seq![pi], p);
        assert(plain_lines(seq![pi])) by {
            assert(seq![pi][0] == pi);
        }
    }
}

} // verus!
