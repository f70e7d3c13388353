//! Tab titles of the main window.
use vstd::prelude::*;

use crate::text::{append_chars, chars_of, decimal, decimal_exec, slice_vec, string_of, trim, trim_vec, utf8_len, utf8_width};
use crate::workflow::package::PackageDef;

verus! {

/// Title of the Home tab with the number of registered packages.
pub open spec fn home_tab_text(count: nat) -> Seq<char> {
    if count == 1 {
        "Home - (1 Package)"@
    } else {
        "Home - ("@ + decimal(count) + " Packages)"@
    }
}

/// Title of the Home tab (see [`home_tab_text`]).
pub fn home_tab_title(count: usize) -> (r: String)
    ensures
        r@ == home_tab_text(count as nat),
{
    if count == 1 {
        return string_of(&chars_of("Home - (1 Package)"));
    }
    let mut v = chars_of("Home - (");
    append_chars(&mut v, &decimal_exec(count as u64));
    append_chars(&mut v, &chars_of(" Packages)"));
    string_of(&v)
}

/// Title of the Version tab: with the cached `pkgver` when there is one.
pub open spec fn version_tab_text(pkgver_cache: Seq<char>) -> Seq<char> {
    if trim(pkgver_cache).len() == 0 {
        "Version"@
    } else {
        "Version - "@ + trim(pkgver_cache)
    }
}

/// Title of the Version tab (see [`version_tab_text`]).
pub fn version_tab_title(pkgver_cache: &str) -> (r: String)
    ensures
        r@ == version_tab_text(pkgver_cache@),
{
    let v = trim_vec(&chars_of(pkgver_cache));
    if v.len() == 0 {
        return string_of(&chars_of("Version"));
    }
    let mut t = chars_of("Version - ");
    append_chars(&mut t, &v);
    string_of(&t)
}

/// Some prefix of `s` is exactly `n` UTF-8 bytes long.
pub open spec fn has_byte_boundary(s: Seq<char>, n: int) -> bool {
    exists|k: int| 0 <= k <= s.len() && #[trigger] utf8_len(s.take(k)) == n
}

/// Number of characters in the prefix of `s` that is `n` bytes long.
pub open spec fn boundary_chars(s: Seq<char>, n: int) -> int {
    choose|k: int| 0 <= k <= s.len() && #[trigger] utf8_len(s.take(k)) == n
}

/// A package id for a tab title: ids over 28 bytes are cut to their first
/// 27 bytes and end in `…`.
pub open spec fn ellipsized(id: Seq<char>) -> Seq<char> {
    if utf8_len(id) <= 28 {
        id
    } else {
        id.take(boundary_chars(id, 27)) + "…"@
    }
}

/// Prefixes grow by at least one byte per character.
proof fn lemma_prefix_bytes_increase(s: Seq<char>, a: int, b: int)
    requires
        0 <= a < b <= s.len(),
    ensures
        utf8_len(s.take(a)) < utf8_len(s.take(b)),
    decreases b - a,
{
    assert(s.take(b).drop_last() =~= s.take(b - 1));
    if a < b - 1 {
        lemma_prefix_bytes_increase(s, a, b - 1);
    }
}

/// A package id for a tab title (see [`ellipsized`]). An id over 28 bytes
/// must have a character boundary at byte 27.
pub fn ellipsize_package(pkg: &PackageDef) -> (r: String)
    requires
        utf8_len(pkg.id@) > 28 ==> has_byte_boundary(pkg.id@, 27),
    ensures
        r@ == ellipsized(pkg.id@),
{
    let v = chars_of(pkg.id.as_str());
    let ghost s = v@;
    let mut acc: usize = 0;
    let mut i: usize = 0;
    let mut long = false;
    assert(s.take(0) =~= Seq::<char>::empty());
    while i < v.len() && !long
        invariant
            i <= v.len(),
            s == v@,
            acc == utf8_len(s.take(i as int)),
            !long ==> acc <= 28,
            long ==> utf8_len(s) > 28,
        decreases v.len() - i + (if long { 0int } else { 1int }),
    {
        assert(s.take(i as int + 1).drop_last() =~= s.take(i as int));
        let c = v[i] as u32;
        let w: usize = if c < 0x80 {
            1
        } else if c < 0x800 {
            2
        } else if c < 0x10000 {
            3
        } else {
            4
        };
        assert(w == utf8_width(v@[i as int]));
        if acc + w > 28 {
            proof {
                crate::text::lemma_utf8_len_prefix(s, i as int + 1);
            }
            long = true;
        } else {
            acc = acc + w;
            i += 1;
        }
    }
    if !long {
        assert(s.take(i as int) =~= s);
        return string_of(&v);
    }
    let ghost k = boundary_chars(s, 27);
    let mut j: usize = 0;
    let mut b: usize = 0;
    while b < 27
        invariant
            j <= v.len(),
            s == v@,
            b == utf8_len(s.take(j as int)),
            b <= 27,
            has_byte_boundary(s, 27),
            0 <= k <= s.len() && utf8_len(s.take(k)) == 27,
            j <= k,
        decreases 27 - b,
    {
        proof {
            if j == k {
                assert(false);
            }
            lemma_prefix_bytes_increase(s, j as int, k);
        }
        assert(j < v.len());
        assert(s.take(j as int + 1).drop_last() =~= s.take(j as int));
        let c = v[j] as u32;
        let w: usize = if c < 0x80 {
            1
        } else if c < 0x800 {
            2
        } else if c < 0x10000 {
            3
        } else {
            4
        };
        assert(w == utf8_width(v@[j as int]));
        proof {
            if j + 1 < k {
                lemma_prefix_bytes_increase(s, j as int + 1, k);
            }
        }
        b = b + w;
        j += 1;
    }
    proof {
        if j != k {
            lemma_prefix_bytes_increase(s, j as int, k);
        }
    }
    let mut out = slice_vec(&v, 0, j);
    assert(out@ =~= s.take(j as int));
    append_chars(&mut out, &chars_of("…"));
    string_of(&out)
}

/// Title of the Sync tab: with the selected package's id.
pub open spec fn sync_tab_text(pkg: Option<PackageDef>) -> Seq<char> {
    match pkg {
        Some(p) => "Sync - "@ + ellipsized(p.id@),
        None => "Sync"@,
    }
}

/// Title of the Sync tab (see [`sync_tab_text`]).
pub fn sync_tab_title(pkg: Option<&PackageDef>) -> (r: String)
    requires
        pkg matches Some(p) ==> (utf8_len(p.id@) > 28 ==> has_byte_boundary(p.id@, 27)),
    ensures
        r@ == sync_tab_text(match pkg {
            Some(p) => Some(*p),
            None => None,
        }),
{
    match pkg {
        None => string_of(&chars_of("Sync")),
        Some(p) => {
            let mut v = chars_of("Sync - ");
            append_chars(&mut v, &chars_of(ellipsize_package(p).as_str()));
            string_of(&v)
        },
    }
}

} // verus!
