//! UI translations: dotted keys looked up in the active locale's bundle, then
//! in English, then the key itself; and the choice of the UI locale from the
//! configuration, the environment and `i18n.yml` fallbacks.
//!
//! Loading the YAML bundles, reading environment variables and holding the
//! process-wide translator happen in the application; it hands the loaded
//! values to the functions here.
use vstd::prelude::*;

pub mod yaml;

use crate::config::{lemma_replace_absent, Config};
use crate::text::{
    all_chars, append_chars, char_is_ascii_alnum, is_ascii_alnum, occurs_at, trim_end_len,
    trim_start_len, ascii_lower_char, before_char, before_char_exec, char_is_alphanumeric,
    chars_of, contains, contains_exec, eq_chars, ends_with, lemma_deep_chars, lines, lines_exec,
    lowercase, opt_str, replace_all, replace_all_exec, slice_vec, split_char, split_char_exec,
    starts_with, starts_with_exec, string_of, to_lowercase, to_uppercase, trim, trim_start,
    trim_start_vec, trim_vec, unicode_alphanumeric, uppercase, utf8_len, utf8_len_capped,
};

verus! {

/// Active UI locale.
#[derive(Debug, Clone, Copy, PartialEq, Eq, Structural)]
pub enum UiLocale {
    /// United States English bundle (`en-US.yml`).
    EnUs,
    /// German bundle (`de-DE.yml`).
    DeDe,
}

/// Characters of key/value pairs.
pub open spec fn pairs_view(v: Seq<(String, String)>) -> Seq<(Seq<char>, Seq<char>)> {
    Seq::new(v.len(), |i: int| (v[i].0@, v[i].1@))
}

/// Value of `k` in a list of entries (a later entry overrides an earlier one).
pub open spec fn assoc_get(m: Seq<(Seq<char>, Seq<char>)>, k: Seq<char>) -> Option<Seq<char>>
    decreases m.len(),
{
    if m.len() == 0 {
        None
    } else if m.last().0 == k {
        Some(m.last().1)
    } else {
        assoc_get(m.drop_last(), k)
    }
}

/// Lookup in a list of entries (a later entry overrides an earlier one).
pub fn assoc_lookup(m: &Vec<(String, String)>, k: &[char]) -> (r: Option<Vec<char>>)
    ensures
        match r {
            Some(v) => assoc_get(pairs_view(m@), k@) == Some(v@),
            None => assoc_get(pairs_view(m@), k@) is None,
        },
{
    let ghost mv = pairs_view(m@);
    let mut j: usize = m.len();
    assert(mv.take(m.len() as int) =~= mv);
    while j > 0
        invariant
            j <= m.len(),
            mv == pairs_view(m@),
            assoc_get(mv.take(j as int), k@) == assoc_get(mv, k@),
        decreases j,
    {
        assert(mv.take(j as int).drop_last() =~= mv.take(j - 1));
        assert(mv.take(j as int).last() == (m@[j - 1].0@, m@[j - 1].1@));
        if eq_chars(&chars_of(m[j - 1].0.as_str()), k) {
            return Some(chars_of(m[j - 1].1.as_str()));
        }
        j -= 1;
    }
    None
}

/// Translation bundles and the active locale.
#[derive(Debug)]
pub struct I18nHolder {
    pub active: UiLocale,
    pub en: Vec<(String, String)>,
    pub de: Vec<(String, String)>,
}

/// Text for `key`: the active bundle, else English, else the key itself.
pub open spec fn translated(
    active: UiLocale,
    en: Seq<(Seq<char>, Seq<char>)>,
    de: Seq<(Seq<char>, Seq<char>)>,
    key: Seq<char>,
) -> Seq<char> {
    let primary = match active {
        UiLocale::EnUs => en,
        UiLocale::DeDe => de,
    };
    match assoc_get(primary, key) {
        Some(v) => v,
        None => match assoc_get(en, key) {
            Some(v) => v,
            None => key,
        },
    }
}

/// `{name}` for a placeholder name.
pub open spec fn placeholder(name: Seq<char>) -> Seq<char> {
    seq!['{'] + name + seq!['}']
}

/// `s` with each `{k}` of `pairs` replaced by its value, pair by pair in order.
pub open spec fn fill_placeholders(s: Seq<char>, pairs: Seq<(Seq<char>, Seq<char>)>) -> Seq<char>
    decreases pairs.len(),
{
    if pairs.len() == 0 {
        s
    } else {
        replace_all(
            fill_placeholders(s, pairs.drop_last()),
            placeholder(pairs.last().0),
            pairs.last().1,
        )
    }
}

/// Characters of placeholder pairs.
pub open spec fn str_pairs_view(v: Seq<(&str, &str)>) -> Seq<(Seq<char>, Seq<char>)> {
    Seq::new(v.len(), |i: int| (v[i].0@, v[i].1@))
}

impl I18nHolder {
    pub open spec fn en_view(&self) -> Seq<(Seq<char>, Seq<char>)> {
        pairs_view(self.en@)
    }

    pub open spec fn de_view(&self) -> Seq<(Seq<char>, Seq<char>)> {
        pairs_view(self.de@)
    }

    /// Translator with the given bundles.
    pub fn new(active: UiLocale, en: Vec<(String, String)>, de: Vec<(String, String)>) -> (r:
        I18nHolder)
        ensures
            r.active == active,
            r.en == en,
            r.de == de,
    {
        I18nHolder { active, en, de }
    }

    /// Switches the language of later lookups; the bundles stay loaded.
    pub fn set_active_locale(&mut self, locale: UiLocale)
        ensures
            final(self).active == locale,
            final(self).en == old(self).en,
            final(self).de == old(self).de,
    {
        self.active = locale;
    }

    /// The language used for lookups.
    pub fn active_locale(&self) -> (r: UiLocale)
        ensures
            r == self.active,
    {
        self.active
    }

    /// Translated UI copy for a dotted key, or English, or the key itself.
    pub fn translate(&self, key: &str) -> (r: String)
        ensures
            r@ == translated(self.active, self.en_view(), self.de_view(), key@),
    {
        let k = chars_of(key);
        let primary = match self.active {
            UiLocale::EnUs => &self.en,
            UiLocale::DeDe => &self.de,
        };
        match assoc_lookup(primary, &k) {
            Some(v) => string_of(&v),
            None => match assoc_lookup(&self.en, &k) {
                Some(v) => string_of(&v),
                None => string_of(&k),
            },
        }
    }

    /// Translated template with each `{name}` placeholder replaced.
    pub fn translate_fmt(&self, key: &str, pairs: &[(&str, &str)]) -> (r: String)
        ensures
            r@ == fill_placeholders(
                translated(self.active, self.en_view(), self.de_view(), key@),
                str_pairs_view(pairs@),
            ),
    {
        let ghost pv = str_pairs_view(pairs@);
        let t = self.translate(key);
        let mut s = chars_of(t.as_str());
        let mut i: usize = 0;
        assert(pv.take(0) =~= Seq::<(Seq<char>, Seq<char>)>::empty());
        while i < pairs.len()
            invariant
                i <= pairs.len(),
                pv == str_pairs_view(pairs@),
                s@ == fill_placeholders(t@, pv.take(i as int)),
            decreases pairs.len() - i,
        {
            assert(pv.take(i as int + 1).drop_last() =~= pv.take(i as int));
            assert(pv.take(i as int + 1).last() == (pairs@[i as int].0@, pairs@[i as int].1@));
            let (k, v) = pairs[i];
            let mut ph = vec!['{'];
            append_chars(&mut ph, &chars_of(k));
            ph.push('}');
            assert(ph@ =~= placeholder(k@));
            s = replace_all_exec(&s, &ph, &chars_of(v));
            i += 1;
        }
        assert(pv.take(pairs.len() as int) =~= pv);
        string_of(&s)
    }
}

/// Bundle `base` overlaid with `overlay` (overlay entries win).
pub fn merge_bundle(base: Vec<(String, String)>, overlay: Vec<(String, String)>) -> (r: Vec<
    (String, String),
>)
    ensures
        pairs_view(r@) == pairs_view(base@) + pairs_view(overlay@),
{
    let mut r = base;
    let mut o = overlay;
    let ghost b0 = pairs_view(r@);
    let ghost o0 = pairs_view(o@);
    r.append(&mut o);
    assert(pairs_view(r@) =~= b0 + o0);
    r
}

/// A POSIX locale string (`de_DE.UTF-8`) as a BCP-47-ish tag (`de-DE`).
pub open spec fn locale_tag_of(s: Seq<char>) -> Option<Seq<char>> {
    let t = trim(s);
    if t.len() == 0 {
        None
    } else {
        let parts = split_char(replace_all(before_char(t, '.'), seq!['_'], seq!['-']), '-');
        if parts.len() == 2 {
            Some(lowercase(parts[0]) + seq!['-'] + uppercase(parts[1]))
        } else if parts.len() == 3 {
            Some(lowercase(parts[0]) + seq!['-'] + parts[1] + seq!['-'] + uppercase(parts[2]))
        } else if parts.len() == 1 {
            Some(lowercase(parts[0]))
        } else {
            None
        }
    }
}

/// Parses a POSIX-style locale string into a BCP-47-ish tag.
pub fn parse_locale_string(locale_str: &str) -> (r: Option<String>)
    ensures
        match r {
            Some(t) => locale_tag_of(locale_str@) == Some(t@),
            None => locale_tag_of(locale_str@) is None,
        },
{
    let t = trim_vec(&chars_of(locale_str));
    if t.len() == 0 {
        return None;
    }
    let lp = before_char_exec(&t, '.');
    let us = vec!['_'];
    let dash = vec!['-'];
    assert(us@ =~= seq!['_']);
    assert(dash@ =~= seq!['-']);
    let norm = replace_all_exec(&lp, &us, &dash);
    let parts = split_char_exec(&norm, '-');
    proof {
        lemma_deep_chars(&parts[0]);
    }
    let n = parts.len();
    if n == 2 || n == 3 {
        proof {
            lemma_deep_chars(&parts[1]);
        }
        let lang = to_lowercase(string_of(&parts[0]).as_str());
        let mut out = chars_of(lang.as_str());
        out.push('-');
        if n == 3 {
            proof {
                lemma_deep_chars(&parts[2]);
            }
            append_chars(&mut out, &parts[1]);
            out.push('-');
            let up = to_uppercase(string_of(&parts[2]).as_str());
            append_chars(&mut out, &chars_of(up.as_str()));
        } else {
            let up = to_uppercase(string_of(&parts[1]).as_str());
            append_chars(&mut out, &chars_of(up.as_str()));
        }
        Some(string_of(&out))
    } else if n == 1 {
        Some(to_lowercase(string_of(&parts[0]).as_str()))
    } else {
        None
    }
}

/// ASCII lowercase of a string.
pub open spec fn ascii_lower(s: Seq<char>) -> Seq<char> {
    Seq::new(s.len(), |i: int| ascii_lower_char(s[i]))
}

fn ascii_lower_exec(v: &[char]) -> (r: Vec<char>)
    ensures
        r@ == ascii_lower(v@),
{
    let mut out: Vec<char> = Vec::new();
    let mut i: usize = 0;
    while i < v.len()
        invariant
            i <= v.len(),
            out@ == ascii_lower(v@).take(i as int),
        decreases v.len() - i,
    {
        let c = v[i];
        let l = if 'A' <= c && c <= 'Z' {
            ((c as u32) + 32) as u8 as char
        } else {
            c
        };
        assert(l == ascii_lower_char(c)) by {
            if 'A' <= c && c <= 'Z' {
                assert(((c as u32) + 32) as u8 as char == ((c as u32) + 32) as char);
            }
        }
        out.push(l);
        assert(ascii_lower(v@).take(i as int + 1) =~= ascii_lower(v@).take(i as int).push(l));
        i += 1;
    }
    assert(ascii_lower(v@).take(v.len() as int) =~= ascii_lower(v@));
    out
}

/// First usable tag among the `:`-separated candidates of a locale variable:
/// the parsed candidate unless it is `C` or `POSIX`.
pub open spec fn env_candidates_tag(cands: Seq<Seq<char>>) -> Option<Seq<char>>
    decreases cands.len(),
{
    if cands.len() == 0 {
        None
    } else {
        let base = trim(before_char(cands[0], '.'));
        if base.len() > 0 && locale_tag_of(base) is Some && ascii_lower(locale_tag_of(base)->0)
            != seq!['c'] && ascii_lower(locale_tag_of(base)->0) != "posix"@ {
            locale_tag_of(base)
        } else {
            env_candidates_tag(cands.drop_first())
        }
    }
}

/// The locale tag a `LC_ALL` / `LC_MESSAGES` / `LANG` / `LANGUAGE` value names, if any.
pub fn locale_tag_from_env_value(raw: &str) -> (r: Option<String>)
    ensures
        match r {
            Some(t) => env_candidates_tag(split_char(raw@, ':')) == Some(t@),
            None => env_candidates_tag(split_char(raw@, ':')) is None,
        },
{
    let cands = split_char_exec(&chars_of(raw), ':');
    let ghost cv = cands.deep_view();
    let posix = chars_of("posix");
    let mut i: usize = 0;
    assert(cv.skip(0) =~= cv);
    while i < cands.len()
        invariant
            i <= cands.len(),
            cv == cands.deep_view(),
            cv == split_char(raw@, ':'),
            posix@ == "posix"@,
            env_candidates_tag(cv.skip(i as int)) == env_candidates_tag(cv),
        decreases cands.len() - i,
    {
        proof {
            lemma_deep_chars(&cands[i as int]);
        }
        assert(cv.skip(i as int)[0] == cands@[i as int]@);
        assert(cv.skip(i as int).drop_first() =~= cv.skip(i as int + 1));
        let base = trim_vec(&before_char_exec(&cands[i], '.'));
        if base.len() > 0 {
            match parse_locale_string(string_of(&base).as_str()) {
                Some(parsed) => {
                    let lower = ascii_lower_exec(&chars_of(parsed.as_str()));
                    let c_only = vec!['c'];
                    assert(c_only@ =~= seq!['c']);
                    if !eq_chars(&lower, &c_only) && !eq_chars(&lower, &posix) {
                        return Some(parsed);
                    }
                },
                None => {},
            }
        }
        i += 1;
    }
    assert(cv.skip(cands.len() as int) =~= Seq::<Seq<char>>::empty());
    None
}

/// Shape of a locale tag stored in the configuration.
pub open spec fn valid_locale_tag(s: Seq<char>) -> bool {
    &&& 0 < utf8_len(s) <= 20
    &&& all_chars(s, |c: char| is_ascii_alnum(c) || unicode_alphanumeric(c) || c == '-')
    &&& !starts_with(s, seq!['-'])
    &&& !ends_with(s, seq!['-'])
    &&& !contains(s, seq!['-', '-'])
}

/// Whether a configured locale tag is usable: 1 to 20 bytes of alphanumerics
/// and single inner dashes.
pub fn is_valid_locale_tag(locale: &str) -> (r: bool)
    ensures
        r == valid_locale_tag(locale@),
{
    let v = chars_of(locale);
    match utf8_len_capped(&v, 20) {
        None => return false,
        Some(n) => {
            if n == 0 {
                return false;
            }
        },
    }
    let mut i: usize = 0;
    while i < v.len()
        invariant
            i <= v.len(),
            v@ == locale@,
            forall|j: int|
                0 <= j < i ==> (is_ascii_alnum(#[trigger] v@[j]) || unicode_alphanumeric(v@[j])
                    || v@[j] == '-'),
        decreases v.len() - i,
    {
        if !(char_is_ascii_alnum(v[i]) || char_is_alphanumeric(v[i]) || v[i] == '-') {
            return false;
        }
        i += 1;
    }
    let d = vec!['-'];
    let dd = vec!['-', '-'];
    assert(d@ =~= seq!['-']);
    assert(dd@ =~= seq!['-', '-']);
    !starts_with_exec(&v, &d) && !crate::text::ends_with_exec(&v, &d) && !contains_exec(&v, &dd)
}

/// Follows `fallbacks` from `cur` until a tag without a fallback, a repeat
/// (giving `default`) or the end of `fuel` steps (giving `default`).
pub open spec fn walk_chain(
    cur: Seq<char>,
    fb: Seq<(Seq<char>, Seq<char>)>,
    default: Seq<char>,
    visited: Seq<Seq<char>>,
    fuel: nat,
) -> Seq<char>
    decreases fuel,
{
    if fuel == 0 || visited.contains(cur) {
        default
    } else {
        match assoc_get(fb, cur) {
            None => cur,
            Some(next) => walk_chain(next, fb, default, visited.push(cur), (fuel - 1) as nat),
        }
    }
}

/// Applies `fallbacks` from `i18n.yml` until stable, for at most 12 steps;
/// a cycle or the step limit gives `default`.
pub fn walk_fallback_chain(current: String, fallbacks: &Vec<(String, String)>, default: &str) -> (r:
    String)
    ensures
        r@ == walk_chain(current@, pairs_view(fallbacks@), default@, seq![], 12),
{
    let ghost fb = pairs_view(fallbacks@);
    let mut cur = chars_of(current.as_str());
    let mut visited: Vec<Vec<char>> = Vec::new();
    let mut fuel: usize = 12;
    assert(visited.deep_view() =~= Seq::<Seq<char>>::empty());
    while fuel > 0
        invariant
            fuel <= 12,
            fb == pairs_view(fallbacks@),
            walk_chain(cur@, fb, default@, visited.deep_view(), fuel as nat) == walk_chain(
                current@,
                fb,
                default@,
                seq![],
                12,
            ),
        decreases fuel,
    {
        let mut seen = false;
        let mut k: usize = 0;
        while k < visited.len()
            invariant
                k <= visited.len(),
                seen == exists|m: int| 0 <= m < k && (#[trigger] visited@[m])@ == cur@,
            decreases visited.len() - k,
        {
            proof {
                lemma_deep_chars(&visited[k as int]);
            }
            if eq_chars(&visited[k], &cur) {
                seen = true;
            }
            k += 1;
        }
        assert(seen == visited.deep_view().contains(cur@)) by {
            if seen {
                let m = choose|m: int| 0 <= m < visited.len() && (#[trigger] visited@[m])@ == cur@;
                lemma_deep_chars(&visited[m]);
                assert(visited.deep_view()[m] == cur@);
            }
            if visited.deep_view().contains(cur@) {
                let m = choose|m: int| 0 <= m < visited.deep_view().len() && visited.deep_view()[m] == cur@;
                lemma_deep_chars(&visited[m]);
                assert(visited@[m]@ == cur@);
            }
        }
        if seen {
            return string_of(&chars_of(default));
        }
        match assoc_lookup(fallbacks, &cur) {
            None => {
                return string_of(&cur);
            },
            Some(next) => {
                let ghost v0 = visited.deep_view();
                let ghost cv = cur@;
                proof {
                    lemma_deep_chars(&cur);
                }
                visited.push(cur);
                assert(visited.deep_view() =~= v0.push(cv)) by {
                    assert forall|m: int| 0 <= m < v0.len() implies visited.deep_view()[m]
                        == v0[m] by {}
                }
                cur = next;
            },
        }
        fuel -= 1;
    }
    string_of(&chars_of(default))
}

/// UI locale named by a tag: German when it starts with `de` (any ASCII
/// case), English otherwise.
pub open spec fn locale_of_tag(raw: Seq<char>) -> UiLocale {
    if raw.len() >= 2 && ascii_lower_char(raw[0]) == 'd' && ascii_lower_char(raw[1]) == 'e' {
        UiLocale::DeDe
    } else {
        UiLocale::EnUs
    }
}

/// UI locale named by a tag.
pub fn locale_from_tag(raw: &str) -> (r: UiLocale)
    ensures
        r == locale_of_tag(raw@),
{
    let lower = ascii_lower_exec(&chars_of(raw));
    if lower.len() >= 2 && lower[0] == 'd' && lower[1] == 'e' {
        UiLocale::DeDe
    } else {
        UiLocale::EnUs
    }
}

pub open spec fn storage_tag(locale: UiLocale) -> Seq<char> {
    match locale {
        UiLocale::EnUs => "en-US"@,
        UiLocale::DeDe => "de-DE"@,
    }
}

/// Tag written to the configuration for a UI locale.
pub fn locale_storage_tag(locale: UiLocale) -> (r: &'static str)
    ensures
        r@ == storage_tag(locale),
{
    match locale {
        UiLocale::EnUs => "en-US",
        UiLocale::DeDe => "de-DE",
    }
}

/// The environment tag, or `default`.
pub open spec fn env_or_default(env_tag: Option<Seq<char>>, default: Seq<char>) -> Seq<char> {
    match env_tag {
        Some(t) => t,
        None => default,
    }
}

/// Raw locale tag: the configured one when usable (`_` → `-`), else the
/// environment's, else `default`.
pub open spec fn raw_locale(cfg: Option<Seq<char>>, default: Seq<char>, env_tag: Option<Seq<char>>) -> Seq<char> {
    match cfg {
        Some(raw) => if trim(raw).len() > 0 && valid_locale_tag(trim(raw)) {
            replace_all(trim(raw), seq!['_'], seq!['-'])
        } else {
            env_or_default(env_tag, default)
        },
        None => env_or_default(env_tag, default),
    }
}

/// Picks the raw locale tag from the configuration, the environment tag
/// (`env_tag`, as read from `LC_ALL` / `LC_MESSAGES` / `LANG` / `LANGUAGE`)
/// and the default.
pub fn pick_raw_locale_string(config: &Config, default: &str, env_tag: Option<String>) -> (r: String)
    ensures
        r@ == raw_locale(opt_str(config.locale), default@, opt_str(env_tag)),
{
    let fallback = match env_tag {
        Some(t) => t,
        None => string_of(&chars_of(default)),
    };
    match &config.locale {
        Some(raw) => {
            let t = trim_vec(&chars_of(raw.as_str()));
            if t.len() == 0 {
                return fallback;
            }
            if is_valid_locale_tag(string_of(&t).as_str()) {
                let us = vec!['_'];
                let dash = vec!['-'];
                assert(us@ =~= seq!['_']);
                assert(dash@ =~= seq!['-']);
                return string_of(&replace_all_exec(&t, &us, &dash));
            }
            fallback
        },
        None => fallback,
    }
}

/// Resolves the UI locale from the configuration, the `i18n.yml` fallbacks and
/// default locale, and the environment tag.
pub fn resolve_locale(
    config: &Config,
    fallbacks: &Vec<(String, String)>,
    default_locale: Option<String>,
    env_tag: Option<String>,
) -> (r: UiLocale)
    ensures
        ({
            let default = match default_locale {
                Some(d) => d@,
                None => "en-US"@,
            };
            r == locale_of_tag(
                walk_chain(
                    raw_locale(opt_str(config.locale), default, opt_str(env_tag)),
                    pairs_view(fallbacks@),
                    default,
                    seq![],
                    12,
                ),
            )
        }),
{
    let default = match default_locale {
        Some(d) => d,
        None => string_of(&chars_of("en-US")),
    };
    let raw = pick_raw_locale_string(config, default.as_str(), env_tag);
    let chained = walk_fallback_chain(raw, fallbacks, default.as_str());
    locale_from_tag(chained.as_str())
}


/// The tag stored for a UI locale reads back as that locale.
pub proof fn law_storage_tag_round_trip(locale: UiLocale)
    ensures
        locale_of_tag(storage_tag(locale)) == locale,
{
    reveal_strlit("en-US");
    reveal_strlit("de-DE");
}

/// An overlay entry wins over a base entry; keys the overlay lacks keep the
/// base's value: bundles read from disk override the embedded ones.
pub proof fn law_overlay_wins(
    base: Seq<(Seq<char>, Seq<char>)>,
    overlay: Seq<(Seq<char>, Seq<char>)>,
    k: Seq<char>,
)
    ensures
        assoc_get(base + overlay, k) == (match assoc_get(overlay, k) {
            Some(v) => Some(v),
            None => assoc_get(base, k),
        }),
    decreases overlay.len(),
{
    if overlay.len() == 0 {
        assert(base + overlay =~= base);
    } else {
        law_overlay_wins(base, overlay.drop_last(), k);
        assert((base + overlay).drop_last() =~= base + overlay.drop_last());
        assert((base + overlay).last() == overlay.last());
    }
}


/// A configured locale that holds the tag stored for `locale`, with no
/// `i18n.yml` fallback for that tag, resolves back to `locale`, whatever the
/// environment and the default say.
pub proof fn law_stored_tag_resolves(
    locale: UiLocale,
    fb: Seq<(Seq<char>, Seq<char>)>,
    default: Seq<char>,
    env_tag: Option<Seq<char>>,
)
    requires
        assoc_get(fb, storage_tag(locale)) is None,
    ensures
        locale_of_tag(
            walk_chain(raw_locale(Some(storage_tag(locale)), default, env_tag), fb, default, seq![], 12),
        ) == locale,
{
    reveal_strlit("en-US");
    reveal_strlit("de-DE");
    let t = storage_tag(locale);
    assert(t.len() == 5);
    assert(trim_start_len(t) == 0);
    assert(trim_start_len(t.take(5)) == 0);
    assert(t.skip(0) =~= t);
    assert(trim_end_len(t) == 0);
    assert(t.take(5) =~= t);
    assert(trim(t) == t);
    reveal_with_fuel(utf8_len, 6);
    assert(utf8_len(t) == 5) by {
        assert(t.drop_last().drop_last().drop_last().drop_last().drop_last().len() == 0);
    }
    assert(all_chars(t, |c: char| is_ascii_alnum(c) || unicode_alphanumeric(c) || c == '-'));
    assert(!starts_with(t, seq!['-'])) by {
        assert(t.take(1)[0] == t[0]);
    }
    assert(!ends_with(t, seq!['-'])) by {
        assert(t.skip(4)[0] == t[4]);
    }
    assert(!contains(t, seq!['-', '-'])) by {
        assert forall|i: int| !occurs_at(t, seq!['-', '-'], i) by {
            if occurs_at(t, seq!['-', '-'], i) {
                assert(t.subrange(i, i + 2)[0] == t[i]);
                assert(t.subrange(i, i + 2)[1] == t[i + 1]);
            }
        }
    }
    assert(valid_locale_tag(t));
    assert(!contains(t, seq!['_'])) by {
        assert forall|i: int| !occurs_at(t, seq!['_'], i) by {
            if occurs_at(t, seq!['_'], i) {
                assert(t.subrange(i, i + 1)[0] == t[i]);
            }
        }
    }
    lemma_replace_absent(t, seq!['_'], seq!['-']);
    assert(raw_locale(Some(t), default, env_tag) == t);
    assert(!Seq::<Seq<char>>::empty().contains(t));
    assert(walk_chain(t, fb, default, seq![], 12) == t);
    law_storage_tag_round_trip(locale);
}

} // verus!
