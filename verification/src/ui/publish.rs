//! Publish page: the description of the default commit message.
use vstd::prelude::*;

use crate::config::FALLBACK_COMMIT_TEMPLATE;
use crate::i18n::{fill_placeholders, str_pairs_view, I18nHolder};
use crate::text::opt_str;
use crate::ui::home::tr;

verus! {

/// Description of the default commit message: the saved template, or the
/// built-in one.
pub open spec fn default_desc_text(h: I18nHolder, template: Option<Seq<char>>) -> Seq<char> {
    match template {
        Some(t) => fill_placeholders(tr(h, "publish.default_desc_saved"@), seq![("template"@, t)]),
        None => fill_placeholders(
            tr(h, "publish.default_desc_builtin"@),
            seq![("template"@, FALLBACK_COMMIT_TEMPLATE@)],
        ),
    }
}

/// Description of the default commit message (see [`default_desc_text`]).
pub fn describe_default(h: &I18nHolder, template: &Option<String>) -> (r: String)
    ensures
        r@ == default_desc_text(*h, opt_str(*template)),
{
    match template {
        Some(t) => {
            let pairs = [("template", t.as_str())];
            let r = h.translate_fmt("publish.default_desc_saved", &pairs);
            assert(str_pairs_view(pairs@) =~= seq![("template"@, t@)]);
            r
        },
        None => {
            let pairs = [("template", FALLBACK_COMMIT_TEMPLATE)];
            let r = h.translate_fmt("publish.default_desc_builtin", &pairs);
            assert(str_pairs_view(pairs@) =~= seq![("template"@, FALLBACK_COMMIT_TEMPLATE@)]);
            r
        },
    }
}

} // verus!
