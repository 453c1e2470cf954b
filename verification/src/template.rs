//! Metric-widget template rendering: textual, unconditional
//! substitution of a fixed set of placeholders. Unmatched placeholders
//! are left verbatim; values are opaque strings that this layer does
//! not interpret.

use vstd::prelude::*;

use crate::text::lemma_replace_all_absent;
use crate::text::replace_all;
use crate::text::spec_contains;
use crate::text::spec_replace_all;

verus! {

/// The rendered text: the five placeholders substituted one after the
/// other, each replacing every occurrence of its key.
pub open spec fn spec_render(
    t: Seq<char>,
    namespace: Seq<char>,
    region: Seq<char>,
    start: Seq<char>,
    end: Seq<char>,
    period: Seq<char>,
) -> Seq<char> {
    spec_replace_all(
        spec_replace_all(
            spec_replace_all(
                spec_replace_all(
                    spec_replace_all(t, "{{NAMESPACE}}"@, namespace),
                    "{{REGION}}"@,
                    region,
                ),
                "{{PERIOD_START}}"@,
                start,
            ),
            "{{PERIOD_END}}"@,
            end,
        ),
        "{{PERIOD}}"@,
        period,
    )
}

/// Substitutes the five fixed placeholders in the template text with
/// the per-account and per-run values. Substitution is purely textual:
/// no escaping, and text without placeholders passes through verbatim.
pub fn render_template(
    contents: &str,
    namespace: &str,
    region: &str,
    start: &str,
    end: &str,
    period: &str,
) -> (r: String)
    ensures
        r@ == spec_render(contents@, namespace@, region@, start@, end@, period@),
{
    proof {
        reveal_strlit("{{NAMESPACE}}");
        reveal_strlit("{{REGION}}");
        reveal_strlit("{{PERIOD_START}}");
        reveal_strlit("{{PERIOD_END}}");
        reveal_strlit("{{PERIOD}}");
    }
    let step1 = replace_all(contents, "{{NAMESPACE}}", namespace);
    let step2 = replace_all(step1.as_str(), "{{REGION}}", region);
    let step3 = replace_all(step2.as_str(), "{{PERIOD_START}}", start);
    let step4 = replace_all(step3.as_str(), "{{PERIOD_END}}", end);
    replace_all(step4.as_str(), "{{PERIOD}}", period)
}

/// Rendering a template that contains none of the five placeholder
/// keys returns the template unchanged.
pub proof fn lemma_render_without_placeholders(
    t: Seq<char>,
    namespace: Seq<char>,
    region: Seq<char>,
    start: Seq<char>,
    end: Seq<char>,
    period: Seq<char>,
)
    requires
        !spec_contains(t, "{{NAMESPACE}}"@),
        !spec_contains(t, "{{REGION}}"@),
        !spec_contains(t, "{{PERIOD_START}}"@),
        !spec_contains(t, "{{PERIOD_END}}"@),
        !spec_contains(t, "{{PERIOD}}"@),
    ensures
        spec_render(t, namespace, region, start, end, period) == t,
{
    reveal_strlit("{{NAMESPACE}}");
    reveal_strlit("{{REGION}}");
    reveal_strlit("{{PERIOD_START}}");
    reveal_strlit("{{PERIOD_END}}");
    reveal_strlit("{{PERIOD}}");
    lemma_replace_all_absent(t, "{{NAMESPACE}}"@, namespace);
    lemma_replace_all_absent(t, "{{REGION}}"@, region);
    lemma_replace_all_absent(t, "{{PERIOD_START}}"@, start);
    lemma_replace_all_absent(t, "{{PERIOD_END}}"@, end);
    lemma_replace_all_absent(t, "{{PERIOD}}"@, period);
}

} // verus!
