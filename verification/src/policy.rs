//! The rule predicates of the decision policy, the decision type, and the
//! fixed reason texts.

use crate::text::{
    contains_seq, contains_substring, lower_of, lowercase, str_eq, trim_spec, trim_str, upper_of,
    uppercase,
};
use vstd::prelude::*;
use vstd::string::StringExecFns;

verus! {

/// Engine decision, ordered by severity: deny over warning over allow.
/// The order is only used to pick which rule fires first.
#[derive(Clone, Copy, Debug, PartialEq, Eq, Structural)]
pub enum Decision {
    Allow,
    Deny,
    Warning,
}

impl Decision {
    /// The fixed display form of the decision.
    pub open spec fn text_spec(self) -> Seq<char> {
        match self {
            Decision::Allow => "ALLOW"@,
            Decision::Deny => "DENY"@,
            Decision::Warning => "WARNING"@,
        }
    }

    /// Render the decision in its fixed display form.
    pub fn as_text(&self) -> (r: String)
        ensures
            r@ == self.text_spec(),
    {
        match self {
            Decision::Allow => String::from_str("ALLOW"),
            Decision::Deny => String::from_str("DENY"),
            Decision::Warning => String::from_str("WARNING"),
        }
    }
}

/// True when the article reference names a prohibited practice: it
/// contains `Article 5(1)`, case-sensitively.
pub open spec fn spec_is_article_5(article_ref: Seq<char>) -> bool {
    contains_seq(article_ref, "Article 5(1)"@)
}

/// True when the lowercased article reference names a high-risk system:
/// it contains `article 6` or `annex iii`.
pub open spec fn spec_is_high_risk(article_ref: Seq<char>) -> bool {
    contains_seq(lower_of(article_ref), "article 6"@) || contains_seq(
        lower_of(article_ref),
        "annex iii"@,
    )
}

/// Returns true if `article_ref` names a prohibited practice
/// (Article 5(1)(a)-(h)).
pub fn is_article_5(article_ref: &str) -> (r: bool)
    ensures
        r == spec_is_article_5(article_ref@),
{
    contains_substring(article_ref, "Article 5(1)")
}

/// Returns true if `article_ref` names a high-risk system (Article 6 or
/// Annex III), in any letter case.
pub fn is_high_risk(article_ref: &str) -> (r: bool)
    ensures
        r == spec_is_high_risk(article_ref@),
{
    let low = lowercase(article_ref);
    contains_substring(low.as_str(), "article 6") || contains_substring(low.as_str(), "annex iii")
}

/// What [`parse_decision`] returns: the uppercased, trimmed text read as
/// a decision, with anything unrecognized read as a warning.
pub open spec fn spec_parse_decision(s: Seq<char>) -> Decision {
    let t = trim_spec(upper_of(s));
    if t == "ALLOW"@ {
        Decision::Allow
    } else if t == "DENY"@ {
        Decision::Deny
    } else {
        Decision::Warning
    }
}

/// Read a decision from free-form text, ignoring letter case and
/// surrounding white space; unrecognized text reads as a warning.
pub fn parse_decision(s: &str) -> (r: Decision)
    ensures
        r == spec_parse_decision(s@),
{
    let upper = uppercase(s);
    let t = trim_str(upper.as_str());
    if str_eq(t, "ALLOW") {
        Decision::Allow
    } else if str_eq(t, "DENY") {
        Decision::Deny
    } else {
        Decision::Warning
    }
}

/// The reason reported when no search results were available.
pub open spec fn no_articles_reason() -> Seq<char> {
    "Unable to retrieve relevant EU AI Act articles. Manual review recommended."@
}

/// The reason reported with a deny decision.
pub open spec fn deny_reason(article_ref: Seq<char>) -> Seq<char> {
    "Prohibited practice under "@ + article_ref + " of the EU AI Act. Request denied."@
}

/// The reason reported with a high-risk warning decision.
pub open spec fn high_risk_reason(article_ref: Seq<char>) -> Seq<char> {
    "High-risk AI system under "@ + article_ref + ". Compliance measures required."@
}

/// The reason reported with an allow decision.
pub open spec fn allow_reason(article_ref: Seq<char>) -> Seq<char> {
    "No prohibited or high-risk provisions identified. Reference: "@ + article_ref + "."@
}

/// Build the no-results reason text.
pub(crate) fn build_no_articles_reason() -> (r: String)
    ensures
        r@ == no_articles_reason(),
{
    String::from_str("Unable to retrieve relevant EU AI Act articles. Manual review recommended.")
}

/// Build the deny reason text around the matched reference.
pub(crate) fn build_deny_reason(article_ref: &str) -> (r: String)
    ensures
        r@ == deny_reason(article_ref@),
{
    let mut r = String::from_str("Prohibited practice under ");
    r.append(article_ref);
    r.append(" of the EU AI Act. Request denied.");
    r
}

/// Build the high-risk warning reason text around the matched reference.
pub(crate) fn build_high_risk_reason(article_ref: &str) -> (r: String)
    ensures
        r@ == high_risk_reason(article_ref@),
{
    let mut r = String::from_str("High-risk AI system under ");
    r.append(article_ref);
    r.append(". Compliance measures required.");
    r
}

/// Build the allow reason text around the top-ranked reference.
pub(crate) fn build_allow_reason(article_ref: &str) -> (r: String)
    ensures
        r@ == allow_reason(article_ref@),
{
    let mut r = String::from_str("No prohibited or high-risk provisions identified. Reference: ");
    r.append(article_ref);
    r.append(".");
    r
}

} // verus!
