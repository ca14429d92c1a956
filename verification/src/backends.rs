//! Trusted declarations for the two outside crates the collectors lean on:
//! the regular-expression engine that selects sensor chips, and the JSON
//! parser that reads the sub-volume accounting output.

use vstd::prelude::*;

verus! {

#[verifier::external_type_specification]
#[verifier::external_body]
pub struct ExRegex(regex::Regex);

/// Whether the regular-expression engine accepts a pattern.
pub uninterp spec fn regex_valid(pattern: Seq<char>) -> bool;

/// Whether a pattern matches somewhere in a text; a pure function of
/// pattern and text.
pub uninterp spec fn regex_match(pattern: Seq<char>, text: Seq<char>) -> bool;

/// A compiled pattern, remembering the pattern text it was built from.
pub struct CompiledRegex {
    re: regex::Regex,
    pattern: String,
}

impl CompiledRegex {
    /// The pattern this matcher was compiled from.
    pub closed spec fn pattern(&self) -> Seq<char> {
        self.pattern@
    }

    /// Relies on regex::Regex::new: it accepts or rejects a pattern
    /// deterministically, by the pattern text alone.
    #[verifier::external_body]
    pub fn compile(pattern: &str) -> (r: Option<CompiledRegex>)
        ensures
            r is Some <==> regex_valid(pattern@),
            r is Some ==> r->Some_0.pattern() == pattern@,
    {
        match regex::Regex::new(pattern) {
            Ok(re) => Some(CompiledRegex { re, pattern: pattern.to_owned() }),
            Err(_) => None,
        }
    }

    /// Relies on regex::Regex::is_match: whether a match exists depends on
    /// the compiled pattern and the haystack alone.
    #[verifier::external_body]
    pub fn is_match(&self, text: &str) -> (r: bool)
        ensures
            r == regex_match(self.pattern(), text@),
    {
        self.re.is_match(text)
    }
}

/// The views of raw accounting entries.
pub open spec fn opt_entry_views(es: Seq<(Option<String>, Option<u64>)>) -> Seq<
    (Option<Seq<char>>, Option<u64>),
> {
    es.map_values(
        |e: (Option<String>, Option<u64>)|
            (
                match e.0 {
                    Some(p) => Some(p@),
                    None => None,
                },
                e.1,
            ),
    )
}

/// What the JSON parser finds in a sub-volume accounting document: one
/// entry per element of its "qgroup-show" array, in order, each carrying
/// the element's "path" string and "referenced" count where present; empty
/// when the document is malformed or has no such array. A pure function of
/// the document text.
pub uninterp spec fn qgroup_entries_of(text: Seq<char>) -> Seq<(Option<Seq<char>>, Option<u64>)>;

/// Relies on serde_json::from_str and the Value accessors get, as_array,
/// as_str and as_u64: parsing a document and reading its members are
/// deterministic in the document text alone. The body only parses and
/// moves each entry's two fields out as plain values; which entries are
/// kept is decided by verified code.
#[verifier::external_body]
pub(crate) fn qgroup_raw_entries(text: &str) -> (r: Vec<(Option<String>, Option<u64>)>)
    ensures
        opt_entry_views(r@) == qgroup_entries_of(text@),
{
    let mut out: Vec<(Option<String>, Option<u64>)> = Vec::new();
    if let Ok(v) = serde_json::from_str::<serde_json::Value>(text) {
        if let Some(arr) = v.get("qgroup-show").and_then(|q| q.as_array()) {
            for e in arr {
                out.push((
                    e.get("path").and_then(|p| p.as_str()).map(|s| s.to_owned()),
                    e.get("referenced").and_then(|r| r.as_u64()),
                ));
            }
        }
    }
    out
}

} // verus!
