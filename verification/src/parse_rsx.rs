//! Parser-facing facts about the markup grammar.
//!
//! The concrete markup parser that turns token streams into node trees is
//! an external collaborator; what this crate owns is the list of element
//! names it must treat as always self-closing.

use vstd::prelude::*;

verus! {

/// The number of always self-closing element names.
pub open spec fn self_closing_count() -> int {
    14
}

/// The element names that are always self-closing, in canonical order.
/// The markup parser is configured with exactly this list.
pub fn self_closing_elements() -> (r: Vec<&'static str>)
    ensures
        r.deep_view() == seq![
            "area"@,
            "base"@,
            "br"@,
            "col"@,
            "embed"@,
            "hr"@,
            "img"@,
            "input"@,
            "link"@,
            "meta"@,
            "param"@,
            "source"@,
            "track"@,
            "wbr"@,
        ],
        r@.len() == self_closing_count(),
{
    let mut r: Vec<&'static str> = Vec::new();
    r.push("area");
    r.push("base");
    r.push("br");
    r.push("col");
    r.push("embed");
    r.push("hr");
    r.push("img");
    r.push("input");
    r.push("link");
    r.push("meta");
    r.push("param");
    r.push("source");
    r.push("track");
    r.push("wbr");
    proof {
        assert(r.deep_view() =~~= seq![
            "area"@,
            "base"@,
            "br"@,
            "col"@,
            "embed"@,
            "hr"@,
            "img"@,
            "input"@,
            "link"@,
            "meta"@,
            "param"@,
            "source"@,
            "track"@,
            "wbr"@,
        ]);
    }
    r
}

} // verus!
