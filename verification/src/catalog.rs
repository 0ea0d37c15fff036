use vstd::prelude::*;
use crate::text::{same_text, starts_with_text};

verus! {

/// A catalog entry of this disposition is left out of a star field: split
/// sources ("SPLIT") and duplicates (a disposition that starts with
/// "DUPLICATE").
pub open spec fn is_rejected_disposition(d: Seq<char>) -> bool {
    d == "SPLIT"@ || "DUPLICATE"@.is_prefix_of(d)
}

/// Whether an entry with this disposition, if it has one, is left out of a
/// star field built from a catalog query.  An entry without a disposition is
/// kept.
pub fn rejects_disposition(disposition: Option<&str>) -> (r: bool)
    ensures
        r == match disposition {
            Some(d) => is_rejected_disposition(d@),
            None => false,
        },
{
    match disposition {
        Some(d) => same_text(d, "SPLIT") || starts_with_text(d, "DUPLICATE"),
        None => false,
    }
}

/// Only split sources and duplicates are left out: any other disposition,
/// such as "ARTIFACT", keeps the entry.
pub proof fn lemma_only_split_and_duplicates_rejected(d: Seq<char>)
    ensures
        is_rejected_disposition(d) ==> (d == "SPLIT"@ || "DUPLICATE"@.is_prefix_of(d)),
        (d == "SPLIT"@ || "DUPLICATE"@.is_prefix_of(d)) ==> is_rejected_disposition(d),
        d == "ARTIFACT"@ ==> !is_rejected_disposition(d),
{
    reveal_strlit("ARTIFACT");
    reveal_strlit("SPLIT");
    reveal_strlit("DUPLICATE");
    if d == "ARTIFACT"@ {
        assert(d[0] != "DUPLICATE"@[0]);
    }
}

} // verus!
