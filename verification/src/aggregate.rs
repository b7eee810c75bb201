//! The record aggregator: merges the scrape record with the enrichment
//! field map. Enrichment is best-effort: when it failed or came back empty
//! the scrape record is returned unchanged.

use vstd::prelude::*;
use crate::record::{
    Record, FieldMap, FieldEntries, GroupEntries, rec_upsert, rec_has_group,
};

verus! {

/// The fixed group label under which enrichment data is merged. It is
/// distinct from every scrape group label, so no merge conflict can arise.
pub open spec fn enrichment_group_label() -> Seq<char> {
    "IPINFO.IO DATA"@
}

/// The combined record: the scrape record, plus the enrichment entries as
/// one additional named group when they are present and non-empty.
pub open spec fn spec_aggregate(
    scrape: GroupEntries,
    enrichment: Option<FieldEntries>,
) -> GroupEntries {
    match enrichment {
        Some(m) => if m.len() > 0 {
            rec_upsert(scrape, enrichment_group_label(), m)
        } else {
            scrape
        },
        None => scrape,
    }
}

/// Spec-level image of an optional enrichment map.
pub open spec fn opt_map_view(o: Option<FieldMap>) -> Option<FieldEntries> {
    match o {
        Some(m) => Some(m@),
        None => None,
    }
}

/// Merges the enrichment map into the scrape record. Pure and total: the
/// same two inputs always give the same combined record.
pub fn aggregate(scrape: Record, enrichment: Option<FieldMap>) -> (r: Record)
    requires
        scrape.wf(),
        enrichment matches Some(m) ==> m.wf(),
    ensures
        r.wf(),
        r@ == spec_aggregate(scrape@, opt_map_view(enrichment)),
{
    match enrichment {
        Some(m) => {
            if m.is_empty() {
                scrape
            } else {
                let mut r = scrape;
                r.set_group("IPINFO.IO DATA".to_owned(), m);
                r
            }
        },
        None => scrape,
    }
}

/// Aggregation is idempotent: merging the same enrichment a second time
/// changes nothing, because the enrichment group is replaced in place with
/// the same contents.
pub proof fn lemma_aggregate_idempotent(scrape: GroupEntries, enrichment: Option<FieldEntries>)
    ensures
        spec_aggregate(spec_aggregate(scrape, enrichment), enrichment) == spec_aggregate(
            scrape,
            enrichment,
        ),
{
    if enrichment is Some && enrichment.unwrap().len() > 0 {
        let m = enrichment.unwrap();
        let g = enrichment_group_label();
        let r1 = rec_upsert(scrape, g, m);
        if rec_has_group(scrape, g) {
            let i = choose|i: int| 0 <= i < scrape.len() && scrape[i].0 == g;
            assert(r1[i].0 == g);
        } else {
            assert(r1[scrape.len() as int].0 == g);
        }
        assert(rec_has_group(r1, g));
        assert forall|i: int| 0 <= i < r1.len() implies (if r1[i].0 == g {
            (g, m)
        } else {
            r1[i]
        }) == r1[i] by {
            if r1[i].0 == g {
                if rec_has_group(scrape, g) {
                    if scrape[i].0 == g {
                        assert(r1[i] == (g, m));
                    } else {
                        assert(r1[i] == scrape[i]);
                    }
                } else {
                    if i < scrape.len() {
                        assert(r1[i] == scrape[i]);
                        assert(rec_has_group(scrape, g));
                    } else {
                        assert(r1[i] == (g, m));
                    }
                }
            }
        }
        assert(rec_upsert(r1, g, m) =~~= r1);
    }
}

} // verus!
