//! The section extractor: folds per-locator text outcomes into a nested
//! record. A field that did not resolve is a normal absence, never a fault:
//! it is simply skipped, and a group none of whose fields resolved is
//! omitted entirely.

use vstd::prelude::*;
use crate::record::{Record, GroupEntries, FieldEntries, rec_insert_field};
use crate::locator::{FieldLocator, LocatorView, table_view};

verus! {

/// View of per-entry extraction outcomes: the text read for the entry, or
/// nothing when the element did not resolve.
pub open spec fn outcomes_view(o: Seq<Option<String>>) -> Seq<Option<Seq<char>>> {
    o.map_values(
        |x: Option<String>| match x {
            Some(s) => Some(s@),
            None => None,
        },
    )
}

/// The record built from the first `n` locator entries and their outcomes.
pub open spec fn extract_prefix(
    table: Seq<LocatorView>,
    outcomes: Seq<Option<Seq<char>>>,
    n: int,
) -> GroupEntries
    decreases n,
{
    if n <= 0 {
        Seq::empty()
    } else {
        let prev = extract_prefix(table, outcomes, n - 1);
        match outcomes[n - 1] {
            Some(v) => rec_insert_field(prev, table[n - 1].group, table[n - 1].field, v),
            None => prev,
        }
    }
}

/// The record built from a whole locator table and its outcomes.
pub open spec fn spec_extract(
    table: Seq<LocatorView>,
    outcomes: Seq<Option<Seq<char>>>,
) -> GroupEntries {
    extract_prefix(table, outcomes, table.len() as int)
}

/// Builds the record for one page from the locator table and the text
/// outcome of each entry, in table order.
pub fn extract(table: &Vec<FieldLocator>, outcomes: &Vec<Option<String>>) -> (r: Record)
    requires
        outcomes@.len() == table@.len(),
    ensures
        r.wf(),
        r@ == spec_extract(table_view(table@), outcomes_view(outcomes@)),
{
    let n = table.len();
    let mut r = Record::new();
    let mut i: usize = 0;
    while i < n
        invariant
            i <= n,
            n == table@.len(),
            outcomes@.len() == table@.len(),
            r.wf(),
            r@ == extract_prefix(table_view(table@), outcomes_view(outcomes@), i as int),
        decreases n - i,
    {
        match &outcomes[i] {
            Some(text) => {
                let l = &table[i];
                r.insert_field(l.group.as_str(), l.field.as_str(), text.clone());
                proof {
                    assert(table_view(table@)[i as int] == table@[i as int]@);
                    assert(outcomes_view(outcomes@)[i as int] == Some(text@));
                }
            },
            None => {
                proof {
                    assert(outcomes_view(outcomes@)[i as int] is None);
                }
            },
        }
        i += 1;
    }
    r
}

/// A table where no field at all resolves yields the empty record: absence
/// never creates a group.
pub proof fn lemma_extract_nothing(table: Seq<LocatorView>, outcomes: Seq<Option<Seq<char>>>)
    requires
        outcomes.len() == table.len(),
        forall|i: int| 0 <= i < outcomes.len() ==> outcomes[i] is None,
    ensures
        spec_extract(table, outcomes) == Seq::<(Seq<char>, FieldEntries)>::empty(),
{
    lemma_extract_prefix_nothing(table, outcomes, table.len() as int);
}

/// The pair `(g, f)` is one of the table's (group, field) label pairs.
pub open spec fn labels_from_table(table: Seq<LocatorView>, g: Seq<char>, f: Seq<char>) -> bool {
    exists|i: int| 0 <= i < table.len() && table[i].group == g && #[trigger] table[i].field == f
}

/// Extraction introduces no dynamic keys: every group label of the record,
/// and every field label under it, is a literal pair of the locator table.
pub proof fn lemma_extract_labels_from_table(
    table: Seq<LocatorView>,
    outcomes: Seq<Option<Seq<char>>>,
)
    requires
        outcomes.len() == table.len(),
    ensures
        forall|a: int, b: int|
            #![trigger spec_extract(table, outcomes)[a].1[b]]
            0 <= a < spec_extract(table, outcomes).len() && 0 <= b < spec_extract(
                table,
                outcomes,
            )[a].1.len() ==> labels_from_table(
                table,
                spec_extract(table, outcomes)[a].0,
                spec_extract(table, outcomes)[a].1[b].0,
            ),
{
    lemma_extract_prefix_labels(table, outcomes, table.len() as int);
}

proof fn lemma_extract_prefix_labels(
    table: Seq<LocatorView>,
    outcomes: Seq<Option<Seq<char>>>,
    n: int,
)
    requires
        n <= table.len(),
        outcomes.len() == table.len(),
    ensures
        forall|a: int, b: int|
            #![trigger extract_prefix(table, outcomes, n)[a].1[b]]
            0 <= a < extract_prefix(table, outcomes, n).len() && 0 <= b < extract_prefix(
                table,
                outcomes,
            n)[a].1.len() ==> labels_from_table(
                table,
                extract_prefix(table, outcomes, n)[a].0,
                extract_prefix(table, outcomes, n)[a].1[b].0,
            ),
    decreases n,
{
    if n > 0 {
        lemma_extract_prefix_labels(table, outcomes, n - 1);
        let prev = extract_prefix(table, outcomes, n - 1);
        let cur = extract_prefix(table, outcomes, n);
        if outcomes[n - 1] is Some {
            let g = table[n - 1].group;
            let f = table[n - 1].field;
            let v = outcomes[n - 1].unwrap();
            assert(table[n - 1].field == f);
            assert(labels_from_table(table, g, f));
            assert forall|a: int, b: int|
                #![trigger cur[a].1[b]]
                0 <= a < cur.len() && 0 <= b < cur[a].1.len() implies labels_from_table(
                table,
                cur[a].0,
                cur[a].1[b].0,
            ) by {
                if crate::record::rec_has_group(prev, g) {
                    assert(cur[a] == (if prev[a].0 == g {
                        (g, crate::record::map_upsert(prev[a].1, f, v))
                    } else {
                        prev[a]
                    }));
                    if prev[a].0 == g {
                        let m = prev[a].1;
                        if crate::record::map_has_key(m, f) {
                            assert(cur[a].1[b] == (if m[b].0 == f {
                                (f, v)
                            } else {
                                m[b]
                            }));
                            if m[b].0 != f {
                                assert(prev[a].1[b] == m[b]);
                                assert(labels_from_table(table, prev[a].0, prev[a].1[b].0));
                            }
                        } else {
                            if b < m.len() {
                                assert(labels_from_table(table, prev[a].0, prev[a].1[b].0));
                            } else {
                                assert(cur[a].1[b] == (f, v));
                            }
                        }
                    } else {
                        assert(labels_from_table(table, prev[a].0, prev[a].1[b].0));
                    }
                } else {
                    if a < prev.len() {
                        assert(cur[a] == prev[a]);
                        assert(labels_from_table(table, prev[a].0, prev[a].1[b].0));
                    } else {
                        assert(cur[a] == (g, seq![(f, v)]));
                        assert(cur[a].1[b] == (f, v));
                    }
                }
            }
        }
    }
}

proof fn lemma_extract_prefix_nothing(
    table: Seq<LocatorView>,
    outcomes: Seq<Option<Seq<char>>>,
    n: int,
)
    requires
        n <= outcomes.len(),
        forall|i: int| 0 <= i < outcomes.len() ==> outcomes[i] is None,
    ensures
        extract_prefix(table, outcomes, n) == Seq::<(Seq<char>, FieldEntries)>::empty(),
    decreases n,
{
    if n > 0 {
        lemma_extract_prefix_nothing(table, outcomes, n - 1);
    }
}

} // verus!
