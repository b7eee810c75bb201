//! The external enrichment adapter: the geolocation response, held as plain
//! optional strings, and its mapping onto the fixed field-renaming table.
//! A field absent in the raw response is simply absent from the output map.

use vstd::prelude::*;
use crate::record::{FieldMap, FieldEntries, map_has_key};

verus! {

/// The geolocation lookup response. Only `ip` is always present; every
/// other field is optional. `readme` is carried but never mapped.
pub struct IpInfo {
    pub ip: String,
    pub hostname: Option<String>,
    pub city: Option<String>,
    pub region: Option<String>,
    pub country: Option<String>,
    pub loc: Option<String>,
    pub org: Option<String>,
    pub postal: Option<String>,
    pub timezone: Option<String>,
    pub readme: Option<String>,
}

/// Spec-level image of the response.
pub struct IpInfoView {
    pub ip: Seq<char>,
    pub hostname: Option<Seq<char>>,
    pub city: Option<Seq<char>>,
    pub region: Option<Seq<char>>,
    pub country: Option<Seq<char>>,
    pub loc: Option<Seq<char>>,
    pub org: Option<Seq<char>>,
    pub postal: Option<Seq<char>>,
    pub timezone: Option<Seq<char>>,
}

pub open spec fn opt_str_view(o: Option<String>) -> Option<Seq<char>> {
    match o {
        Some(s) => Some(s@),
        None => None,
    }
}

impl View for IpInfo {
    type V = IpInfoView;

    open spec fn view(&self) -> IpInfoView {
        IpInfoView {
            ip: self.ip@,
            hostname: opt_str_view(self.hostname),
            city: opt_str_view(self.city),
            region: opt_str_view(self.region),
            country: opt_str_view(self.country),
            loc: opt_str_view(self.loc),
            org: opt_str_view(self.org),
            postal: opt_str_view(self.postal),
            timezone: opt_str_view(self.timezone),
        }
    }
}

/// Appends `(label, value)` when the optional value is present.
pub open spec fn with_opt(
    m: FieldEntries,
    label: Seq<char>,
    o: Option<Seq<char>>,
) -> FieldEntries {
    match o {
        Some(t) => m.push((label, t)),
        None => m,
    }
}

/// The fixed renaming table applied to a response: present fields appear
/// under their display labels, in this order; absent fields do not appear.
pub open spec fn spec_enrich_entries(v: IpInfoView) -> FieldEntries {
    with_opt(
        with_opt(
            with_opt(
                with_opt(
                    with_opt(
                        with_opt(
                            with_opt(
                                with_opt(seq![("IP"@, v.ip)], "Hostname"@, v.hostname),
                                "City"@,
                                v.city,
                            ),
                            "Region"@,
                            v.region,
                        ),
                        "Country"@,
                        v.country,
                    ),
                    "Location"@,
                    v.loc,
                ),
                "Organization"@,
                v.org,
            ),
            "Postal Code"@,
            v.postal,
        ),
        "Timezone"@,
        v.timezone,
    )
}

impl IpInfo {
    /// Maps the response onto the enrichment field map.
    pub fn to_field_map(&self) -> (m: FieldMap)
        ensures
            m.wf(),
            m@ == spec_enrich_entries(self@),
    {
        proof {
            reveal_strlit("IP");
            reveal_strlit("Hostname");
            reveal_strlit("City");
            reveal_strlit("Region");
            reveal_strlit("Country");
            reveal_strlit("Location");
            reveal_strlit("Organization");
            reveal_strlit("Postal Code");
            reveal_strlit("Timezone");
        }
        let mut m = FieldMap::new();
        m.insert("IP".to_owned(), self.ip.clone());
        proof {
            assert(!map_has_key(Seq::<(Seq<char>, Seq<char>)>::empty(), "IP"@));
            assert(m@ =~= Seq::<(Seq<char>, Seq<char>)>::empty().push(("IP"@, self@.ip)));
            lemma_upto_push(Seq::<(Seq<char>, Seq<char>)>::empty(), 0, 0, self@.ip);
        }
        match &self.hostname {
            Some(v) => {
                proof {
                    lemma_fresh_label(m@, 1);
                }
                let ghost m0 = m@;
                m.insert("Hostname".to_owned(), v.clone());
                proof {
                    assert(label_at(1) == "Hostname"@);
                    assert(m@ == m0.push(("Hostname"@, v@)));
                    lemma_upto_push(m0, 1, 1, v@);
                }
            },
            None => {
                proof {
                    lemma_upto_weaken(m@, 1, 2);
                }
            },
        }
        match &self.city {
            Some(v) => {
                proof {
                    lemma_fresh_label(m@, 2);
                }
                let ghost m0 = m@;
                m.insert("City".to_owned(), v.clone());
                proof {
                    assert(label_at(2) == "City"@);
                    assert(m@ == m0.push(("City"@, v@)));
                    lemma_upto_push(m0, 2, 2, v@);
                }
            },
            None => {
                proof {
                    lemma_upto_weaken(m@, 2, 3);
                }
            },
        }
        match &self.region {
            Some(v) => {
                proof {
                    lemma_fresh_label(m@, 3);
                }
                let ghost m0 = m@;
                m.insert("Region".to_owned(), v.clone());
                proof {
                    assert(label_at(3) == "Region"@);
                    assert(m@ == m0.push(("Region"@, v@)));
                    lemma_upto_push(m0, 3, 3, v@);
                }
            },
            None => {
                proof {
                    lemma_upto_weaken(m@, 3, 4);
                }
            },
        }
        match &self.country {
            Some(v) => {
                proof {
                    lemma_fresh_label(m@, 4);
                }
                let ghost m0 = m@;
                m.insert("Country".to_owned(), v.clone());
                proof {
                    assert(label_at(4) == "Country"@);
                    assert(m@ == m0.push(("Country"@, v@)));
                    lemma_upto_push(m0, 4, 4, v@);
                }
            },
            None => {
                proof {
                    lemma_upto_weaken(m@, 4, 5);
                }
            },
        }
        match &self.loc {
            Some(v) => {
                proof {
                    lemma_fresh_label(m@, 5);
                }
                let ghost m0 = m@;
                m.insert("Location".to_owned(), v.clone());
                proof {
                    assert(label_at(5) == "Location"@);
                    assert(m@ == m0.push(("Location"@, v@)));
                    lemma_upto_push(m0, 5, 5, v@);
                }
            },
            None => {
                proof {
                    lemma_upto_weaken(m@, 5, 6);
                }
            },
        }
        match &self.org {
            Some(v) => {
                proof {
                    lemma_fresh_label(m@, 6);
                }
                let ghost m0 = m@;
                m.insert("Organization".to_owned(), v.clone());
                proof {
                    assert(label_at(6) == "Organization"@);
                    assert(m@ == m0.push(("Organization"@, v@)));
                    lemma_upto_push(m0, 6, 6, v@);
                }
            },
            None => {
                proof {
                    lemma_upto_weaken(m@, 6, 7);
                }
            },
        }
        match &self.postal {
            Some(v) => {
                proof {
                    lemma_fresh_label(m@, 7);
                }
                let ghost m0 = m@;
                m.insert("Postal Code".to_owned(), v.clone());
                proof {
                    assert(label_at(7) == "Postal Code"@);
                    assert(m@ == m0.push(("Postal Code"@, v@)));
                    lemma_upto_push(m0, 7, 7, v@);
                }
            },
            None => {
                proof {
                    lemma_upto_weaken(m@, 7, 8);
                }
            },
        }
        match &self.timezone {
            Some(v) => {
                proof {
                    lemma_fresh_label(m@, 8);
                }
                let ghost m0 = m@;
                m.insert("Timezone".to_owned(), v.clone());
                proof {
                    assert(label_at(8) == "Timezone"@);
                    assert(m@ == m0.push(("Timezone"@, v@)));
                    lemma_upto_push(m0, 8, 8, v@);
                }
            },
            None => {
                proof {
                    lemma_upto_weaken(m@, 8, 9);
                }
            },
        }
        m
    }
}

/// `l` is one of the fixed labels of the renaming table.
pub open spec fn enrichment_label(l: Seq<char>) -> bool {
    ||| l == "IP"@
    ||| l == "Hostname"@
    ||| l == "City"@
    ||| l == "Region"@
    ||| l == "Country"@
    ||| l == "Location"@
    ||| l == "Organization"@
    ||| l == "Postal Code"@
    ||| l == "Timezone"@
}

/// The adapter introduces no dynamic keys: every label of the enrichment
/// map belongs to the fixed field-name set of the renaming table.
pub proof fn lemma_enrich_labels_fixed(v: IpInfoView)
    ensures
        forall|i: int|
            0 <= i < spec_enrich_entries(v).len() ==> enrichment_label(
                (#[trigger] spec_enrich_entries(v)[i]).0,
            ),
{
    let m0 = seq![("IP"@, v.ip)];
    let m1 = with_opt(m0, "Hostname"@, v.hostname);
    let m2 = with_opt(m1, "City"@, v.city);
    let m3 = with_opt(m2, "Region"@, v.region);
    let m4 = with_opt(m3, "Country"@, v.country);
    let m5 = with_opt(m4, "Location"@, v.loc);
    let m6 = with_opt(m5, "Organization"@, v.org);
    let m7 = with_opt(m6, "Postal Code"@, v.postal);
    let m8 = with_opt(m7, "Timezone"@, v.timezone);
    assert(forall|i: int| 0 <= i < m0.len() ==> enrichment_label((#[trigger] m0[i]).0));
    assert(forall|i: int| 0 <= i < m1.len() ==> enrichment_label((#[trigger] m1[i]).0));
    assert(forall|i: int| 0 <= i < m2.len() ==> enrichment_label((#[trigger] m2[i]).0));
    assert(forall|i: int| 0 <= i < m3.len() ==> enrichment_label((#[trigger] m3[i]).0));
    assert(forall|i: int| 0 <= i < m4.len() ==> enrichment_label((#[trigger] m4[i]).0));
    assert(forall|i: int| 0 <= i < m5.len() ==> enrichment_label((#[trigger] m5[i]).0));
    assert(forall|i: int| 0 <= i < m6.len() ==> enrichment_label((#[trigger] m6[i]).0));
    assert(forall|i: int| 0 <= i < m7.len() ==> enrichment_label((#[trigger] m7[i]).0));
    assert(forall|i: int| 0 <= i < m8.len() ==> enrichment_label((#[trigger] m8[i]).0));
    assert(m8 == spec_enrich_entries(v));
}

/// The renaming-table labels, in output order.
spec fn label_at(j: int) -> Seq<char> {
    if j == 0 {
        "IP"@
    } else if j == 1 {
        "Hostname"@
    } else if j == 2 {
        "City"@
    } else if j == 3 {
        "Region"@
    } else if j == 4 {
        "Country"@
    } else if j == 5 {
        "Location"@
    } else if j == 6 {
        "Organization"@
    } else if j == 7 {
        "Postal Code"@
    } else {
        "Timezone"@
    }
}

/// `l` is one of the first `k` labels of the renaming table.
spec fn early_label(l: Seq<char>, k: int) -> bool {
    exists|j: int| 0 <= j < k && l == #[trigger] label_at(j)
}

/// Every label of `m` is one of the first `k` labels of the renaming table.
spec fn labels_upto(m: FieldEntries, k: int) -> bool {
    forall|i: int| 0 <= i < m.len() ==> early_label(#[trigger] m[i].0, k)
}

/// Two different positions of the renaming table carry different labels.
proof fn lemma_labels_distinct(j: int, k: int)
    requires
        0 <= j < k <= 8,
    ensures
        label_at(j) != label_at(k),
{
    reveal_strlit("IP");
    reveal_strlit("Hostname");
    reveal_strlit("City");
    reveal_strlit("Region");
    reveal_strlit("Country");
    reveal_strlit("Location");
    reveal_strlit("Organization");
    reveal_strlit("Postal Code");
    reveal_strlit("Timezone");
    if label_at(j) == label_at(k) {
        assert(label_at(j).len() == label_at(k).len());
        assert(label_at(j)[0] == label_at(k)[0]);
        assert(false);
    }
}

/// Pushing the `k2`-th label onto a map of earlier labels keeps all labels
/// within the table prefix.
proof fn lemma_upto_push(m: FieldEntries, k1: int, k2: int, v: Seq<char>)
    requires
        labels_upto(m, k1),
        0 <= k1 <= k2,
    ensures
        labels_upto(m.push((label_at(k2), v)), k2 + 1),
{
    let m2 = m.push((label_at(k2), v));
    assert forall|i: int| 0 <= i < m2.len() implies early_label(#[trigger] m2[i].0, k2 + 1) by {
        if i < m.len() {
            assert(early_label(m[i].0, k1));
            let j0 = choose|j: int| 0 <= j < k1 && m[i].0 == #[trigger] label_at(j);
            assert(m2[i] == m[i]);
            assert(0 <= j0 < k2 + 1 && m2[i].0 == label_at(j0));
        } else {
            assert(m2[i].0 == label_at(k2));
            assert(0 <= k2 < k2 + 1 && m2[i].0 == label_at(k2));
        }
    }
}

/// A label prefix bound may always be widened.
proof fn lemma_upto_weaken(m: FieldEntries, k1: int, k2: int)
    requires
        labels_upto(m, k1),
        k1 <= k2,
    ensures
        labels_upto(m, k2),
{
    assert forall|i: int| 0 <= i < m.len() implies early_label(#[trigger] m[i].0, k2) by {
        assert(early_label(m[i].0, k1));
        let j0 = choose|j: int| 0 <= j < k1 && m[i].0 == #[trigger] label_at(j);
        assert(0 <= j0 < k2 && m[i].0 == label_at(j0));
    }
}

/// The `k`-th label is absent from a map holding only earlier ones.
proof fn lemma_fresh_label(m: FieldEntries, k: int)
    requires
        0 <= k <= 8,
        labels_upto(m, k),
    ensures
        !map_has_key(m, label_at(k)),
{
    if map_has_key(m, label_at(k)) {
        let i = choose|i: int| 0 <= i < m.len() && m[i].0 == label_at(k);
        assert(early_label(m[i].0, k));
        let j = choose|j: int| 0 <= j < k && m[i].0 == #[trigger] label_at(j);
        lemma_labels_distinct(j, k);
        assert(false);
    }
}

} // verus!
