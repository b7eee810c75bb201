use repscout::aggregate::aggregate;
use repscout::extract::extract;
use repscout::locator::locator_table;
use repscout::pipeline::{aborts_query, finish_query, PipelineError};
use repscout::record::{FieldMap, Record};

fn scrape_with_hostname() -> Record {
    let t = locator_table();
    let mut outcomes: Vec<Option<String>> = Vec::new();
    for _ in 0..t.len() {
        outcomes.push(None);
    }
    outcomes[3] = Some("dns.google".to_string());
    extract(&t, &outcomes)
}

fn org_only_map() -> FieldMap {
    let mut m = FieldMap::new();
    m.insert("Organization".to_string(), "Google LLC".to_string());
    m
}

#[test]
fn merges_enrichment_as_extra_group() {
    let r = aggregate(scrape_with_hostname(), Some(org_only_map()));
    assert_eq!(r.len(), 2);
    let owner = r.get_group("OWNER DETAILS").expect("scrape group kept");
    assert_eq!(owner.get("HOSTNAME").map(|s| s.as_str()), Some("dns.google"));
    let enrich = r.get_group("IPINFO.IO DATA").expect("enrichment group added");
    assert_eq!(enrich.len(), 1);
    assert_eq!(enrich.get("Organization").map(|s| s.as_str()), Some("Google LLC"));
}

#[test]
fn empty_enrichment_changes_nothing() {
    let r = aggregate(scrape_with_hostname(), Some(FieldMap::new()));
    assert_eq!(r.len(), 1);
    assert!(r.get_group("IPINFO.IO DATA").is_none());
}

#[test]
fn missing_enrichment_changes_nothing() {
    let r = aggregate(scrape_with_hostname(), None);
    assert_eq!(r.len(), 1);
    assert!(r.get_group("IPINFO.IO DATA").is_none());
}

#[test]
fn reapplying_same_enrichment_is_idempotent() {
    let once = aggregate(scrape_with_hostname(), Some(org_only_map()));
    let twice = aggregate(
        aggregate(scrape_with_hostname(), Some(org_only_map())),
        Some(org_only_map()),
    );
    assert_eq!(once.len(), twice.len());
    for i in 0..once.len() {
        let (g1, m1) = once.group_at(i);
        let (g2, m2) = twice.group_at(i);
        assert_eq!(g1, g2);
        assert_eq!(m1.len(), m2.len());
        for j in 0..m1.len() {
            let (k1, v1) = m1.entry_at(j);
            let (k2, v2) = m2.entry_at(j);
            assert_eq!(k1, k2);
            assert_eq!(v1, v2);
        }
    }
    // In particular the enrichment group is not duplicated.
    assert_eq!(twice.len(), 2);
}

#[test]
fn end_to_end_scrape_and_enrichment() {
    // Identifier "8.8.8.8": the page exposes only a hostname, the
    // geolocation service returns only an organization.
    let scraped = scrape_with_hostname();
    assert_eq!(scraped.len(), 1);
    let r = finish_query(scraped, Ok(org_only_map()));
    assert_eq!(r.len(), 2);
    assert_eq!(r.group_at(0).0.as_str(), "OWNER DETAILS");
    assert_eq!(r.group_at(1).0.as_str(), "IPINFO.IO DATA");
    assert_eq!(
        r.get_group("IPINFO.IO DATA").unwrap().get("Organization").map(|s| s.as_str()),
        Some("Google LLC")
    );
}

#[test]
fn enrichment_fault_degrades_gracefully() {
    // Every locator failed to resolve and the enrichment call timed out:
    // the record is empty, and the fault is not fatal for the batch.
    let t = locator_table();
    let mut outcomes: Vec<Option<String>> = Vec::new();
    for _ in 0..t.len() {
        outcomes.push(None);
    }
    let scraped = extract(&t, &outcomes);
    let r = finish_query(scraped, Err(PipelineError::EnrichmentFault));
    assert!(r.is_empty());
    assert!(!aborts_query(PipelineError::EnrichmentFault));
    assert!(!aborts_query(PipelineError::InvalidIdentifier));
    assert!(!aborts_query(PipelineError::PersistenceFault));
    assert!(aborts_query(PipelineError::SessionFault));
}
