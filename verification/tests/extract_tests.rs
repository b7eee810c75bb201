use repscout::extract::extract;
use repscout::locator::{locator_table, LocatorKind};
use repscout::record::Record;

fn no_outcomes(n: usize) -> Vec<Option<String>> {
    let mut v: Vec<Option<String>> = Vec::new();
    for _ in 0..n {
        v.push(None);
    }
    v
}

#[test]
fn table_is_the_fixed_catalogue() {
    let t = locator_table();
    assert_eq!(t.len(), 17);
    assert_eq!(t[0].group.as_str(), "LOCATION DATA");
    assert_eq!(t[0].field.as_str(), "Location");
    assert!(matches!(t[0].kind, LocatorKind::FlagCell));
    for e in t.iter().skip(1) {
        assert!(matches!(e.kind, LocatorKind::LabelSibling));
    }
    // The PBL and SBL entries deliberately share one locator pattern.
    assert_eq!(t[14].field.as_str(), "PBL.SPAMHAUS.ORG");
    assert_eq!(t[15].field.as_str(), "SBL.SPAMHAUS.ORG");
    assert_eq!(t[14].locator, t[15].locator);
    let groups: Vec<&str> = t.iter().map(|e| e.group.as_str()).collect();
    assert!(groups.contains(&"OWNER DETAILS"));
    assert!(groups.contains(&"REPUTATION DETAILS"));
    assert!(groups.contains(&"EMAIL VOLUME DATA"));
    assert!(groups.contains(&"BLOCK LISTS"));
}

#[test]
fn nothing_resolved_gives_empty_record() {
    let t = locator_table();
    let outcomes = no_outcomes(t.len());
    let r: Record = extract(&t, &outcomes);
    assert!(r.is_empty());
    assert_eq!(r.len(), 0);
    assert!(r.get_group("OWNER DETAILS").is_none());
    assert!(r.get_group("LOCATION DATA").is_none());
}

#[test]
fn single_field_makes_single_group() {
    let t = locator_table();
    let mut outcomes = no_outcomes(t.len());
    // HOSTNAME under OWNER DETAILS sits at table position 3.
    assert_eq!(t[3].group.as_str(), "OWNER DETAILS");
    assert_eq!(t[3].field.as_str(), "HOSTNAME");
    outcomes[3] = Some("dns.google".to_string());
    let r = extract(&t, &outcomes);
    assert_eq!(r.len(), 1);
    let owner = r.get_group("OWNER DETAILS").expect("group present");
    assert_eq!(owner.len(), 1);
    assert_eq!(owner.get("HOSTNAME").map(|s| s.as_str()), Some("dns.google"));
    assert!(owner.get("DOMAIN").is_none());
    assert!(r.get_group("BLOCK LISTS").is_none());
}

#[test]
fn groups_appear_in_first_population_order() {
    let t = locator_table();
    let mut outcomes = no_outcomes(t.len());
    outcomes[0] = Some("United States".to_string());
    outcomes[3] = Some("dns.google".to_string());
    outcomes[6] = Some("Good".to_string());
    let r = extract(&t, &outcomes);
    assert_eq!(r.len(), 3);
    assert_eq!(r.group_at(0).0.as_str(), "LOCATION DATA");
    assert_eq!(r.group_at(1).0.as_str(), "OWNER DETAILS");
    assert_eq!(r.group_at(2).0.as_str(), "REPUTATION DETAILS");
}

#[test]
fn fields_collect_under_their_group() {
    let t = locator_table();
    let mut outcomes = no_outcomes(t.len());
    outcomes[1] = Some("8.8.8.8".to_string());
    outcomes[3] = Some("dns.google".to_string());
    outcomes[5] = Some("Google LLC".to_string());
    let r = extract(&t, &outcomes);
    assert_eq!(r.len(), 1);
    let owner = r.get_group("OWNER DETAILS").expect("group present");
    assert_eq!(owner.len(), 3);
    assert_eq!(owner.get("IP ADDRESS").map(|s| s.as_str()), Some("8.8.8.8"));
    assert_eq!(owner.get("HOSTNAME").map(|s| s.as_str()), Some("dns.google"));
    assert_eq!(owner.get("NETWORK OWNER").map(|s| s.as_str()), Some("Google LLC"));
    assert_eq!(owner.entry_at(0).0.as_str(), "IP ADDRESS");
    assert_eq!(owner.entry_at(1).0.as_str(), "HOSTNAME");
    assert_eq!(owner.entry_at(2).0.as_str(), "NETWORK OWNER");
}
