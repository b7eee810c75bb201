use repscout::enrich::IpInfo;

fn full_info() -> IpInfo {
    IpInfo {
        ip: "8.8.8.8".to_string(),
        hostname: Some("dns.google".to_string()),
        city: Some("Mountain View".to_string()),
        region: Some("California".to_string()),
        country: Some("US".to_string()),
        loc: Some("37.4056,-122.0775".to_string()),
        org: Some("AS15169 Google LLC".to_string()),
        postal: Some("94043".to_string()),
        timezone: Some("America/Los_Angeles".to_string()),
        readme: Some("https://ipinfo.io/missingauth".to_string()),
    }
}

#[test]
fn renames_every_present_field() {
    let m = full_info().to_field_map();
    assert_eq!(m.len(), 9);
    assert_eq!(m.get("IP").map(|s| s.as_str()), Some("8.8.8.8"));
    assert_eq!(m.get("Hostname").map(|s| s.as_str()), Some("dns.google"));
    assert_eq!(m.get("City").map(|s| s.as_str()), Some("Mountain View"));
    assert_eq!(m.get("Region").map(|s| s.as_str()), Some("California"));
    assert_eq!(m.get("Country").map(|s| s.as_str()), Some("US"));
    assert_eq!(m.get("Location").map(|s| s.as_str()), Some("37.4056,-122.0775"));
    assert_eq!(m.get("Organization").map(|s| s.as_str()), Some("AS15169 Google LLC"));
    assert_eq!(m.get("Postal Code").map(|s| s.as_str()), Some("94043"));
    assert_eq!(m.get("Timezone").map(|s| s.as_str()), Some("America/Los_Angeles"));
}

#[test]
fn keeps_field_order_fixed() {
    let m = full_info().to_field_map();
    let labels: Vec<String> = (0..m.len()).map(|i| m.entry_at(i).0.clone()).collect();
    assert_eq!(
        labels,
        vec![
            "IP",
            "Hostname",
            "City",
            "Region",
            "Country",
            "Location",
            "Organization",
            "Postal Code",
            "Timezone"
        ]
    );
}

#[test]
fn absent_fields_stay_absent() {
    let info = IpInfo {
        ip: "8.8.8.8".to_string(),
        hostname: None,
        city: None,
        region: None,
        country: None,
        loc: None,
        org: Some("Google LLC".to_string()),
        postal: None,
        timezone: None,
        readme: None,
    };
    let m = info.to_field_map();
    assert_eq!(m.len(), 2);
    assert_eq!(m.get("IP").map(|s| s.as_str()), Some("8.8.8.8"));
    assert_eq!(m.get("Organization").map(|s| s.as_str()), Some("Google LLC"));
    assert!(m.get("Hostname").is_none());
    assert!(m.get("City").is_none());
}

#[test]
fn readme_is_never_mapped() {
    let m = full_info().to_field_map();
    assert!(m.get("readme").is_none());
    assert!(m.get("Readme").is_none());
}
