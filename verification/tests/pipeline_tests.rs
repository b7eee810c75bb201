use repscout::pipeline::{api_url, lookup_url, plan_query, Config, QueryPlan};

fn config() -> Config {
    Config {
        profile_path: "/tmp/profile".to_string(),
        target_base_url: "https://talosintelligence.com".to_string(),
        api_base_url: "https://ipinfo.io".to_string(),
        settle_delay: 5,
    }
}

#[test]
fn rejected_line_reaches_nothing() {
    // A rejected identifier yields no addresses at all, so the browser
    // session and the geolocation service are never invoked for it.
    let p = plan_query(&config(), "not a domain");
    assert!(matches!(p, QueryPlan::Rejected));
    let p2 = plan_query(&config(), "999.999.1.1");
    assert!(matches!(p2, QueryPlan::Rejected));
}

#[test]
fn accepted_ip_plans_both_addresses() {
    match plan_query(&config(), " 8.8.8.8 ") {
        QueryPlan::Proceed { identifier, lookup, api } => {
            assert_eq!(identifier.as_str(), "8.8.8.8");
            assert_eq!(
                lookup.as_str(),
                "https://talosintelligence.com/reputation_center/lookup?search=8.8.8.8"
            );
            assert_eq!(api.as_str(), "https://ipinfo.io/8.8.8.8");
        },
        QueryPlan::Rejected => panic!("8.8.8.8 must be accepted"),
    }
}

#[test]
fn accepted_domain_plans_both_addresses() {
    match plan_query(&config(), "example.com") {
        QueryPlan::Proceed { identifier, lookup, api } => {
            assert_eq!(identifier.as_str(), "example.com");
            assert_eq!(
                lookup.as_str(),
                "https://talosintelligence.com/reputation_center/lookup?search=example.com"
            );
            assert_eq!(api.as_str(), "https://ipinfo.io/example.com");
        },
        QueryPlan::Rejected => panic!("example.com must be accepted"),
    }
}

#[test]
fn url_builders_concatenate() {
    let cfg = config();
    assert_eq!(
        lookup_url(&cfg, "1.1.1.1").as_str(),
        "https://talosintelligence.com/reputation_center/lookup?search=1.1.1.1"
    );
    assert_eq!(api_url(&cfg, "1.1.1.1").as_str(), "https://ipinfo.io/1.1.1.1");
}
