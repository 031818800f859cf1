use diggeo::geo::{build_url, country_from_response, country_label, GeoError};
use diggeo::report::{error_line, render_reports, result_line, Lookup};

#[test]
fn country_field_is_extracted() {
    let c = country_from_response("{\"country_name\": \"Japan\"}").unwrap();
    assert_eq!(c, "Japan");
    assert_eq!(result_line("1.2.3.4", &c), "1.2.3.4:Japan");
}

#[test]
fn missing_country_field_defaults_to_unknown() {
    let c = country_from_response("{\"ip\": \"5.6.7.8\"}").unwrap();
    assert_eq!(c, "Unknown");
    assert_eq!(result_line("5.6.7.8", &c), "5.6.7.8:Unknown");
}

#[test]
fn non_string_country_field_defaults_to_unknown() {
    assert_eq!(country_from_response("{\"country_name\": 42}").unwrap(), "Unknown");
    assert_eq!(country_from_response("{\"country_name\": null}").unwrap(), "Unknown");
}

#[test]
fn other_fields_are_ignored() {
    let body = "{\"ip\": \"1.2.3.4\", \"country_name\": \"France\", \"city\": \"Paris\"}";
    assert_eq!(country_from_response(body).unwrap(), "France");
}

#[test]
fn malformed_json_is_a_decode_error() {
    let r = country_from_response("not json at all");
    match r {
        Err(e @ GeoError::Decode(_)) => {
            assert!(!e.message().is_empty());
        }
        other => panic!("expected a decode error, got {:?}", other),
    }
}

#[test]
fn country_label_substitutes_the_sentinel() {
    assert_eq!(country_label(Some("Peru".to_string())), "Peru");
    assert_eq!(country_label(None), "Unknown");
}

#[test]
fn url_embeds_key_and_ip() {
    assert_eq!(
        build_url("k123", "1.2.3.4"),
        "https://api.ipgeolocation.io/ipgeo?apiKey=k123&ip=1.2.3.4"
    );
}

#[test]
fn error_line_names_ip_and_cause() {
    assert_eq!(
        error_line("5.6.7.8", "connection refused"),
        "Error fetching geolocation for 5.6.7.8: connection refused"
    );
}

#[test]
fn one_failure_does_not_drop_the_others() {
    let items = vec![
        ("1.1.1.1".to_string(), Lookup::Found("A".to_string())),
        ("2.2.2.2".to_string(), Lookup::Failed("timeout".to_string())),
        ("3.3.3.3".to_string(), Lookup::Found("B".to_string())),
    ];
    let (out, err) = render_reports(&items);
    assert_eq!(out, vec!["1.1.1.1:A".to_string(), "3.3.3.3:B".to_string()]);
    assert_eq!(
        err,
        vec!["Error fetching geolocation for 2.2.2.2: timeout".to_string()]
    );
}

#[test]
fn all_failures_still_reported_in_order() {
    let items = vec![
        ("a".to_string(), Lookup::Failed("x".to_string())),
        ("b".to_string(), Lookup::Failed("y".to_string())),
    ];
    let (out, err) = render_reports(&items);
    assert!(out.is_empty());
    assert_eq!(
        err,
        vec![
            "Error fetching geolocation for a: x".to_string(),
            "Error fetching geolocation for b: y".to_string(),
        ]
    );
}
