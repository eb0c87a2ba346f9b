use cms_notifs::config::{
    apply_setup_submission, config_to_json, normalize_location, parse_config, plan_retrieve,
};
use cms_notifs::Config;

fn cfg(location: &str, token: &str) -> Config {
    Config { moodle_location: location.to_string(), token: token.to_string() }
}

#[test]
fn config_serializes_to_the_compact_document() {
    let c = cfg("https://cms.bits-hyderabad.ac.in", "abc123");
    assert_eq!(
        config_to_json(&c),
        "{\"moodle_location\":\"https://cms.bits-hyderabad.ac.in\",\"token\":\"abc123\"}"
    );
}

#[test]
fn store_then_retrieve_round_trips_byte_for_byte() {
    let c = cfg("https://cms.bits-hyderabad.ac.in", "s3cr3t-t0ken");
    let stored = config_to_json(&c);
    let back = parse_config(&stored).expect("own document must parse");
    assert_eq!(back.moodle_location, c.moodle_location);
    assert_eq!(back.token, c.token);
    assert_eq!(config_to_json(&back), stored);
}

#[test]
fn round_trip_keeps_quotes_and_backslashes() {
    let c = cfg("https://x", "a\"b\\c");
    let stored = config_to_json(&c);
    let back = parse_config(&stored).expect("escaped document must parse");
    assert_eq!(back.moodle_location, "https://x");
    assert_eq!(back.token, "a\"b\\c");
}

#[test]
fn parse_accepts_either_field_order() {
    let c = parse_config("{\"token\":\"t\",\"moodle_location\":\"https://m\"}").unwrap();
    assert_eq!(c.moodle_location, "https://m");
    assert_eq!(c.token, "t");
}

#[test]
fn parse_rejects_missing_or_duplicate_fields() {
    assert!(parse_config("{\"moodle_location\":\"https://m\"}").is_none());
    assert!(parse_config("{\"token\":\"t\",\"token\":\"u\",\"moodle_location\":\"m\"}").is_none());
    assert!(parse_config("").is_none());
    assert!(parse_config("not json at all").is_none());
    assert!(parse_config("{\"moodle_location\":\"m\",\"token\":\"t\"}trailing").is_none());
}

#[test]
fn parse_passes_over_unknown_fields() {
    let c = parse_config("{\"moodle_location\":\"m\",\"extra\":[1,{\"x\":null}],\"token\":\"t\"}")
        .expect("an unknown member is no error");
    assert_eq!(c.moodle_location, "m");
    assert_eq!(c.token, "t");
}

#[test]
fn round_trip_keeps_control_characters() {
    let c = cfg("https://x", "a\u{1}b\nc\u{1f}");
    let stored = config_to_json(&c);
    let back = parse_config(&stored).expect("control characters are escaped when written");
    assert_eq!(back.token, "a\u{1}b\nc\u{1f}");
    let v: serde_json::Value = serde_json::from_str(&stored).expect("valid JSON");
    assert_eq!(v.get("token").unwrap().as_str().unwrap(), "a\u{1}b\nc\u{1f}");
}

#[test]
fn parse_decodes_string_escapes() {
    let c = parse_config("{\"moodle_location\":\"a\\\"b\\\\c\\n\",\"token\":\"\\t\"}").unwrap();
    assert_eq!(c.moodle_location, "a\"b\\c\n");
    assert_eq!(c.token, "\t");
}

#[test]
fn normalization_strips_exactly_the_trailing_slashes() {
    assert_eq!(normalize_location("https://cms.example/"), "https://cms.example");
    assert_eq!(normalize_location("https://cms.example///"), "https://cms.example");
    assert_eq!(normalize_location("https://cms.example"), "https://cms.example");
    assert_eq!(normalize_location("///"), "");
    assert_eq!(normalize_location(""), "");
}

#[test]
fn setup_submission_normalizes_before_persisting() {
    let saved =
        apply_setup_submission("{\"moodle_location\":\"https://m//\",\"token\":\"t\"}").unwrap();
    assert_eq!(saved.moodle_location, "https://m");
    assert_eq!(saved.token, "t");
    assert!(apply_setup_submission("garbage").is_none());
}

#[test]
fn missing_store_yields_default_config_persisted_and_setup() {
    let plan = plan_retrieve(&None);
    assert_eq!(plan.config.moodle_location, "https://cms.bits-hyderabad.ac.in");
    assert_eq!(plan.config.token, "");
    assert!(plan.write_default);
    assert!(plan.run_setup);
}

#[test]
fn corrupt_store_yields_default_config_persisted_and_setup() {
    let plan = plan_retrieve(&Some("{\"broken\": ".to_string()));
    assert_eq!(plan.config.moodle_location, "https://cms.bits-hyderabad.ac.in");
    assert_eq!(plan.config.token, "");
    assert!(plan.write_default);
    assert!(plan.run_setup);
}

#[test]
fn intact_store_is_used_as_it_is() {
    let stored = "{\"moodle_location\":\"https://m\",\"token\":\"tok\"}".to_string();
    let plan = plan_retrieve(&Some(stored));
    assert_eq!(plan.config.moodle_location, "https://m");
    assert_eq!(plan.config.token, "tok");
    assert!(!plan.write_default);
    assert!(!plan.run_setup);
}

#[test]
fn blank_space_between_tokens_is_accepted() {
    let pretty = "{\n  \"moodle_location\": \"https://m\",\n  \"token\": \"t\"\n}\n";
    let c = parse_config(pretty).expect("a pretty-printed document must parse");
    assert_eq!(c.moodle_location, "https://m");
    assert_eq!(c.token, "t");
}

#[test]
fn blank_space_inside_a_string_is_kept() {
    let c = parse_config("{\"moodle_location\": \"a b\", \"token\": \" \"}").unwrap();
    assert_eq!(c.moodle_location, "a b");
    assert_eq!(c.token, " ");
}

#[test]
fn serde_reads_what_the_store_writes() {
    let c = cfg("https://cms.example", "to\"k\\en");
    let stored = config_to_json(&c);
    let v: serde_json::Value = serde_json::from_str(&stored).expect("valid JSON");
    assert_eq!(v.get("moodle_location").unwrap().as_str().unwrap(), "https://cms.example");
    assert_eq!(v.get("token").unwrap().as_str().unwrap(), "to\"k\\en");
}

#[test]
fn the_store_reads_what_serde_writes() {
    let mut m = serde_json::Map::new();
    m.insert(
        "moodle_location".to_string(),
        serde_json::Value::String("https://cms.example".to_string()),
    );
    m.insert("token".to_string(), serde_json::Value::String("a\"b\\c".to_string()));
    let text = serde_json::to_string(&serde_json::Value::Object(m)).unwrap();
    let c = parse_config(&text).expect("serde's document must parse");
    assert_eq!(c.moodle_location, "https://cms.example");
    assert_eq!(c.token, "a\"b\\c");
}
