use cms_notifs::api::{
    mark_read_endpoint, notifications_endpoint, parse_notifications, recipient_of, tokenize,
};
use cms_notifs::{Config, FetchError, Notifications};

fn cfg(location: &str, token: &str) -> Config {
    Config { moodle_location: location.to_string(), token: token.to_string() }
}

#[test]
fn token_substitution_replaces_the_placeholder() {
    let c = cfg("", "abc");
    assert_eq!(tokenize(".../wstoken=@&x=1", &c), ".../wstoken=abc&x=1");
}

#[test]
fn token_substitution_replaces_only_the_first_placeholder() {
    let c = cfg("", "T");
    assert_eq!(tokenize("x=@&y=@", &c), "x=T&y=@");
    let at = cfg("", "@");
    assert_eq!(tokenize("x=@&y=@", &at), "x=@&y=@");
}

#[test]
fn token_substitution_prefixes_the_base() {
    let c = cfg("https://m", "tok");
    assert_eq!(tokenize("/a?t=@", &c), "https://m/a?t=@".replace("@", "tok"));
    let plain = cfg("https://m", "tok");
    assert_eq!(tokenize("/plain", &plain), "https://m/plain");
}

#[test]
fn fetch_endpoint_is_the_fixed_template() {
    let c = cfg("https://cms.example", "tok123");
    assert_eq!(
        notifications_endpoint(&c),
        "https://cms.example/webservice/rest/server.php?wsfunction=message_popup_get_popup_notifications&moodlewsrestformat=json&wstoken=tok123&limit=100&offset=0&useridto=0"
    );
}

#[test]
fn mark_read_endpoint_carries_the_recipient() {
    let c = cfg("https://cms.example", "tok123");
    assert_eq!(
        mark_read_endpoint(&c, 7),
        "https://cms.example/webservice/rest/server.php?wsfunction=core_message_mark_all_notifications_as_read&moodlewsrestformat=json&wstoken=tok123&useridto=7"
    );
    assert!(mark_read_endpoint(&c, 4294967295).ends_with("&useridto=4294967295"));
}

#[test]
fn the_documented_body_parses_to_one_notification() {
    let body = "{\"notifications\":[{\"id\":1,\"subject\":\"Test\",\"useridto\":7,\"timecreatedpretty\":\"now\"}],\"unreadcount\":1}";
    let n = parse_notifications(body).expect("documented body must parse");
    assert_eq!(n.unreadcount, 1);
    assert_eq!(n.notifications.len(), 1);
    let one = &n.notifications[0];
    assert_eq!(one.id, 1);
    assert_eq!(one.subject, "Test");
    assert_eq!(one.useridto, 7);
    assert_eq!(one.timecreatedpretty, "now");
    assert!(one.contexturl.is_none());
    assert!(one.text.is_none());
}

#[test]
fn optional_fields_may_be_present_or_null() {
    let body = "{\"notifications\":[{\"id\":2,\"subject\":\"S\",\"contexturl\":\"https://cms/x\",\"useridto\":3,\"text\":null,\"timecreatedpretty\":\"today\"}],\"unreadcount\":5}";
    let n = parse_notifications(body).unwrap();
    let one = &n.notifications[0];
    assert_eq!(one.contexturl.as_deref(), Some("https://cms/x"));
    assert!(one.text.is_none());
    assert_eq!(n.unreadcount, 5);
}

#[test]
fn several_notifications_keep_their_order() {
    let body = "{\"unreadcount\":2,\"notifications\":[{\"id\":9,\"subject\":\"A\",\"useridto\":1,\"timecreatedpretty\":\"t1\"},{\"id\":8,\"subject\":\"B\",\"useridto\":1,\"timecreatedpretty\":\"t2\"}]}";
    let n = parse_notifications(body).unwrap();
    assert_eq!(n.notifications.len(), 2);
    assert_eq!(n.notifications[0].subject, "A");
    assert_eq!(n.notifications[1].subject, "B");
}

#[test]
fn an_empty_array_parses() {
    let n = parse_notifications("{\"notifications\":[],\"unreadcount\":0}").unwrap();
    assert_eq!(n.notifications.len(), 0);
    assert_eq!(n.unreadcount, 0);
}

#[test]
fn malformed_bodies_yield_decode_error_never_a_panic() {
    let bad = [
        "",
        "null",
        "[]",
        "{",
        "{}",
        "not json",
        "{\"notifications\":[],\"unreadcount\":-1}",
        "{\"notifications\":{},\"unreadcount\":0}",
        "{\"unreadcount\":0}",
        "{\"notifications\":[]}",
        "{\"notifications\":[{\"id\":1}],\"unreadcount\":0}",
        "{\"notifications\":[],\"unreadcount\":01}",
        "{\"notifications\":[],\"unreadcount\":18446744073709551616}",
        "{\"notifications\":[],\"unreadcount\":0}x",
        "{\"notifications\":[],\"unreadcount\":0,\"unreadcount\":1}",
    ];
    for body in bad.iter() {
        assert!(matches!(parse_notifications(body), Err(FetchError::DecodeError)));
    }
}

#[test]
fn a_recipient_id_beyond_u32_is_a_decode_error() {
    let body = "{\"notifications\":[{\"id\":1,\"subject\":\"S\",\"useridto\":4294967296,\"timecreatedpretty\":\"t\"}],\"unreadcount\":1}";
    assert!(matches!(parse_notifications(body), Err(FetchError::DecodeError)));
}

#[test]
fn ids_up_to_u64_max_parse() {
    let body = "{\"notifications\":[{\"id\":18446744073709551615,\"subject\":\"S\",\"useridto\":1,\"timecreatedpretty\":\"t\"}],\"unreadcount\":1}";
    let n = parse_notifications(body).unwrap();
    assert_eq!(n.notifications[0].id, u64::MAX);
}

#[test]
fn a_pretty_printed_body_parses() {
    let body = "{ \"notifications\": [ { \"id\": 1, \"subject\": \"Test\", \"useridto\": 7, \"timecreatedpretty\": \"now\" } ],\n  \"unreadcount\": 1 }\n";
    let n = parse_notifications(body).expect("blank space between tokens is fine");
    assert_eq!(n.unreadcount, 1);
    assert_eq!(n.notifications[0].subject, "Test");
    let empty = parse_notifications("{\"notifications\":[ ],\"unreadcount\":0}").unwrap();
    assert_eq!(empty.notifications.len(), 0);
}

#[test]
fn unknown_members_are_passed_over() {
    let body = "{\"exception\":\"x\",\"notifications\":[],\"unreadcount\":0}";
    let n = parse_notifications(body).expect("an unknown member is no error");
    assert_eq!(n.unreadcount, 0);

    let body = "{\"notifications\":[{\"id\":1,\"useridfrom\":-3,\"subject\":\"S\",\"fullmessage\":\"long text\",\"useridto\":7,\"timecreated\":1.5e3,\"read\":false,\"customdata\":{\"a\":[1,2,{\"b\":null}],\"c\":true},\"timecreatedpretty\":\"now\"}],\"unreadcount\":1,\"warnings\":[]}";
    let n = parse_notifications(body).expect("real responses carry extra members");
    assert_eq!(n.notifications.len(), 1);
    assert_eq!(n.notifications[0].subject, "S");
    assert_eq!(n.notifications[0].useridto, 7);
}

#[test]
fn a_repeated_known_member_is_still_an_error() {
    let body = "{\"notifications\":[{\"id\":1,\"id\":2,\"subject\":\"S\",\"useridto\":7,\"timecreatedpretty\":\"t\"}],\"unreadcount\":1}";
    assert!(matches!(parse_notifications(body), Err(FetchError::DecodeError)));
}

#[test]
fn unicode_escapes_are_decoded() {
    let body = "{\"notifications\":[{\"id\":1,\"subject\":\"\\u0041\\u00e9\",\"useridto\":7,\"timecreatedpretty\":\"\\ud83d\\ude00\"}],\"unreadcount\":1}";
    let n = parse_notifications(body).expect("unicode escapes are part of JSON");
    assert_eq!(n.notifications[0].subject, "A\u{e9}");
    assert_eq!(n.notifications[0].timecreatedpretty, "\u{1f600}");
}

#[test]
fn broken_unicode_escapes_are_errors() {
    let lone = "{\"notifications\":[{\"id\":1,\"subject\":\"\\ud83d\",\"useridto\":7,\"timecreatedpretty\":\"t\"}],\"unreadcount\":1}";
    assert!(matches!(parse_notifications(lone), Err(FetchError::DecodeError)));
    let bad_hex = "{\"notifications\":[{\"id\":1,\"subject\":\"\\u00zz\",\"useridto\":7,\"timecreatedpretty\":\"t\"}],\"unreadcount\":1}";
    assert!(matches!(parse_notifications(bad_hex), Err(FetchError::DecodeError)));
}

#[test]
fn the_recipient_is_the_first_notification_or_zero() {
    let body = "{\"notifications\":[{\"id\":1,\"subject\":\"S\",\"useridto\":7,\"timecreatedpretty\":\"t\"}],\"unreadcount\":1}";
    let n = parse_notifications(body).unwrap();
    assert_eq!(recipient_of(&n), 7);
    let empty = Notifications { notifications: vec![], unreadcount: 0 };
    assert_eq!(recipient_of(&empty), 0);
}

#[test]
fn error_messages_name_their_cause() {
    assert_eq!(
        FetchError::DecodeError.message(),
        "could not decode the server's response"
    );
    assert_eq!(
        FetchError::TransportError("connection refused".to_string()).message(),
        "connection refused"
    );
}
