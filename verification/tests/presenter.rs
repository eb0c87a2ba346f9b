use cms_notifs::commands::{parse_command, Command};
use cms_notifs::html::{
    complete_html, notifications_view, render, render_error, render_settings_form,
};
use cms_notifs::text::split_once;
use cms_notifs::{Config, Notification, Notifications};

fn cfg(location: &str, token: &str) -> Config {
    Config { moodle_location: location.to_string(), token: token.to_string() }
}

fn one_notification() -> Notification {
    Notification {
        id: 1,
        subject: "Test".to_string(),
        contexturl: None,
        useridto: 7,
        text: None,
        timecreatedpretty: "now".to_string(),
    }
}

#[test]
fn complete_html_wraps_the_stub() {
    let page = complete_html("<p>hi</p>");
    assert!(page.starts_with("<!DOCTYPE html>"));
    assert!(page.ends_with("</body></html>"));
    assert!(page.contains("<p>hi</p>"));
    assert!(page.contains("function sendMessage(command,data)"));
}

#[test]
fn one_unread_notification_renders_one_list_item() {
    let c = cfg("https://cms.example", "t");
    let set = Notifications { notifications: vec![one_notification()], unreadcount: 1 };
    let stub = render(&set, &c);
    assert_eq!(stub.matches("<li>").count(), 1);
    assert!(stub.contains("Test"));
    assert!(stub.contains("now"));
    assert!(stub.contains("<h3>1 unread notifications</h3>"));
    // Without a notification URL the link falls back to the server.
    assert!(stub.contains("sendMessage('url','https://cms.example')"));
    // Without text the details fall back to the fixed phrase.
    assert!(stub.contains("Open to view more details"));
}

#[test]
fn notification_link_and_text_are_used_when_present() {
    let c = cfg("https://cms.example", "t");
    let set = Notifications {
        notifications: vec![Notification {
            id: 2,
            subject: "S".to_string(),
            contexturl: Some("https://cms.example/mod/forum".to_string()),
            useridto: 3,
            text: Some("details here".to_string()),
            timecreatedpretty: "yesterday".to_string(),
        }],
        unreadcount: 2,
    };
    let stub = render(&set, &c);
    assert!(stub.contains("sendMessage('url','https://cms.example/mod/forum')"));
    assert!(stub.contains("details here"));
    assert!(stub.contains("<h3>2 unread notifications</h3>"));
}

#[test]
fn zero_unread_renders_nothing_at_all() {
    let c = cfg("https://cms.example", "t");
    let empty = Notifications { notifications: vec![], unreadcount: 0 };
    assert!(notifications_view(&empty, &c).is_none());
}

#[test]
fn unread_notifications_render_a_full_page() {
    let c = cfg("https://cms.example", "t");
    let set = Notifications { notifications: vec![one_notification()], unreadcount: 1 };
    let page = notifications_view(&set, &c).expect("one unread renders");
    assert!(page.starts_with("<!DOCTYPE html>"));
    assert!(page.contains("Test"));
    assert_eq!(page, complete_html(&render(&set, &c)));
}

#[test]
fn the_error_page_carries_the_message_and_the_settings_command() {
    let page = render_error("connection refused");
    assert!(page.contains("<pre>connection refused</pre>"));
    assert!(page.contains("sendMessage('settings')"));
    assert!(page.starts_with("<!DOCTYPE html>"));
}

#[test]
fn the_settings_form_is_prefilled() {
    let c = cfg("https://cms.example", "tok");
    let page = render_settings_form(&c);
    assert!(page.contains("value='https://cms.example'"));
    assert!(page.contains("value='tok'"));
    assert!(page.contains("JSON.stringify(config)"));
}

#[test]
fn split_once_splits_on_the_first_space() {
    assert_eq!(
        split_once("url https://x y"),
        Some(("url".to_string(), "https://x y".to_string()))
    );
    assert_eq!(split_once("word "), Some(("word".to_string(), "".to_string())));
    assert_eq!(split_once("nospace"), None);
}

#[test]
fn messages_become_typed_commands() {
    assert!(matches!(
        parse_command("url https://cms.example/a"),
        Some(Command::OpenUrl(u)) if u == "https://cms.example/a"
    ));
    assert!(matches!(parse_command("settings "), Some(Command::OpenSettings)));
    assert!(matches!(parse_command("mark_read "), Some(Command::MarkRead)));
    assert!(matches!(parse_command("mark_read"), Some(Command::MarkRead)));
}

#[test]
fn unknown_commands_mean_nothing() {
    assert!(parse_command("frobnicate x").is_none());
    assert!(parse_command("").is_none());
    assert!(parse_command(" leading").is_none());
    assert!(parse_command("config {\"a\":1}").is_none());
}
