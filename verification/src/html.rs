//! The presenter: the HTML pages the client hands to its display
//! surface. Rendering is pure text building; the window that shows the
//! page, and the messages it sends back, are the caller's business.

use vstd::prelude::*;
use crate::text::{spec_dec, u64_to_string};
use crate::{Config, ConfigV, Notifications, NotificationsV, Notification, NotificationV};

verus! {

/// Everything a page starts with: the script that carries messages back
/// from the page, the stylesheet, and the opening of the body.
pub open spec fn spec_html_prefix() -> Seq<char> {
    "<!DOCTYPE html><html><head><script>if(window.external===undefined){window.external={invoke:function(x){window.webkit.messageHandlers.external.postMessage(x);}};}function sendMessage(command,data){if(data===undefined){data='';}external.invoke(command+' '+data);}</script><style>body{font-family:sans-serif;}pre{white-space:pre-wrap;word-wrap:break-word;}input{display:block;width:80%;}ul{padding-left:0px;padding-right:10px;}li{list-style-type:none;margin-bottom:10px;border-bottom:1px solid lightgrey;}summary{cursor:pointer;}</style></head><body>"@
}

/// Everything a page ends with.
pub open spec fn spec_html_suffix() -> Seq<char> {
    "</body></html>"@
}

/// A full page around a body fragment.
pub open spec fn spec_complete_html(stub: Seq<char>) -> Seq<char> {
    spec_html_prefix() + stub + spec_html_suffix()
}

/// Wraps a body fragment in the page boilerplate: the message-channel
/// script, the stylesheet, and the document frame.
pub fn complete_html(stub: &str) -> (r: String)
    ensures
        r@ == spec_complete_html(stub@),
{
    let mut out: String =
        "<!DOCTYPE html><html><head><script>if(window.external===undefined){window.external={invoke:function(x){window.webkit.messageHandlers.external.postMessage(x);}};}function sendMessage(command,data){if(data===undefined){data='';}external.invoke(command+' '+data);}</script><style>body{font-family:sans-serif;}pre{white-space:pre-wrap;word-wrap:break-word;}input{display:block;width:80%;}ul{padding-left:0px;padding-right:10px;}li{list-style-type:none;margin-bottom:10px;border-bottom:1px solid lightgrey;}summary{cursor:pointer;}</style></head><body>".to_owned();
    out.append(stub);
    out.append("</body></html>");
    out
}

/// One list entry: the subject and date up front, the details folded
/// away, and a link that opens the notification's URL, or the configured
/// server when the notification carries none.
pub open spec fn spec_item_html(n: NotificationV, c: ConfigV) -> Seq<char> {
    let url = match n.contexturl {
        Some(u) => u,
        None => c.moodle_location,
    };
    let details = match n.text {
        Some(t) => t,
        None => "Open to view more details"@,
    };
    "<li><details><summary><b>"@ + n.subject + "</b><br/><small>"@ + n.timecreatedpretty
        + "</small></summary><p>"@ + details
        + "<p></details><a href='#' onclick=\"sendMessage('url','"@ + url
        + "')\">View</a></li>"@
}

/// The list entries, in the order the document carried them.
pub open spec fn spec_items_html(items: Seq<NotificationV>, c: ConfigV) -> Seq<char>
    decreases items.len(),
{
    if items.len() == 0 {
        Seq::empty()
    } else {
        spec_items_html(items.drop_last(), c) + spec_item_html(items.last(), c)
    }
}

/// The body of the list view: the unread count, the three commands, and
/// one entry per notification.
pub open spec fn spec_notifications_stub(nv: NotificationsV, c: ConfigV) -> Seq<char> {
    "<h3>"@ + spec_dec(nv.unreadcount as int) + " unread notifications</h3><p><button onclick=\"sendMessage('mark_read')\">Mark as read</button> <button onclick=\"sendMessage('url','"@
        + c.moodle_location
        + "')\">Open CMS</button> <button onclick=\"sendMessage('settings')\">Settings</button></p><ul>"@
        + spec_items_html(nv.notifications, c) + "</ul>"@
}

fn item_html(n: &Notification, config: &Config) -> (r: String)
    ensures
        r@ == spec_item_html(n@, config@),
{
    let mut out: String = "<li><details><summary><b>".to_owned();
    out.append(n.subject.as_str());
    out.append("</b><br/><small>");
    out.append(n.timecreatedpretty.as_str());
    out.append("</small></summary><p>");
    match &n.text {
        Some(t) => out.append(t.as_str()),
        None => out.append("Open to view more details"),
    }
    out.append("<p></details><a href='#' onclick=\"sendMessage('url','");
    match &n.contexturl {
        Some(u) => out.append(u.as_str()),
        None => out.append(config.moodle_location.as_str()),
    }
    out.append("')\">View</a></li>");
    proof {
        assert(out@ =~= spec_item_html(n@, config@));
    }
    out
}

/// The body of the list view for this fetch result.
pub fn render(notifications: &Notifications, config: &Config) -> (r: String)
    ensures
        r@ == spec_notifications_stub(notifications@, config@),
{
    let mut out: String = "<h3>".to_owned();
    let count = u64_to_string(notifications.unreadcount as u64);
    out.append(count.as_str());
    out.append(
        " unread notifications</h3><p><button onclick=\"sendMessage('mark_read')\">Mark as read</button> <button onclick=\"sendMessage('url','",
    );
    out.append(config.moodle_location.as_str());
    out.append(
        "')\">Open CMS</button> <button onclick=\"sendMessage('settings')\">Settings</button></p><ul>",
    );
    let ghost head = out@;
    let n = notifications.notifications.len();
    let mut k: usize = 0;
    proof {
        assert(notifications@.notifications.take(0) =~= Seq::<NotificationV>::empty());
        assert(out@ =~= head + spec_items_html(notifications@.notifications.take(0), config@));
    }
    while k < n
        invariant
            0 <= k <= n == notifications.notifications@.len(),
            notifications@.notifications.len() == n,
            out@ == head + spec_items_html(notifications@.notifications.take(k as int), config@),
        decreases n - k,
    {
        let item = item_html(&notifications.notifications[k], config);
        out.append(item.as_str());
        k = k + 1;
        proof {
            let ghost items = notifications@.notifications;
            assert(items[k as int - 1] == notifications.notifications@[k as int - 1]@);
            assert(items.take(k as int).drop_last() =~= items.take(k as int - 1));
            assert(items.take(k as int).last() == items[k as int - 1]);
            assert(out@ =~= head + spec_items_html(items.take(k as int), config@));
        }
    }
    out.append("</ul>");
    proof {
        assert(notifications@.notifications.take(n as int) =~= notifications@.notifications);
        assert(out@ =~= spec_notifications_stub(notifications@, config@));
    }
    out
}

/// The page for a fetch result, or nothing at all: when the unread count
/// is zero, no list is rendered and nothing is shown.
pub fn notifications_view(notifications: &Notifications, config: &Config) -> (r: Option<String>)
    ensures
        notifications@.unreadcount == 0 ==> r is None,
        notifications@.unreadcount != 0 ==> (r matches Some(page) && page@ == spec_complete_html(
            spec_notifications_stub(notifications@, config@),
        )),
{
    if notifications.unreadcount == 0 {
        None
    } else {
        let stub = render(notifications, config);
        Some(complete_html(stub.as_str()))
    }
}

/// The body of the settings form: the two fields, filled with the
/// settings the form starts from, and the save button that sends the
/// edited settings back as a config document.
pub open spec fn spec_settings_stub(c: ConfigV) -> Seq<char> {
    "<script>function save(){const moodle_location=document.getElementById('mdl-url').value;const token=document.getElementById('mdl-token').value;const config={moodle_location,token};sendMessage('config',JSON.stringify(config));}</script><label>Moodle URL:<br/><input id='mdl-url' value='"@
        + c.moodle_location + "' /></label><br/><label>Authentication token:<br/><input id='mdl-token' value='"@
        + c.token
        + "' /></label><br/><small>You can generate authentication token by visiting CMS > Preferences > User Account > Security Keys. Use the 'Moodle mobile web service' token.</small><br/><button onclick='save()'>Save</button>"@
}

/// The full page of the settings form, pre-filled with these settings.
pub fn render_settings_form(config: &Config) -> (r: String)
    ensures
        r@ == spec_complete_html(spec_settings_stub(config@)),
{
    let mut stub: String =
        "<script>function save(){const moodle_location=document.getElementById('mdl-url').value;const token=document.getElementById('mdl-token').value;const config={moodle_location,token};sendMessage('config',JSON.stringify(config));}</script><label>Moodle URL:<br/><input id='mdl-url' value='".to_owned();
    stub.append(config.moodle_location.as_str());
    stub.append("' /></label><br/><label>Authentication token:<br/><input id='mdl-token' value='");
    stub.append(config.token.as_str());
    stub.append(
        "' /></label><br/><small>You can generate authentication token by visiting CMS > Preferences > User Account > Security Keys. Use the 'Moodle mobile web service' token.</small><br/><button onclick='save()'>Save</button>",
    );
    complete_html(stub.as_str())
}

/// The body of the error view: the message, and the one command that
/// opens the settings.
pub open spec fn spec_error_stub(message: Seq<char>) -> Seq<char> {
    "<h1>Error</h1><button onclick=\"sendMessage('settings')\">Settings</button><pre>"@ + message
        + "</pre><br/>Errors can happen if you provided an invalid authentication token, or if Moodle is unreachable."@
}

/// The full page for an error message.
pub fn render_error(message: &str) -> (r: String)
    ensures
        r@ == spec_complete_html(spec_error_stub(message@)),
{
    let mut stub: String =
        "<h1>Error</h1><button onclick=\"sendMessage('settings')\">Settings</button><pre>".to_owned();
    stub.append(message);
    stub.append(
        "</pre><br/>Errors can happen if you provided an invalid authentication token, or if Moodle is unreachable.",
    );
    complete_html(stub.as_str())
}

} // verus!
