//! The web-service side of the client: the tokenized endpoint URLs and
//! the notification document the fetch endpoint answers with. The HTTP
//! request itself is the caller's business; these functions build the
//! exact URL to request and read the exact body that comes back.

use vstd::prelude::*;
use crate::json::{
    lemma_number_bounds, lemma_skip_skip, lemma_skip_value_bounds, lemma_string_bounds,
    lemma_ws_len_bounds, p_null, p_number_u64, p_skip_value, p_string, p_ws, sp_null, sp_number,
    sp_skip_value, sp_string, spec_ws_len, str_eq,
};
use crate::text::{chars_to_string, spec_dec, str_to_chars, u64_to_string};
use crate::{Config, ConfigV, FetchError, Notification, NotificationV, Notifications,
    NotificationsV};

verus! {

/// The fetch endpoint, relative to the server base, with `@` standing for
/// the token.
pub open spec fn spec_notifs_template() -> Seq<char> {
    "/webservice/rest/server.php?wsfunction=message_popup_get_popup_notifications&moodlewsrestformat=json&wstoken=@&limit=100&offset=0&useridto=0"@
}

/// The mark-all-read endpoint, relative to the server base, with `@`
/// standing for the token.
pub open spec fn spec_mark_read_template() -> Seq<char> {
    "/webservice/rest/server.php?wsfunction=core_message_mark_all_notifications_as_read&moodlewsrestformat=json&wstoken=@"@
}

/// The template with the token in place of its first `@`. A token that
/// itself holds `@` is inserted as it is; only the template's own first
/// placeholder is replaced.
pub open spec fn spec_subst_first(t: Seq<char>, tok: Seq<char>) -> Seq<char>
    decreases t.len(),
{
    if t.len() == 0 {
        t
    } else if t[0] == '@' {
        tok + t.skip(1)
    } else {
        seq![t[0]] + spec_subst_first(t.skip(1), tok)
    }
}

/// A complete endpoint: the configured base followed by the tokenized
/// template.
pub open spec fn spec_tokenize(endpoint: Seq<char>, c: ConfigV) -> Seq<char> {
    c.moodle_location + spec_subst_first(endpoint, c.token)
}

/// Substitution lands at the first placeholder: everything before it is
/// kept, the token stands in its place, everything after it is kept.
pub proof fn lemma_subst_first_at(t: Seq<char>, tok: Seq<char>, i: int)
    requires
        0 <= i < t.len(),
        t[i] == '@',
        forall|k: int| 0 <= k < i ==> t[k] != '@',
    ensures
        spec_subst_first(t, tok) == t.take(i) + tok + t.skip(i + 1),
    decreases i,
{
    if i == 0 {
        assert(t.take(0) + tok + t.skip(1) =~= tok + t.skip(1));
    } else {
        assert(t.skip(1)[i - 1] == t[i]);
        assert forall|k: int| 0 <= k < i - 1 implies t.skip(1)[k] != '@' by {
            assert(t.skip(1)[k] == t[k + 1]);
        }
        lemma_subst_first_at(t.skip(1), tok, i - 1);
        assert(t.take(i) + tok + t.skip(i + 1) =~= seq![t[0]] + (t.skip(1).take(i - 1) + tok
            + t.skip(1).skip(i)));
    }
}

/// A template without a placeholder is kept whole.
pub proof fn lemma_subst_first_none(t: Seq<char>, tok: Seq<char>)
    requires
        forall|k: int| 0 <= k < t.len() ==> t[k] != '@',
    ensures
        spec_subst_first(t, tok) == t,
    decreases t.len(),
{
    if t.len() > 0 {
        assert forall|k: int| 0 <= k < t.skip(1).len() implies t.skip(1)[k] != '@' by {
            assert(t.skip(1)[k] == t[k + 1]);
        }
        lemma_subst_first_none(t.skip(1), tok);
        assert(seq![t[0]] + t.skip(1) =~= t);
    }
}

/// The full URL for a partial endpoint: the configured base, then the
/// endpoint with the token in place of its first `@`.
pub fn tokenize(endpoint: &str, config: &Config) -> (r: String)
    ensures
        r@ == spec_tokenize(endpoint@, config@),
{
    let v = str_to_chars(endpoint);
    let n = v.len();
    let mut out = config.moodle_location.clone();
    let mut i: usize = 0;
    while i < n
        invariant
            0 <= i <= n == v@.len(),
            v@ == endpoint@,
            out@ == config@.moodle_location,
            forall|k: int| 0 <= k < i ==> v@[k] != '@',
        decreases n - i,
    {
        if v[i] == '@' {
            let before = chars_to_string(v.as_slice(), 0, i);
            let after = chars_to_string(v.as_slice(), i + 1, n);
            out.append(before.as_str());
            out.append(config.token.as_str());
            out.append(after.as_str());
            proof {
                lemma_subst_first_at(endpoint@, config@.token, i as int);
                assert(out@ =~= spec_tokenize(endpoint@, config@));
            }
            return out;
        }
        i = i + 1;
    }
    out.append(endpoint);
    proof {
        lemma_subst_first_none(endpoint@, config@.token);
    }
    out
}

/// The URL that fetches the unread notifications.
pub fn notifications_endpoint(config: &Config) -> (r: String)
    ensures
        r@ == spec_tokenize(spec_notifs_template(), config@),
{
    tokenize(
        "/webservice/rest/server.php?wsfunction=message_popup_get_popup_notifications&moodlewsrestformat=json&wstoken=@&limit=100&offset=0&useridto=0",
        config,
    )
}

/// The URL that marks everything read for the given recipient.
pub fn mark_read_endpoint(config: &Config, user_id: u32) -> (r: String)
    ensures
        r@ == spec_tokenize(spec_mark_read_template(), config@) + "&useridto="@ + spec_dec(
            user_id as int,
        ),
{
    let mut out = tokenize(
        "/webservice/rest/server.php?wsfunction=core_message_mark_all_notifications_as_read&moodlewsrestformat=json&wstoken=@",
        config,
    );
    out.append("&useridto=");
    let num = u64_to_string(user_id as u64);
    out.append(num.as_str());
    out
}

/// The recipient a mark-all-read call is issued for: the first
/// notification's recipient, or zero when there is none to read it from.
pub fn recipient_of(notifications: &Notifications) -> (r: u32)
    ensures
        r == (if notifications@.notifications.len() > 0 {
            notifications@.notifications[0].useridto
        } else {
            0u32
        }),
{
    if notifications.notifications.len() > 0 {
        proof {
            assert(notifications@.notifications[0] == notifications.notifications@[0]@);
        }
        notifications.notifications[0].useridto
    } else {
        0
    }
}

// ---------------------------------------------------------------------
// The notification document.
// ---------------------------------------------------------------------

/// A notification object part-way through being read: each field either
/// seen, with its value, or still missing.
pub struct NotifDraft {
    pub id: Option<int>,
    pub subject: Option<Seq<char>>,
    pub useridto: Option<int>,
    pub timecreatedpretty: Option<Seq<char>>,
    pub contexturl: Option<Option<Seq<char>>>,
    pub text: Option<Option<Seq<char>>>,
}

/// The draft before any member has been read.
pub open spec fn empty_draft() -> NotifDraft {
    NotifDraft {
        id: None,
        subject: None,
        useridto: None,
        timecreatedpretty: None,
        contexturl: None,
        text: None,
    }
}

/// The notification a finished draft amounts to: the four required
/// fields must have been seen; an optional field that was absent or null
/// is simply not there.
pub open spec fn finish_draft(d: NotifDraft) -> Option<NotificationV> {
    match (d.id, d.subject, d.useridto, d.timecreatedpretty) {
        (Some(id), Some(subject), Some(uid), Some(tc)) => Some(
            NotificationV {
                id: id as u64,
                subject: subject,
                contexturl: match d.contexturl {
                    Some(x) => x,
                    None => None,
                },
                useridto: uid as u32,
                text: match d.text {
                    Some(x) => x,
                    None => None,
                },
                timecreatedpretty: tc,
            },
        ),
        _ => None,
    }
}

/// Reads the value of one notification member, named `name`, and folds it
/// into the draft. A member with an unknown name is passed over and the
/// draft kept; a repeated member, a value of the wrong shape, or a number
/// out of its field's range reads as nothing.
pub open spec fn sp_notif_value(s: Seq<char>, d: NotifDraft, name: Seq<char>) -> Option<
    (NotifDraft, int),
> {
    if name == "id"@ {
        if d.id is Some {
            None
        } else {
            match sp_number(s) {
                Some((val, n)) => if val <= u64::MAX {
                    Some(
                        (
                            NotifDraft {
                                id: Some(val),
                                subject: d.subject,
                                useridto: d.useridto,
                                timecreatedpretty: d.timecreatedpretty,
                                contexturl: d.contexturl,
                                text: d.text,
                            },
                            n,
                        ),
                    )
                } else {
                    None
                },
                None => None,
            }
        }
    } else if name == "subject"@ {
        if d.subject is Some {
            None
        } else {
            match sp_string(s) {
                Some((val, n)) => Some(
                    (
                        NotifDraft {
                            id: d.id,
                            subject: Some(val),
                            useridto: d.useridto,
                            timecreatedpretty: d.timecreatedpretty,
                            contexturl: d.contexturl,
                            text: d.text,
                        },
                        n,
                    ),
                ),
                None => None,
            }
        }
    } else if name == "useridto"@ {
        if d.useridto is Some {
            None
        } else {
            match sp_number(s) {
                Some((val, n)) => if val <= u32::MAX {
                    Some(
                        (
                            NotifDraft {
                                id: d.id,
                                subject: d.subject,
                                useridto: Some(val),
                                timecreatedpretty: d.timecreatedpretty,
                                contexturl: d.contexturl,
                                text: d.text,
                            },
                            n,
                        ),
                    )
                } else {
                    None
                },
                None => None,
            }
        }
    } else if name == "timecreatedpretty"@ {
        if d.timecreatedpretty is Some {
            None
        } else {
            match sp_string(s) {
                Some((val, n)) => Some(
                    (
                        NotifDraft {
                            id: d.id,
                            subject: d.subject,
                            useridto: d.useridto,
                            timecreatedpretty: Some(val),
                            contexturl: d.contexturl,
                            text: d.text,
                        },
                        n,
                    ),
                ),
                None => None,
            }
        }
    } else if name == "contexturl"@ {
        if d.contexturl is Some {
            None
        } else if sp_null(s) {
            Some(
                (
                    NotifDraft {
                        id: d.id,
                        subject: d.subject,
                        useridto: d.useridto,
                        timecreatedpretty: d.timecreatedpretty,
                        contexturl: Some(None),
                        text: d.text,
                    },
                    4,
                ),
            )
        } else {
            match sp_string(s) {
                Some((val, n)) => Some(
                    (
                        NotifDraft {
                            id: d.id,
                            subject: d.subject,
                            useridto: d.useridto,
                            timecreatedpretty: d.timecreatedpretty,
                            contexturl: Some(Some(val)),
                            text: d.text,
                        },
                        n,
                    ),
                ),
                None => None,
            }
        }
    } else if name == "text"@ {
        if d.text is Some {
            None
        } else if sp_null(s) {
            Some(
                (
                    NotifDraft {
                        id: d.id,
                        subject: d.subject,
                        useridto: d.useridto,
                        timecreatedpretty: d.timecreatedpretty,
                        contexturl: d.contexturl,
                        text: Some(None),
                    },
                    4,
                ),
            )
        } else {
            match sp_string(s) {
                Some((val, n)) => Some(
                    (
                        NotifDraft {
                            id: d.id,
                            subject: d.subject,
                            useridto: d.useridto,
                            timecreatedpretty: d.timecreatedpretty,
                            contexturl: d.contexturl,
                            text: Some(Some(val)),
                        },
                        n,
                    ),
                ),
                None => None,
            }
        }
    } else {
        match sp_skip_value(s) {
            Some(n) => Some((d, n)),
            None => None,
        }
    }
}

/// A member's value consumes at least one character and never more than
/// the input.
pub proof fn lemma_notif_value_bounds(s: Seq<char>, d: NotifDraft, name: Seq<char>)
    ensures
        sp_notif_value(s, d, name) matches Some((d2, n)) ==> 1 <= n <= s.len(),
{
    lemma_string_bounds(s);
    lemma_number_bounds(s);
    lemma_skip_value_bounds(s);
}

/// Reads the members of one notification object, after its opening brace,
/// up to and including its closing brace, blank space welcome between
/// tokens.
pub open spec fn sp_notif_fields(s: Seq<char>, d: NotifDraft) -> Option<(NotificationV, int)>
    decreases s.len(),
    via sp_notif_fields_dec
{
    let w0 = spec_ws_len(s);
    let s0 = s.skip(w0);
    match sp_string(s0) {
        None => None,
        Some((name, n1)) => {
            let s1 = s0.skip(n1);
            let w1 = spec_ws_len(s1);
            let s1b = s1.skip(w1);
            if s1b.len() == 0 || s1b[0] != ':' {
                None
            } else {
                let s2 = s1b.skip(1);
                let w2 = spec_ws_len(s2);
                let s2b = s2.skip(w2);
                match sp_notif_value(s2b, d, name) {
                    None => None,
                    Some((d2, n2)) => {
                        let s3 = s2b.skip(n2);
                        let w3 = spec_ws_len(s3);
                        let s3b = s3.skip(w3);
                        if s3b.len() == 0 {
                            None
                        } else if s3b[0] == ',' {
                            match sp_notif_fields(s3b.skip(1), d2) {
                                Some((nv, n3)) => Some(
                                    (nv, w0 + n1 + w1 + 1 + w2 + n2 + w3 + 1 + n3),
                                ),
                                None => None,
                            }
                        } else if s3b[0] == '}' {
                            match finish_draft(d2) {
                                Some(nv) => Some((nv, w0 + n1 + w1 + 1 + w2 + n2 + w3 + 1)),
                                None => None,
                            }
                        } else {
                            None
                        }
                    },
                }
            }
        },
    }
}

#[via_fn]
proof fn sp_notif_fields_dec(s: Seq<char>, d: NotifDraft) {
    lemma_ws_len_bounds(s);
    let s0 = s.skip(spec_ws_len(s));
    lemma_string_bounds(s0);
    match sp_string(s0) {
        None => {},
        Some((name, n1)) => {
            let s1 = s0.skip(n1);
            lemma_ws_len_bounds(s1);
            let s1b = s1.skip(spec_ws_len(s1));
            if s1b.len() > 0 && s1b[0] == ':' {
                let s2 = s1b.skip(1);
                lemma_ws_len_bounds(s2);
                let s2b = s2.skip(spec_ws_len(s2));
                lemma_notif_value_bounds(s2b, d, name);
                match sp_notif_value(s2b, d, name) {
                    None => {},
                    Some((d2, n2)) => {
                        lemma_ws_len_bounds(s2b.skip(n2));
                    },
                }
            }
        },
    }
}

/// One notification object consumes at least its braces and never more
/// than the input.
#[verifier::rlimit(100)]
pub proof fn lemma_notif_fields_bounds(s: Seq<char>, d: NotifDraft)
    ensures
        sp_notif_fields(s, d) matches Some((nv, n)) ==> 1 <= n <= s.len(),
    decreases s.len(),
{
    lemma_ws_len_bounds(s);
    let s0 = s.skip(spec_ws_len(s));
    lemma_string_bounds(s0);
    match sp_string(s0) {
        None => {},
        Some((name, n1)) => {
            let s1 = s0.skip(n1);
            lemma_ws_len_bounds(s1);
            let s1b = s1.skip(spec_ws_len(s1));
            if s1b.len() > 0 && s1b[0] == ':' {
                let s2 = s1b.skip(1);
                lemma_ws_len_bounds(s2);
                let s2b = s2.skip(spec_ws_len(s2));
                lemma_notif_value_bounds(s2b, d, name);
                match sp_notif_value(s2b, d, name) {
                    None => {},
                    Some((d2, n2)) => {
                        let s3 = s2b.skip(n2);
                        lemma_ws_len_bounds(s3);
                        let s3b = s3.skip(spec_ws_len(s3));
                        assert(s0.len() == s.len() - spec_ws_len(s));
                        assert(s1.len() == s0.len() - n1);
                        assert(s1b.len() == s1.len() - spec_ws_len(s1));
                        assert(s2.len() == s1b.len() - 1);
                        assert(s2b.len() == s2.len() - spec_ws_len(s2));
                        assert(s3.len() == s2b.len() - n2);
                        assert(s3b.len() == s3.len() - spec_ws_len(s3));
                        if s3b.len() > 0 && s3b[0] == ',' {
                            lemma_notif_fields_bounds(s3b.skip(1), d2);
                        }
                    },
                }
            }
        },
    }
}

/// Reads the elements of a non-empty notification array: blank space,
/// one object, then either a comma and more elements or the closing
/// bracket.
pub open spec fn sp_notif_list(s: Seq<char>) -> Option<(Seq<NotificationV>, int)>
    decreases s.len(),
    via sp_notif_list_dec
{
    let w = spec_ws_len(s);
    let s0 = s.skip(w);
    if s0.len() == 0 || s0[0] != '{' {
        None
    } else {
        match sp_notif_fields(s0.skip(1), empty_draft()) {
            None => None,
            Some((nv, n)) => {
                let s1 = s0.skip(1 + n);
                let w1 = spec_ws_len(s1);
                let s1b = s1.skip(w1);
                if s1b.len() == 0 {
                    None
                } else if s1b[0] == ',' {
                    match sp_notif_list(s1b.skip(1)) {
                        Some((rest, m)) => Some((seq![nv] + rest, w + 1 + n + w1 + 1 + m)),
                        None => None,
                    }
                } else if s1b[0] == ']' {
                    Some((seq![nv], w + 1 + n + w1 + 1))
                } else {
                    None
                }
            },
        }
    }
}

#[via_fn]
proof fn sp_notif_list_dec(s: Seq<char>) {
    lemma_ws_len_bounds(s);
    let s0 = s.skip(spec_ws_len(s));
    if s0.len() > 0 && s0[0] == '{' {
        lemma_notif_fields_bounds(s0.skip(1), empty_draft());
        match sp_notif_fields(s0.skip(1), empty_draft()) {
            None => {},
            Some((nv, n)) => {
                lemma_ws_len_bounds(s0.skip(1 + n));
            },
        }
    }
}

/// A non-empty array consumes at least one object and its bracket, and
/// never more than the input.
pub proof fn lemma_notif_list_bounds(s: Seq<char>)
    ensures
        sp_notif_list(s) matches Some((items, n)) ==> 1 <= n <= s.len(),
    decreases s.len(),
{
    lemma_ws_len_bounds(s);
    let s0 = s.skip(spec_ws_len(s));
    if s0.len() > 0 && s0[0] == '{' {
        lemma_notif_fields_bounds(s0.skip(1), empty_draft());
        match sp_notif_fields(s0.skip(1), empty_draft()) {
            None => {},
            Some((nv, n)) => {
                let s1 = s0.skip(1 + n);
                lemma_ws_len_bounds(s1);
                let s1b = s1.skip(spec_ws_len(s1));
                assert(s0.len() == s.len() - spec_ws_len(s));
                assert(s1.len() == s0.len() - (1 + n));
                assert(s1b.len() == s1.len() - spec_ws_len(s1));
                if s1b.len() > 0 && s1b[0] == ',' {
                    lemma_notif_list_bounds(s1b.skip(1));
                }
            },
        }
    }
}

/// Reads a notification array: empty brackets, or bracketed elements,
/// blank space welcome inside.
pub open spec fn sp_notif_array(s: Seq<char>) -> Option<(Seq<NotificationV>, int)> {
    if s.len() > 0 && s[0] == '[' {
        let s1 = s.skip(1);
        let w = spec_ws_len(s1);
        let s1b = s1.skip(w);
        if s1b.len() > 0 && s1b[0] == ']' {
            Some((Seq::empty(), 1 + w + 1))
        } else {
            match sp_notif_list(s1) {
                Some((items, n)) => Some((items, 1 + n)),
                None => None,
            }
        }
    } else {
        None
    }
}

/// An array consumes at least its brackets and never more than the input.
pub proof fn lemma_notif_array_bounds(s: Seq<char>)
    ensures
        sp_notif_array(s) matches Some((items, n)) ==> 2 <= n <= s.len(),
{
    if s.len() > 0 && s[0] == '[' {
        lemma_ws_len_bounds(s.skip(1));
        lemma_notif_list_bounds(s.skip(1));
    }
}

/// Reads the value of one top-level member, named `name`, and folds it
/// into what has been gathered. A member with an unknown name is passed
/// over; a repeated member, a value of the wrong shape, or a count out of
/// range reads as nothing.
pub open spec fn sp_notifs_member(
    s: Seq<char>,
    notifs: Option<Seq<NotificationV>>,
    unread: Option<int>,
    name: Seq<char>,
) -> Option<(Option<Seq<NotificationV>>, Option<int>, int)> {
    if name == "notifications"@ {
        if notifs is Some {
            None
        } else {
            match sp_notif_array(s) {
                Some((items, n2)) => Some((Some(items), unread, n2)),
                None => None,
            }
        }
    } else if name == "unreadcount"@ {
        if unread is Some {
            None
        } else {
            match sp_number(s) {
                Some((val, n2)) => if val <= usize::MAX {
                    Some((notifs, Some(val), n2))
                } else {
                    None
                },
                None => None,
            }
        }
    } else {
        match sp_skip_value(s) {
            Some(n2) => Some((notifs, unread, n2)),
            None => None,
        }
    }
}

/// A top-level member's value consumes at least one character and never
/// more than the input.
pub proof fn lemma_notifs_member_bounds(
    s: Seq<char>,
    notifs: Option<Seq<NotificationV>>,
    unread: Option<int>,
    name: Seq<char>,
)
    ensures
        sp_notifs_member(s, notifs, unread, name) matches Some((nf, ur, n)) ==> 1 <= n <= s.len(),
{
    lemma_notif_array_bounds(s);
    lemma_number_bounds(s);
    lemma_skip_value_bounds(s);
}

/// Reads the members of the top-level document, after its opening brace:
/// the notification array and the unread count, in either order, each
/// exactly once.
pub open spec fn sp_notifs_fields(
    s: Seq<char>,
    notifs: Option<Seq<NotificationV>>,
    unread: Option<int>,
) -> Option<(NotificationsV, int)>
    decreases s.len(),
    via sp_notifs_fields_dec
{
    let w0 = spec_ws_len(s);
    let s0 = s.skip(w0);
    match sp_string(s0) {
        None => None,
        Some((name, n1)) => {
            let s1 = s0.skip(n1);
            let w1 = spec_ws_len(s1);
            let s1b = s1.skip(w1);
            if s1b.len() == 0 || s1b[0] != ':' {
                None
            } else {
                let sv = s1b.skip(1);
                let w2 = spec_ws_len(sv);
                let s2 = sv.skip(w2);
                let vres = sp_notifs_member(s2, notifs, unread, name);
                match vres {
                    None => None,
                    Some((notifs2, unread2, n2)) => {
                        let s3 = s2.skip(n2);
                        let w3 = spec_ws_len(s3);
                        let s3b = s3.skip(w3);
                        if s3b.len() == 0 {
                            None
                        } else if s3b[0] == ',' {
                            match sp_notifs_fields(s3b.skip(1), notifs2, unread2) {
                                Some((r, n3)) => Some(
                                    (r, w0 + n1 + w1 + 1 + w2 + n2 + w3 + 1 + n3),
                                ),
                                None => None,
                            }
                        } else if s3b[0] == '}' {
                            match (notifs2, unread2) {
                                (Some(items), Some(u)) => Some(
                                    (
                                        NotificationsV {
                                            notifications: items,
                                            unreadcount: u as usize,
                                        },
                                        w0 + n1 + w1 + 1 + w2 + n2 + w3 + 1,
                                    ),
                                ),
                                _ => None,
                            }
                        } else {
                            None
                        }
                    },
                }
            }
        },
    }
}

#[via_fn]
proof fn sp_notifs_fields_dec(
    s: Seq<char>,
    notifs: Option<Seq<NotificationV>>,
    unread: Option<int>,
) {
    lemma_ws_len_bounds(s);
    let s0 = s.skip(spec_ws_len(s));
    lemma_string_bounds(s0);
    match sp_string(s0) {
        None => {},
        Some((name, n1)) => {
            let s1 = s0.skip(n1);
            lemma_ws_len_bounds(s1);
            let s1b = s1.skip(spec_ws_len(s1));
            if s1b.len() > 0 && s1b[0] == ':' {
                let sv = s1b.skip(1);
                lemma_ws_len_bounds(sv);
                let s2 = sv.skip(spec_ws_len(sv));
                lemma_notifs_member_bounds(s2, notifs, unread, name);
                match sp_notifs_member(s2, notifs, unread, name) {
                    None => {},
                    Some((nf, ur, n2)) => {
                        lemma_ws_len_bounds(s2.skip(n2));
                    },
                }
            }
        },
    }
}

/// The document's members consume at least the closing brace and never
/// more than the input.
#[verifier::rlimit(100)]
pub proof fn lemma_notifs_fields_bounds(
    s: Seq<char>,
    notifs: Option<Seq<NotificationV>>,
    unread: Option<int>,
)
    ensures
        sp_notifs_fields(s, notifs, unread) matches Some((r, n)) ==> 1 <= n <= s.len(),
    decreases s.len(),
{
    lemma_ws_len_bounds(s);
    let s0 = s.skip(spec_ws_len(s));
    lemma_string_bounds(s0);
    match sp_string(s0) {
        None => {},
        Some((name, n1)) => {
            let s1 = s0.skip(n1);
            lemma_ws_len_bounds(s1);
            let s1b = s1.skip(spec_ws_len(s1));
            if s1b.len() > 0 && s1b[0] == ':' {
                let sv = s1b.skip(1);
                lemma_ws_len_bounds(sv);
                let s2 = sv.skip(spec_ws_len(sv));
                lemma_notifs_member_bounds(s2, notifs, unread, name);
                let vres = sp_notifs_member(s2, notifs, unread, name);
                match vres {
                    None => {},
                    Some((notifs2, unread2, n2)) => {
                        let s3 = s2.skip(n2);
                        lemma_ws_len_bounds(s3);
                        let s3b = s3.skip(spec_ws_len(s3));
                        assert(s0.len() == s.len() - spec_ws_len(s));
                        assert(s1.len() == s0.len() - n1);
                        assert(s1b.len() == s1.len() - spec_ws_len(s1));
                        assert(sv.len() == s1b.len() - 1);
                        assert(s2.len() == sv.len() - spec_ws_len(sv));
                        assert(s3.len() == s2.len() - n2);
                        assert(s3b.len() == s3.len() - spec_ws_len(s3));
                        if s3b.len() > 0 && s3b[0] == ',' {
                            lemma_notifs_fields_bounds(s3b.skip(1), notifs2, unread2);
                        }
                    },
                }
            }
        },
    }
}

/// Reads a whole notification document: an object of the two members,
/// with nothing but blank space around it.
pub open spec fn sp_notifications(s: Seq<char>) -> Option<NotificationsV> {
    let w = spec_ws_len(s);
    let s0 = s.skip(w);
    if s0.len() > 0 && s0[0] == '{' {
        match sp_notifs_fields(s0.skip(1), None, None) {
            Some((nv, n)) => {
                let rest = s0.skip(1 + n);
                if spec_ws_len(rest) == rest.len() {
                    Some(nv)
                } else {
                    None
                }
            },
            None => None,
        }
    } else {
        None
    }
}

// ---------------------------------------------------------------------
// The executable reader.
// ---------------------------------------------------------------------

struct DraftX {
    id: Option<u64>,
    subject: Option<String>,
    useridto: Option<u32>,
    timecreatedpretty: Option<String>,
    contexturl: Option<Option<String>>,
    text: Option<Option<String>>,
}

spec fn draft_view(d: DraftX) -> NotifDraft {
    NotifDraft {
        id: match d.id {
            Some(x) => Some(x as int),
            None => None,
        },
        subject: match d.subject {
            Some(x) => Some(x@),
            None => None,
        },
        useridto: match d.useridto {
            Some(x) => Some(x as int),
            None => None,
        },
        timecreatedpretty: match d.timecreatedpretty {
            Some(x) => Some(x@),
            None => None,
        },
        contexturl: match d.contexturl {
            Some(Some(x)) => Some(Some(x@)),
            Some(None) => Some(None),
            None => None,
        },
        text: match d.text {
            Some(Some(x)) => Some(Some(x@)),
            Some(None) => Some(None),
            None => None,
        },
    }
}

fn p_notif_value(v: &[char], i: usize, d: DraftX, name: &String) -> (r: Option<(DraftX, usize)>)
    requires
        i <= v@.len(),
    ensures
        (match sp_notif_value(v@.skip(i as int), draft_view(d), name@) {
            Some((d2, n)) => r matches Some((dx, j)) && draft_view(dx) == d2 && j == i + n,
            None => r is None,
        }),
{
    if str_eq(name, "id") {
        if d.id.is_some() {
            return None;
        }
        match p_number_u64(v, i) {
            Some((x, j)) => Some(
                (
                    DraftX {
                        id: Some(x),
                        subject: d.subject,
                        useridto: d.useridto,
                        timecreatedpretty: d.timecreatedpretty,
                        contexturl: d.contexturl,
                        text: d.text,
                    },
                    j,
                ),
            ),
            None => None,
        }
    } else if str_eq(name, "subject") {
        if d.subject.is_some() {
            return None;
        }
        match p_string(v, i) {
            Some((x, j)) => Some(
                (
                    DraftX {
                        id: d.id,
                        subject: Some(x),
                        useridto: d.useridto,
                        timecreatedpretty: d.timecreatedpretty,
                        contexturl: d.contexturl,
                        text: d.text,
                    },
                    j,
                ),
            ),
            None => None,
        }
    } else if str_eq(name, "useridto") {
        if d.useridto.is_some() {
            return None;
        }
        match p_number_u64(v, i) {
            Some((x, j)) => {
                if x <= 0xffff_ffffu64 {
                    Some(
                        (
                            DraftX {
                                id: d.id,
                                subject: d.subject,
                                useridto: Some(x as u32),
                                timecreatedpretty: d.timecreatedpretty,
                                contexturl: d.contexturl,
                                text: d.text,
                            },
                            j,
                        ),
                    )
                } else {
                    None
                }
            },
            None => None,
        }
    } else if str_eq(name, "timecreatedpretty") {
        if d.timecreatedpretty.is_some() {
            return None;
        }
        match p_string(v, i) {
            Some((x, j)) => Some(
                (
                    DraftX {
                        id: d.id,
                        subject: d.subject,
                        useridto: d.useridto,
                        timecreatedpretty: Some(x),
                        contexturl: d.contexturl,
                        text: d.text,
                    },
                    j,
                ),
            ),
            None => None,
        }
    } else if str_eq(name, "contexturl") {
        if d.contexturl.is_some() {
            return None;
        }
        if p_null(v, i) {
            let n = v.len();
            proof {
                assert(v@.skip(i as int).len() >= 4);
                assert(i + 4 <= n);
            }
            return Some(
                (
                    DraftX {
                        id: d.id,
                        subject: d.subject,
                        useridto: d.useridto,
                        timecreatedpretty: d.timecreatedpretty,
                        contexturl: Some(None),
                        text: d.text,
                    },
                    i + 4,
                ),
            );
        }
        match p_string(v, i) {
            Some((x, j)) => Some(
                (
                    DraftX {
                        id: d.id,
                        subject: d.subject,
                        useridto: d.useridto,
                        timecreatedpretty: d.timecreatedpretty,
                        contexturl: Some(Some(x)),
                        text: d.text,
                    },
                    j,
                ),
            ),
            None => None,
        }
    } else if str_eq(name, "text") {
        if d.text.is_some() {
            return None;
        }
        if p_null(v, i) {
            let n = v.len();
            proof {
                assert(v@.skip(i as int).len() >= 4);
                assert(i + 4 <= n);
            }
            return Some(
                (
                    DraftX {
                        id: d.id,
                        subject: d.subject,
                        useridto: d.useridto,
                        timecreatedpretty: d.timecreatedpretty,
                        contexturl: d.contexturl,
                        text: Some(None),
                    },
                    i + 4,
                ),
            );
        }
        match p_string(v, i) {
            Some((x, j)) => Some(
                (
                    DraftX {
                        id: d.id,
                        subject: d.subject,
                        useridto: d.useridto,
                        timecreatedpretty: d.timecreatedpretty,
                        contexturl: d.contexturl,
                        text: Some(Some(x)),
                    },
                    j,
                ),
            ),
            None => None,
        }
    } else {
        match p_skip_value(v, i) {
            Some(j) => Some((d, j)),
            None => None,
        }
    }
}

#[verifier::rlimit(100)]
fn p_notif_fields(v: &[char], i: usize, d: DraftX) -> (r: Option<(Notification, usize)>)
    requires
        i <= v@.len(),
    ensures
        (match sp_notif_fields(v@.skip(i as int), draft_view(d)) {
            Some((nv, n)) => r matches Some((x, j)) && x@ == nv && j == i + n,
            None => r is None,
        }),
    decreases v@.len() - i,
{
    let ghost s = v@.skip(i as int);
    let j0 = p_ws(v, i);
    proof {
        lemma_skip_skip(v@, i as int, j0 - i);
        assert(s.skip(j0 - i) == v@.skip(j0 as int));
    }
    match p_string(v, j0) {
        None => None,
        Some((name, j1)) => {
            proof {
                lemma_string_bounds(v@.skip(j0 as int));
                lemma_skip_skip(v@, j0 as int, j1 - j0);
                assert(v@.skip(j0 as int).skip(j1 - j0) == v@.skip(j1 as int));
            }
            let j1b = p_ws(v, j1);
            proof {
                lemma_skip_skip(v@, j1 as int, j1b - j1);
                assert(v@.skip(j1 as int).skip(j1b - j1) == v@.skip(j1b as int));
            }
            if j1b == v.len() || v[j1b] != ':' {
                proof {
                    if j1b < v.len() {
                        assert(v@.skip(j1b as int)[0] == v@[j1b as int]);
                    }
                }
                None
            } else {
                assert(v@.skip(j1b as int)[0] == v@[j1b as int]);
                proof {
                    lemma_skip_skip(v@, j1b as int, 1);
                    assert(v@.skip(j1b as int).skip(1) == v@.skip(j1b as int + 1));
                }
                let j2w = p_ws(v, j1b + 1);
                proof {
                    lemma_skip_skip(v@, j1b as int + 1, j2w - (j1b + 1));
                    assert(v@.skip(j1b as int + 1).skip(j2w - (j1b + 1)) == v@.skip(j2w as int));
                }
                match p_notif_value(v, j2w, d, &name) {
                    None => None,
                    Some((d2, j2)) => {
                        proof {
                            lemma_notif_value_bounds(
                                v@.skip(j2w as int),
                                draft_view(d),
                                name@,
                            );
                            lemma_skip_skip(v@, j2w as int, j2 - j2w);
                            assert(v@.skip(j2w as int).skip(j2 - j2w) == v@.skip(
                                j2 as int,
                            ));
                        }
                        let j3 = p_ws(v, j2);
                        proof {
                            lemma_skip_skip(v@, j2 as int, j3 - j2);
                            assert(v@.skip(j2 as int).skip(j3 - j2) == v@.skip(j3 as int));
                        }
                        if j3 == v.len() {
                            return None;
                        }
                        let c = v[j3];
                        assert(v@.skip(j3 as int)[0] == v@[j3 as int]);
                        if c == ',' {
                            proof {
                                lemma_skip_skip(v@, j3 as int, 1);
                                assert(v@.skip(j3 as int).skip(1) == v@.skip(j3 as int + 1));
                            }
                            p_notif_fields(v, j3 + 1, d2)
                        } else if c == '}' {
                            match (d2.id, d2.subject, d2.useridto, d2.timecreatedpretty) {
                                (Some(idv), Some(subj), Some(uid), Some(tc)) => {
                                    let ctx: Option<String> = match d2.contexturl {
                                        Some(x) => x,
                                        None => None,
                                    };
                                    let txt: Option<String> = match d2.text {
                                        Some(x) => x,
                                        None => None,
                                    };
                                    Some(
                                        (
                                            Notification {
                                                id: idv,
                                                subject: subj,
                                                contexturl: ctx,
                                                useridto: uid,
                                                text: txt,
                                                timecreatedpretty: tc,
                                            },
                                            j3 + 1,
                                        ),
                                    )
                                },
                                _ => None,
                            }
                        } else {
                            None
                        }
                    },
                }
            }
        },
    }
}

#[verifier::rlimit(100)]
fn p_notif_list(v: &[char], i: usize) -> (r: Option<(Vec<Notification>, usize)>)
    requires
        i <= v@.len(),
    ensures
        (match sp_notif_list(v@.skip(i as int)) {
            Some((items, n)) => r matches Some((xs, j)) && xs@.map_values(|x: Notification| x@)
                == items && j == i + n,
            None => r is None,
        }),
    decreases v@.len() - i,
{
    let ghost s = v@.skip(i as int);
    let j0 = p_ws(v, i);
    proof {
        lemma_skip_skip(v@, i as int, j0 - i);
        assert(s.skip(j0 - i) == v@.skip(j0 as int));
    }
    if j0 == v.len() {
        return None;
    }
    let c = v[j0];
    assert(v@.skip(j0 as int)[0] == v@[j0 as int]);
    if c != '{' {
        return None;
    }
    proof {
        lemma_skip_skip(v@, j0 as int, 1);
        assert(v@.skip(j0 as int).skip(1) == v@.skip(j0 as int + 1));
    }
    let d0 = DraftX {
        id: None,
        subject: None,
        useridto: None,
        timecreatedpretty: None,
        contexturl: None,
        text: None,
    };
    proof {
        assert(draft_view(d0) == empty_draft());
    }
    match p_notif_fields(v, j0 + 1, d0) {
        None => None,
        Some((x, j1)) => {
            proof {
                lemma_notif_fields_bounds(v@.skip(j0 as int + 1), empty_draft());
                lemma_skip_skip(v@, j0 as int, j1 - j0);
                assert(v@.skip(j0 as int).skip(j1 - j0) == v@.skip(j1 as int));
            }
            let j1b = p_ws(v, j1);
            proof {
                lemma_skip_skip(v@, j1 as int, j1b - j1);
                assert(v@.skip(j1 as int).skip(j1b - j1) == v@.skip(j1b as int));
            }
            if j1b == v.len() {
                return None;
            }
            let c1 = v[j1b];
            assert(v@.skip(j1b as int)[0] == v@[j1b as int]);
            if c1 == ',' {
                proof {
                    lemma_skip_skip(v@, j1b as int, 1);
                    assert(v@.skip(j1b as int).skip(1) == v@.skip(j1b as int + 1));
                }
                match p_notif_list(v, j1b + 1) {
                    None => None,
                    Some((rest, j2)) => {
                        let ghost rest0 = rest@;
                        let mut xs = rest;
                        xs.insert(0, x);
                        proof {
                            assert(xs@.map_values(|y: Notification| y@) =~= seq![x@]
                                + rest0.map_values(|y: Notification| y@));
                        }
                        Some((xs, j2))
                    },
                }
            } else if c1 == ']' {
                let mut xs: Vec<Notification> = Vec::new();
                xs.push(x);
                proof {
                    assert(xs@.map_values(|y: Notification| y@) =~= seq![x@]);
                }
                Some((xs, j1b + 1))
            } else {
                None
            }
        },
    }
}

fn p_notif_array(v: &[char], i: usize) -> (r: Option<(Vec<Notification>, usize)>)
    requires
        i <= v@.len(),
    ensures
        (match sp_notif_array(v@.skip(i as int)) {
            Some((items, n)) => r matches Some((xs, j)) && xs@.map_values(|x: Notification| x@)
                == items && j == i + n,
            None => r is None,
        }),
{
    let n = v.len();
    if i == n {
        return None;
    }
    proof {
        assert(v@.skip(i as int)[0] == v@[i as int]);
    }
    if v[i] != '[' {
        return None;
    }
    proof {
        lemma_skip_skip(v@, i as int, 1);
        assert(v@.skip(i as int).skip(1) == v@.skip(i as int + 1));
    }
    let j0 = p_ws(v, i + 1);
    proof {
        lemma_skip_skip(v@, i as int + 1, j0 - (i + 1));
        assert(v@.skip(i as int + 1).skip(j0 - (i + 1)) == v@.skip(j0 as int));
    }
    if j0 < n && v[j0] == ']' {
        assert(v@.skip(j0 as int)[0] == v@[j0 as int]);
        let xs: Vec<Notification> = Vec::new();
        proof {
            assert(xs@.map_values(|x: Notification| x@) =~= Seq::<NotificationV>::empty());
        }
        return Some((xs, j0 + 1));
    }
    proof {
        if j0 < n {
            assert(v@.skip(j0 as int)[0] == v@[j0 as int]);
        }
    }
    p_notif_list(v, i + 1)
}

spec fn opt_items_view(o: Option<Vec<Notification>>) -> Option<Seq<NotificationV>> {
    match o {
        Some(v) => Some(v@.map_values(|x: Notification| x@)),
        None => None,
    }
}

spec fn opt_usize_view(o: Option<usize>) -> Option<int> {
    match o {
        Some(x) => Some(x as int),
        None => None,
    }
}

#[verifier::rlimit(100)]
fn p_notifs_member(
    v: &[char],
    i: usize,
    notifs: Option<Vec<Notification>>,
    unread: Option<usize>,
    name: &String,
) -> (r: Option<(Option<Vec<Notification>>, Option<usize>, usize)>)
    requires
        i <= v@.len(),
    ensures
        (match sp_notifs_member(v@.skip(i as int), opt_items_view(notifs), opt_usize_view(unread),
            name@,
        ) {
            Some((nf, ur, n)) => r matches Some((nf2, ur2, j)) && opt_items_view(nf2) == nf
                && opt_usize_view(ur2) == ur && j == i + n,
            None => r is None,
        }),
{
    if str_eq(name, "notifications") {
        if notifs.is_some() {
            None
        } else {
            match p_notif_array(v, i) {
                Some((items, j2)) => Some((Some(items), unread, j2)),
                None => None,
            }
        }
    } else if str_eq(name, "unreadcount") {
        if unread.is_some() {
            None
        } else {
            match p_number_u64(v, i) {
                Some((x, j2)) => {
                    if x <= usize::MAX as u64 {
                        Some((notifs, Some(x as usize), j2))
                    } else {
                        None
                    }
                },
                None => None,
            }
        }
    } else {
        match p_skip_value(v, i) {
            Some(j2) => Some((notifs, unread, j2)),
            None => None,
        }
    }
}

#[verifier::rlimit(100)]
fn p_notifs_fields(
    v: &[char],
    i: usize,
    notifs: Option<Vec<Notification>>,
    unread: Option<usize>,
) -> (r: Option<(Notifications, usize)>)
    requires
        i <= v@.len(),
    ensures
        (match sp_notifs_fields(v@.skip(i as int), opt_items_view(notifs), opt_usize_view(
            unread,
        )) {
            Some((nv, n)) => r matches Some((x, j)) && x@ == nv && j == i + n,
            None => r is None,
        }),
    decreases v@.len() - i,
{
    let ghost s = v@.skip(i as int);
    let j0 = p_ws(v, i);
    proof {
        lemma_skip_skip(v@, i as int, j0 - i);
        assert(s.skip(j0 - i) == v@.skip(j0 as int));
    }
    match p_string(v, j0) {
        None => None,
        Some((name, j1)) => {
            proof {
                lemma_string_bounds(v@.skip(j0 as int));
                lemma_skip_skip(v@, j0 as int, j1 - j0);
                assert(v@.skip(j0 as int).skip(j1 - j0) == v@.skip(j1 as int));
            }
            let j1b = p_ws(v, j1);
            proof {
                lemma_skip_skip(v@, j1 as int, j1b - j1);
                assert(v@.skip(j1 as int).skip(j1b - j1) == v@.skip(j1b as int));
            }
            if j1b == v.len() || v[j1b] != ':' {
                proof {
                    if j1b < v.len() {
                        assert(v@.skip(j1b as int)[0] == v@[j1b as int]);
                    }
                }
                None
            } else {
                assert(v@.skip(j1b as int)[0] == v@[j1b as int]);
                proof {
                    lemma_skip_skip(v@, j1b as int, 1);
                    assert(v@.skip(j1b as int).skip(1) == v@.skip(j1b as int + 1));
                }
                let j2w = p_ws(v, j1b + 1);
                proof {
                    lemma_skip_skip(v@, j1b as int + 1, j2w - (j1b + 1));
                    assert(v@.skip(j1b as int + 1).skip(j2w - (j1b + 1)) == v@.skip(j2w as int));
                }
                let vres = p_notifs_member(v, j2w, notifs, unread, &name);
                match vres {
                    None => None,
                    Some((notifs2, unread2, j2)) => {
                        proof {
                            lemma_notifs_member_bounds(
                                v@.skip(j2w as int),
                                opt_items_view(notifs),
                                opt_usize_view(unread),
                                name@,
                            );
                            lemma_skip_skip(v@, j2w as int, j2 - j2w);
                            assert(v@.skip(j2w as int).skip(j2 - j2w) == v@.skip(
                                j2 as int,
                            ));
                        }
                        let j3 = p_ws(v, j2);
                        proof {
                            lemma_skip_skip(v@, j2 as int, j3 - j2);
                            assert(v@.skip(j2 as int).skip(j3 - j2) == v@.skip(j3 as int));
                        }
                        if j3 == v.len() {
                            return None;
                        }
                        let c = v[j3];
                        assert(v@.skip(j3 as int)[0] == v@[j3 as int]);
                        if c == ',' {
                            proof {
                                lemma_skip_skip(v@, j3 as int, 1);
                                assert(v@.skip(j3 as int).skip(1) == v@.skip(j3 as int + 1));
                            }
                            p_notifs_fields(v, j3 + 1, notifs2, unread2)
                        } else if c == '}' {
                            match (notifs2, unread2) {
                                (Some(items), Some(u)) => Some(
                                    (
                                        Notifications { notifications: items, unreadcount: u },
                                        j3 + 1,
                                    ),
                                ),
                                _ => None,
                            }
                        } else {
                            None
                        }
                    },
                }
            }
        },
    }
}

/// Reads a fetch response body. Yields the notifications exactly when the
/// body is a well-formed notification document; any other body, whatever
/// its shape, reads as a decode error.
pub fn parse_notifications(s: &str) -> (r: Result<Notifications, FetchError>)
    ensures
        (match sp_notifications(s@) {
            Some(nv) => r matches Ok(x) && x@ == nv,
            None => r matches Err(e) && e == FetchError::DecodeError,
        }),
{
    let v = str_to_chars(s);
    proof {
        assert(v@.skip(0) =~= v@);
    }
    let j0 = p_ws(v.as_slice(), 0);
    if j0 == v.len() {
        return Err(FetchError::DecodeError);
    }
    let first = v[j0];
    proof {
        assert(v@.skip(j0 as int)[0] == v@[j0 as int]);
    }
    if first != '{' {
        return Err(FetchError::DecodeError);
    }
    proof {
        lemma_skip_skip(v@, j0 as int, 1);
        assert(v@.skip(j0 as int).skip(1) == v@.skip(j0 as int + 1));
    }
    match p_notifs_fields(v.as_slice(), j0 + 1, None, None) {
        None => Err(FetchError::DecodeError),
        Some((x, j)) => {
            proof {
                lemma_notifs_fields_bounds(v@.skip(j0 as int + 1), None, None);
                lemma_skip_skip(v@, j0 as int, j - j0);
                assert(v@.skip(j0 as int).skip(j - j0) == v@.skip(j as int));
            }
            let jr = p_ws(v.as_slice(), j);
            if jr == v.len() {
                Ok(x)
            } else {
                Err(FetchError::DecodeError)
            }
        },
    }
}

} // verus!
