//! A polling client for Moodle's notification web service.
//!
//! The crate holds the logic of the client: building the tokenized request
//! URLs, reading the JSON documents that the service and the config file
//! carry, rendering the HTML views, deciding what a tick of the poll loop
//! does, and interpreting the commands that come back from the display
//! surface. Everything that touches the file system, the network or the
//! native web view lives outside, hands these functions plain values, and
//! takes plain values back.

use vstd::prelude::*;

pub mod api;
pub mod commands;
pub mod config;
pub mod html;
pub mod json;
pub mod poll;
pub mod text;

verus! {

/// Where a fresh installation points before the user has configured it.
pub open spec fn spec_default_location() -> Seq<char> {
    "https://cms.bits-hyderabad.ac.in"@
}

/// The connection settings: the base URL of the Moodle server and the
/// web-service token that authenticates every request.
///
/// A well-formed value carries no trailing slash on the location; see
/// [`Config::wf`].
#[derive(Debug)]
pub struct Config {
    pub moodle_location: String,
    pub token: String,
}

/// The mathematical value of a [`Config`]: its two fields as character
/// sequences.
pub struct ConfigV {
    pub moodle_location: Seq<char>,
    pub token: Seq<char>,
}

impl View for Config {
    type V = ConfigV;

    open spec fn view(&self) -> ConfigV {
        ConfigV { moodle_location: self.moodle_location@, token: self.token@ }
    }
}

impl Clone for Config {
    fn clone(&self) -> (r: Self)
        ensures
            r@ == self@,
    {
        Config { moodle_location: self.moodle_location.clone(), token: self.token.clone() }
    }
}

impl Config {
    /// A location is normalized when it does not end in `/`.
    pub open spec fn location_normalized(self) -> bool {
        self@.moodle_location.len() > 0 ==> self@.moodle_location.last() != '/'
    }

    /// The configuration a fresh installation starts from: the default
    /// location and an empty token.
    pub fn get_initial_config() -> (r: Config)
        ensures
            r@.moodle_location == spec_default_location(),
            r@.token == Seq::<char>::empty(),
            r.location_normalized(),
    {
        let r = Config {
            moodle_location: "https://cms.bits-hyderabad.ac.in".to_owned(),
            token: String::new(),
        };
        proof {
            reveal_strlit("https://cms.bits-hyderabad.ac.in");
        }
        r
    }
}

/// One notification as the service reports it.
#[derive(Debug)]
pub struct Notification {
    pub id: u64,
    pub subject: String,
    pub contexturl: Option<String>,
    pub useridto: u32,
    pub text: Option<String>,
    pub timecreatedpretty: String,
}

/// The mathematical value of a [`Notification`].
pub struct NotificationV {
    pub id: u64,
    pub subject: Seq<char>,
    pub contexturl: Option<Seq<char>>,
    pub useridto: u32,
    pub text: Option<Seq<char>>,
    pub timecreatedpretty: Seq<char>,
}

impl View for Notification {
    type V = NotificationV;

    open spec fn view(&self) -> NotificationV {
        NotificationV {
            id: self.id,
            subject: self.subject@,
            contexturl: match self.contexturl {
                Some(u) => Some(u@),
                None => None,
            },
            useridto: self.useridto,
            text: match self.text {
                Some(t) => Some(t@),
                None => None,
            },
            timecreatedpretty: self.timecreatedpretty@,
        }
    }
}

/// What one fetch returns: the unread notifications and the server's count
/// of them.
#[derive(Debug)]
pub struct Notifications {
    pub notifications: Vec<Notification>,
    pub unreadcount: usize,
}

/// The mathematical value of a [`Notifications`].
pub struct NotificationsV {
    pub notifications: Seq<NotificationV>,
    pub unreadcount: usize,
}

impl View for Notifications {
    type V = NotificationsV;

    open spec fn view(&self) -> NotificationsV {
        NotificationsV {
            notifications: self.notifications@.map_values(|n: Notification| n@),
            unreadcount: self.unreadcount,
        }
    }
}

/// Why a fetch produced no notifications: the transport failed, or the body
/// did not hold the expected JSON document.
#[derive(Debug, PartialEq, Eq)]
pub enum FetchError {
    /// The request itself failed: the server was unreachable or answered
    /// outside the success range. Carries the transport's own description.
    TransportError(String),
    /// The response body was not a notification document.
    DecodeError,
}

impl FetchError {
    /// A plain-text description, fit for the error view.
    pub fn message(&self) -> (r: String)
        ensures
            match self {
                FetchError::TransportError(m) => r@ == m@,
                FetchError::DecodeError => r@ == "could not decode the server's response"@,
            },
    {
        match self {
            FetchError::TransportError(m) => m.clone(),
            FetchError::DecodeError => "could not decode the server's response".to_owned(),
        }
    }
}

} // verus!
