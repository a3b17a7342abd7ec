//! The provider client: credentials, regional endpoint selection, request
//! assembly and response interpretation.
//!
//! The HTTP exchange itself is not performed here: `request` assembles
//! everything the transport needs (URL, Basic-auth credentials, form
//! parameters), and `interpret_response` classifies whatever status and
//! body came back.

use vstd::prelude::*;
use crate::address::EmailAddress;
use crate::json::{keys_unique, lookup, parse_flat_object, pairs_view};
use crate::json::{keys_unique_exec, lookup_value, parse_flat_json};
use crate::message::Message;

verus! {

/// The provider account: domain, API key, and an optional regional
/// base-URL override.
pub struct Mailgun {
    pub domain: String,
    pub api_key: String,
    pub zone: Option<String>,
}

/// The provider's default global base URL.
pub open spec fn default_base() -> Seq<char> {
    "https://api.mailgun.net/v3"@
}

/// The provider's reply to an accepted send: a status message and the
/// assigned message id.
#[derive(Debug, Clone, PartialEq)]
pub struct SendResponse {
    pub message: String,
    pub id: String,
}

/// Why a send failed.
///
/// `Transport`: the request could not be sent or the response not
/// received; constructed by the transport layer, never here.
/// `Rejected`: the provider answered with a non-2xx status; carries the
/// raw response body verbatim.
/// `Malformed`: the provider answered 2xx but the body was not the
/// expected JSON shape; carries the raw body.
#[derive(Debug, Clone, PartialEq)]
pub enum SendError {
    Transport(String),
    Rejected(String),
    Malformed(String),
}

/// The outcome of a send call.
pub type SendResult<T> = Result<T, SendError>;

/// Everything the HTTP transport needs for the one exchange of a send:
/// the target URL, the Basic-auth credentials, and the form parameters.
pub struct SendRequest {
    pub url: String,
    pub username: String,
    pub password: String,
    pub params: Vec<(String, String)>,
}

/// The meaning of a success body: a flat JSON object of strings, no
/// member repeated, with `message` and `id` members, which this gives
/// back; anything else is malformed.
pub open spec fn response_of(body: Seq<char>) -> Option<(Seq<char>, Seq<char>)> {
    match parse_flat_object(body) {
        None => None,
        Some(entries) => if !keys_unique(entries) {
            None
        } else {
            match (lookup(entries, "message"@), lookup(entries, "id"@)) {
                (Some(m), Some(i)) => Some((m, i)),
                _ => None,
            }
        },
    }
}

impl Mailgun {
    /// The regional override, if one is set.
    pub open spec fn zone_view(&self) -> Option<Seq<char>> {
        match self.zone {
            Some(ref z) => Some(z@),
            None => None,
        }
    }

    /// The base URL a send will target: the zone when set, else the
    /// default global endpoint.
    pub open spec fn base_spec(&self) -> Seq<char> {
        match self.zone_view() {
            Some(z) => z,
            None => default_base(),
        }
    }

    /// The part of the target URL that the zone never touches.
    pub open spec fn url_suffix(&self) -> Seq<char> {
        "/"@ + self.domain@ + "/"@ + "messages"@
    }

    /// The full target URL: `base/domain/messages`.
    pub open spec fn url_spec(&self) -> Seq<char> {
        self.base_spec() + self.url_suffix()
    }

    /// A client for the given account domain and API key, with no
    /// regional override.
    pub fn new(domain: &str, api_key: &str) -> (r: Self)
        ensures
            r.domain@ == domain@,
            r.api_key@ == api_key@,
            r.zone_view() is None,
    {
        Mailgun { domain: domain.to_owned(), api_key: api_key.to_owned(), zone: None }
    }

    /// Set the regional base URL; domain and key are untouched.
    pub fn set_zone(&mut self, zone: &str)
        ensures
            final(self).zone_view() == Some(zone@),
            final(self).domain == old(self).domain,
            final(self).api_key == old(self).api_key,
    {
        self.zone = Some(zone.to_owned());
    }

    /// The URL a send will target.
    pub fn message_url(&self) -> (r: String)
        ensures
            r@ == self.url_spec(),
    {
        let mut out: String = match self.zone {
            Some(ref z) => z.clone(),
            None => String::from_str("https://api.mailgun.net/v3"),
        };
        out.append("/");
        out.append(self.domain.as_str());
        out.append("/");
        out.append("messages");
        proof {
            assert(out@ =~= self.url_spec());
        }
        out
    }

    /// Assemble the one request of a send: the message's parameters with
    /// `from` set to the rendered sender appended after them, the target
    /// URL, and Basic-auth credentials with the literal user name `api`
    /// and the client's key.
    pub fn request(&self, sender: &EmailAddress, msg: &Message) -> (r: SendRequest)
        requires
            msg.wf(),
        ensures
            r.url@ == self.url_spec(),
            r.username@ == "api"@,
            r.password@ == self.api_key@,
            pairs_view(r.params@) == msg.params_spec() + seq![("from"@, sender.render_spec())],
    {
        let mut params = msg.params();
        params.push((String::from_str("from"), sender.render()));
        proof {
            assert(pairs_view(params@) =~= msg.params_spec() + seq![("from"@, sender.render_spec())]);
        }
        SendRequest {
            url: self.message_url(),
            username: String::from_str("api"),
            password: self.api_key.clone(),
            params,
        }
    }
}

/// Classify the provider's answer. A non-2xx status is `Rejected`, with
/// the raw body verbatim; a 2xx status whose body holds `message` and
/// `id` is success; any other 2xx body is `Malformed`.
pub fn interpret_response(status: u16, body: &str) -> (r: SendResult<SendResponse>)
    ensures
        match r {
            Ok(resp) => 200 <= status < 300 && response_of(body@) == Some((resp.message@, resp.id@)),
            Err(e) => match e {
                SendError::Rejected(t) => !(200 <= status < 300) && t@ == body@,
                SendError::Malformed(t) => 200 <= status < 300 && response_of(body@) is None && t@ == body@,
                SendError::Transport(_) => false,
            },
        },
{
    if !(200 <= status && status < 300) {
        return Err(SendError::Rejected(body.to_owned()));
    }
    match parse_flat_json(body) {
        None => Err(SendError::Malformed(body.to_owned())),
        Some(entries) => {
            if !keys_unique_exec(&entries) {
                return Err(SendError::Malformed(body.to_owned()));
            }
            let msg = lookup_value(&entries, "message");
            let id = lookup_value(&entries, "id");
            match (msg, id) {
                (Some(m), Some(i)) => Ok(SendResponse { message: m, id: i }),
                _ => Err(SendError::Malformed(body.to_owned())),
            }
        },
    }
}

impl Default for Mailgun {
    /// A client with empty domain and key and no regional override.
    fn default() -> (r: Self)
        ensures
            r.domain@ =~= Seq::<char>::empty(),
            r.api_key@ =~= Seq::<char>::empty(),
            r.zone_view() is None,
    {
        Mailgun { domain: String::new(), api_key: String::new(), zone: None }
    }
}

} // verus!
