//! The server address the player typed or picked.

use vstd::prelude::*;
use crate::text::{strip_prefix_str, to_owned_string, trim_spec, trim_str};

verus! {

/// The text to read as `IP:port`: the input trimmed, without a leading `https://` or,
/// failing that, `http://`.
pub open spec fn address_text_spec(input: Seq<char>) -> Seq<char> {
    let t = trim_spec(input);
    if "https://"@.is_prefix_of(t) {
        t.skip(8)
    } else if "http://"@.is_prefix_of(t) {
        t.skip(7)
    } else {
        t
    }
}

/// The text to read as `IP:port` (see [`address_text_spec`]).
pub fn address_text(input: &str) -> (r: &str)
    ensures
        r@ == address_text_spec(input@),
{
    proof {
        reveal_strlit("https://");
        reveal_strlit("http://");
    }
    let trimmed = trim_str(input);
    if let Some(rest) = strip_prefix_str(trimmed, "https://") {
        rest
    } else if let Some(rest) = strip_prefix_str(trimmed, "http://") {
        rest
    } else {
        trimmed
    }
}

/// A socket address as its parts: the IP's text, the port, and the address's text
/// (`IP:port`, IPv6 in brackets).
#[derive(Debug, Clone)]
pub struct SocketAddrText {
    pub ip: String,
    pub port: u16,
    pub text: String,
}

/// The target read from a socket address: none for port 0; otherwise the IP, the port
/// and the URL `https://` and the address.
pub fn parse_target_live(addr: Option<SocketAddrText>) -> (r: Option<(String, u16, String)>)
    ensures
        match addr {
            None => r is None,
            Some(a) => if a.port == 0 {
                r is None
            } else {
                r matches Some((ip, port, url)) && ip@ == a.ip@ && port == a.port && url@ == "https://"@ + a.text@
            },
        },
{
    match addr {
        None => None,
        Some(a) => {
            if a.port == 0 {
                return None;
            }
            let mut url = to_owned_string("https://");
            url.append(a.text.as_str());
            Some((a.ip, a.port, url))
        },
    }
}

/// The server the player wants to join.
#[derive(Debug, Clone)]
pub struct ClientTarget {
    /// What the player typed.
    pub input: String,
    /// The URL to connect to.
    pub real_address: String,
    /// The IP's text.
    pub ip: String,
    /// The port.
    pub port: u16,
    /// Whether the input reads as a usable address.
    pub is_valid: bool,
}

impl ClientTarget {
    /// No target: everything empty and not valid.
    pub fn new() -> (r: ClientTarget)
        ensures
            r.input@.len() == 0 && r.real_address@.len() == 0 && r.ip@.len() == 0,
            r.port == 0 && !r.is_valid,
    {
        ClientTarget { input: String::new(), real_address: String::new(), ip: String::new(), port: 0, is_valid: false }
    }

    /// Takes a new input, with what reading its [`address_text`] as a socket address
    /// gave: valid with the IP, port and URL of [`parse_target_live`], or invalid with
    /// everything cleared.
    pub fn update_input(&mut self, input: String, addr: Option<SocketAddrText>)
        ensures
            final(self).input@ == input@,
            match parse_target_live_spec(addr) {
                Some((ip, port, url)) => final(self).is_valid && final(self).ip@ == ip
                    && final(self).port == port && final(self).real_address@ == url,
                None => !final(self).is_valid && final(self).ip@.len() == 0 && final(self).port == 0
                    && final(self).real_address@.len() == 0,
            },
    {
        self.input = input;
        match parse_target_live(addr) {
            Some((ip, port, url)) => {
                self.ip = ip;
                self.port = port;
                self.real_address = url;
                self.is_valid = true;
            },
            None => {
                self.ip = String::new();
                self.port = 0;
                self.real_address = String::new();
                self.is_valid = false;
            },
        }
    }
}

/// What [`parse_target_live`] gives, as character sequences.
pub open spec fn parse_target_live_spec(addr: Option<SocketAddrText>) -> Option<(Seq<char>, u16, Seq<char>)> {
    match addr {
        None => None,
        Some(a) => if a.port == 0 { None } else { Some((a.ip@, a.port, "https://"@ + a.text@)) },
    }
}

} // verus!
