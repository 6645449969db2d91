//! A WebDAV client library that works over any HTTP transport.
use base64::engine::general_purpose::STANDARD;
use base64::Engine;
use vstd::prelude::*;
use vstd::utf8::encode_utf8;
use crate::decode::DecodeError;
use crate::text::{decimal, push_decimal};

pub mod columns;
pub mod decode;
pub mod effect;
pub mod listing;
pub mod propfind;
pub mod reader;
pub mod text;
pub mod webdav_types;
pub mod xml;

verus! {

/// How requests are authenticated.
#[derive(Clone)]
pub enum Auth {
    /// No authentication.
    Anonymous,
    /// Basic authentication; the password may be left out.
    Basic { username: String, password: Option<String> },
}

/// The character of the standard base64 alphabet for a six-bit value.
pub open spec fn base64_digit(i: nat) -> u8 {
    if i < 26 {
        (65 + i) as u8
    } else if i < 52 {
        (71 + i) as u8
    } else if i < 62 {
        (i - 4) as u8
    } else if i == 62 {
        43
    } else {
        47
    }
}

/// The standard base64 encoding of some bytes: four characters for every three bytes, the
/// last group padded with `=`.
pub open spec fn base64_of(b: Seq<u8>) -> Seq<u8>
    decreases b.len(),
{
    if b.len() == 0 {
        Seq::empty()
    } else if b.len() == 1 {
        let n = b[0] as nat;
        seq![base64_digit(n / 4), base64_digit((n % 4) * 16), 61u8, 61u8]
    } else if b.len() == 2 {
        let n = b[0] as nat * 256 + b[1] as nat;
        seq![base64_digit(n / 1024), base64_digit(n / 16 % 64), base64_digit((n % 16) * 4), 61u8]
    } else {
        let n = b[0] as nat * 65536 + b[1] as nat * 256 + b[2] as nat;
        seq![
            base64_digit(n / 262144),
            base64_digit(n / 4096 % 64),
            base64_digit(n / 64 % 64),
            base64_digit(n % 64),
        ] + base64_of(b.subrange(3, b.len() as int))
    }
}

/// Relies on base64's `Engine::encode` with the standard alphabet and padding.
#[verifier::external_body]
fn encode_base64(bytes: &[u8]) -> (r: Vec<u8>)
    ensures
        r@ == base64_of(bytes@),
{
    STANDARD.encode(bytes).into_bytes()
}

/// `username:password`, where the password is left out (but not the colon) if there is none.
pub open spec fn credentials(username: Seq<char>, password: Option<Seq<char>>) -> Seq<char> {
    username + ":"@ + match password {
        Some(p) => p,
        None => Seq::empty(),
    }
}

/// The value of the `Authorization` header for Basic authentication.
pub open spec fn basic_auth_value(username: Seq<char>, password: Option<Seq<char>>) -> Seq<u8> {
    encode_utf8("Basic "@) + base64_of(encode_utf8(credentials(username, password)))
}

fn basic_auth(username: &String, password: &Option<String>) -> (r: Vec<u8>)
    ensures
        r@ == basic_auth_value(
            username@,
            match password {
                Some(p) => Some(p@),
                None => None,
            },
        ),
{
    let mut creds = username.clone();
    creds.append(":");
    if let Some(p) = password {
        creds.append(p.as_str());
    } else {
        assert(creds@ =~= creds@ + Seq::<char>::empty());
    }
    let mut value = "Basic ".as_bytes_vec();
    let mut encoded = encode_base64(creds.as_str().as_bytes());
    value.append(&mut encoded);
    value
}

impl Auth {
    /// The `Authorization` header to send, if any.
    pub fn authorization(&self) -> (r: Option<Vec<u8>>)
        ensures
            match self {
                Auth::Anonymous => r is None,
                Auth::Basic { username, password } => r matches Some(v) && v@ == basic_auth_value(
                    username@,
                    match password {
                        Some(p) => Some(p@),
                        None => None,
                    },
                ),
            },
    {
        match self {
            Auth::Anonymous => None,
            Auth::Basic { username, password } => Some(basic_auth(username, password)),
        }
    }
}

/// How deep a PROPFIND reaches below the resource.
#[derive(Debug, Clone, Copy, PartialEq, Eq, PartialOrd)]
pub enum Depth {
    /// A given number of levels.
    Finite(u32),
    /// The whole subtree.
    Infinite,
}

/// The value of the `depth` header.
pub open spec fn depth_value(d: Depth) -> Seq<u8> {
    match d {
        Depth::Finite(n) => encode_utf8(decimal(n as nat)),
        Depth::Infinite => encode_utf8("infinity"@),
    }
}

impl Depth {
    /// The value of the `depth` header: the number in decimal, or `infinity`.
    pub fn header_value(&self) -> (r: Vec<u8>)
        ensures
            r@ == depth_value(*self),
    {
        match self {
            Depth::Finite(n) => {
                let mut out = String::new();
                push_decimal(*n as u128, &mut out);
                assert(out@ =~= decimal(*n as nat));
                out.as_str().as_bytes_vec()
            },
            Depth::Infinite => "infinity".as_bytes_vec(),
        }
    }
}

/// Why a request failed. `C` is the cause that the HTTP transport reported.
#[derive(Debug)]
pub enum Error<C> {
    /// The transport failed, or the response body was not UTF-8.
    WebRequest(C),
    /// The response body could not be decoded.
    Parsing(DecodeError),
    /// The response came with a status outside 200 to 299; `text` is its body, where it could
    /// be read.
    ErrorStatus { status: u16, text: Option<String> },
}

impl<C> Error<C> {
    pub fn web_request(source: C) -> (r: Self)
        ensures
            r == Error::<C>::WebRequest(source),
    {
        Error::WebRequest(source)
    }

    /// The error for a response with an unsuccessful status, keeping its body if it was read.
    pub fn status_failure(status: u16, text: Result<String, Error<C>>) -> (r: Self)
        ensures
            r == (Error::<C>::ErrorStatus {
                status,
                text: match text {
                    Ok(t) => Some(t),
                    Err(_) => None,
                },
            }),
    {
        Error::ErrorStatus { status, text: text.ok() }
    }

    /// The status of a response that came back unsuccessful.
    pub fn status(&self) -> (r: Option<u16>)
        ensures
            r == match self {
                Error::ErrorStatus { status, .. } => Some(*status),
                _ => None,
            },
    {
        match self {
            Error::ErrorStatus { status, .. } => Some(*status),
            _ => None,
        }
    }

    /// Whether the server answered with status 404.
    pub fn is_404(&self) -> (r: bool)
        ensures
            r == (self matches Error::ErrorStatus { status, .. } && status == 404),
    {
        match self {
            Error::ErrorStatus { status, .. } => *status == 404,
            _ => false,
        }
    }
}

/// Whether an HTTP status code means success (200 to 299).
pub fn is_success_status(status: u16) -> (r: bool)
    ensures
        r == (200 <= status < 300),
{
    200 <= status && status < 300
}

} // verus!
