//! Validated gRPC addresses for the ingester connections: a URI that either
//! names a port or uses an http scheme, normalised to its canonical text.

use vstd::prelude::*;
use vstd::string::StrSliceExecFns;
use vstd::string::StringExecFns;

verus! {

/// What `http::Uri` makes of a string: `None` when the string is no URI,
/// otherwise the canonical display text and whether a port was given. The
/// result depends on the characters alone.
pub uninterp spec fn uri_parse_of(s: Seq<char>) -> Option<(Seq<char>, bool)>;

/// Relies on `http::Uri::from_str` and `Uri::port`: parses the string as a
/// URI, reporting its canonical text and whether it names a port; the error
/// text is the parser's own description.
#[verifier::external_body]
fn parse_uri(s: &str) -> (r: Result<(String, bool), String>)
    ensures
        match r {
            Ok((d, p)) => uri_parse_of(s@) == Some((d@, p)),
            Err(_) => uri_parse_of(s@) is None,
        },
{
    match <http::Uri as core::str::FromStr>::from_str(s) {
        Ok(u) => {
            let has_port = u.port().is_some();
            Ok((u.to_string(), has_port))
        },
        Err(e) => Err(e.to_string()),
    }
}

/// The string opens with the four characters `http`.
pub open spec fn starts_http(s: Seq<char>) -> bool {
    s.len() >= 4 && s[0] == 'h' && s[1] == 't' && s[2] == 't' && s[3] == 'p'
}

/// Why an ingester address was rejected.
#[derive(Debug)]
pub enum AddressError {
    /// The string is not a URI; carries the parser's description.
    Invalid { detail: String },
    /// The URI names no port and is not an http address; carries the
    /// offending input.
    MissingPort { value: String },
}

impl AddressError {
    /// The human-readable message.
    pub fn message(&self) -> (r: String)
        ensures
            r@ == match self {
                AddressError::Invalid { detail } => "Invalid: "@ + detail@,
                AddressError::MissingPort { value } =>
                    "Port is required; no port found in `"@ + value@ + "`"@,
            },
    {
        match self {
            AddressError::Invalid { detail } => {
                let mut m = String::from_str("Invalid: ");
                m.append(detail.as_str());
                m
            },
            AddressError::MissingPort { value } => {
                let mut m = String::from_str("Port is required; no port found in `");
                m.append(value.as_str());
                m.append("`");
                m
            },
        }
    }
}

/// A validated ingester address, held in its canonical URI text.
#[derive(Clone, Debug)]
pub struct IngesterAddress {
    pub uri: String,
}

impl IngesterAddress {
    /// Accepts exactly the strings that parse as a URI and either name a
    /// port or start with `http`; the address keeps the URI's canonical
    /// text.
    pub fn from_str(s: &str) -> (r: Result<IngesterAddress, AddressError>)
        ensures
            match r {
                Ok(a) => {
                    &&& uri_parse_of(s@) is Some
                    &&& a.uri@ == uri_parse_of(s@)->Some_0.0
                    &&& (uri_parse_of(s@)->Some_0.1 || starts_http(s@))
                },
                Err(AddressError::Invalid { .. }) => uri_parse_of(s@) is None,
                Err(AddressError::MissingPort { value }) => {
                    &&& value@ == s@
                    &&& uri_parse_of(s@) is Some
                    &&& !uri_parse_of(s@)->Some_0.1
                    &&& !starts_http(s@)
                },
            },
    {
        match parse_uri(s) {
            Err(detail) => Err(AddressError::Invalid { detail }),
            Ok((display, has_port)) => {
                let n = s.unicode_len();
                let http_prefix = n >= 4 && s.get_char(0) == 'h' && s.get_char(1) == 't'
                    && s.get_char(2) == 't' && s.get_char(3) == 'p';
                if has_port || http_prefix {
                    Ok(IngesterAddress { uri: display })
                } else {
                    Err(AddressError::MissingPort { value: s.to_owned() })
                }
            },
        }
    }

    /// The canonical URI text.
    pub fn to_text(&self) -> (r: String)
        ensures
            r@ == self.uri@,
    {
        let mut m = String::new();
        m.append(self.uri.as_str());
        m
    }
}

} // verus!
