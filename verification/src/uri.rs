//! URIs and authorities, read by the `http` crate, and what routing makes of them.

use crate::text::{find_char, has_prefix, lower, strip_prefix, to_lower};
use vstd::prelude::*;
use vstd::string::*;

verus! {

/// The parts of a URI that the proxy reads.
pub struct UriParts {
    pub scheme: Option<String>,
    pub authority: Option<String>,
    pub path: String,
    pub host: Option<String>,
    pub port: Option<u16>,
    /// The whole URI.
    pub text: String,
}

/// An authority, split: its host as written, and its port where it has a readable one.
pub struct AuthorityParts {
    pub host: String,
    pub port: Option<u16>,
}

/// The view of an optional text.
pub open spec fn opt_text(s: Option<String>) -> Option<Seq<char>> {
    match s {
        Some(t) => Some(t@),
        None => None,
    }
}

/// The view of an optional borrowed text.
pub open spec fn opt_str(s: Option<&str>) -> Option<Seq<char>> {
    match s {
        Some(t) => Some(t@),
        None => None,
    }
}

impl UriParts {
    /// Scheme, authority, path, host, port and the whole as plain values.
    pub open spec fn model(&self) -> (Option<Seq<char>>, Option<Seq<char>>, Seq<char>, Option<Seq<char>>, Option<u16>, Seq<char>) {
        (
            opt_text(self.scheme),
            opt_text(self.authority),
            self.path@,
            opt_text(self.host),
            self.port,
            self.text@,
        )
    }
}

impl AuthorityParts {
    /// Host and port as plain values.
    pub open spec fn model(&self) -> (Seq<char>, Option<u16>) {
        (self.host@, self.port)
    }
}

/// What `<http::Uri as FromStr>::from_str` makes of a text: scheme, authority, path, host, port
/// and the whole as `http::Uri` writes it, or nothing where the text is no URI.
pub uninterp spec fn parsed_uri(text: Seq<char>) -> Option<
    (Option<Seq<char>>, Option<Seq<char>>, Seq<char>, Option<Seq<char>>, Option<u16>, Seq<char>),
>;

/// What `<http::uri::Authority as FromStr>::from_str` makes of a text: host and port, or
/// nothing where the text is no authority.
pub uninterp spec fn parsed_authority(text: Seq<char>) -> Option<(Seq<char>, Option<u16>)>;

/// Calls `http::Uri::from_str` and copies out `scheme`, `authority`, `path`, `host`, `port_u16`
/// and `to_string`.
///
/// Claimed: these parts, or the refusal, depend on `text` alone.
#[verifier::external_body]
pub(crate) fn parse_uri(text: &str) -> (r: Option<UriParts>)
    ensures
        r.is_some() <==> parsed_uri(text@).is_some(),
        r matches Some(u) ==> parsed_uri(text@) == Some(u.model()),
{
    let uri: http::Uri = text.parse().ok()?;
    Some(
        UriParts {
            scheme: uri.scheme().map(|s| s.as_str().to_owned()),
            authority: uri.authority().map(|a| a.as_str().to_owned()),
            path: uri.path().to_owned(),
            host: uri.host().map(|h| h.to_owned()),
            port: uri.port_u16(),
            text: uri.to_string(),
        },
    )
}

/// Calls `http::uri::Authority::from_str` and copies out `host` and `port_u16`.
///
/// Claimed: host and port, or the refusal, depend on `text` alone.
#[verifier::external_body]
pub(crate) fn parse_authority(text: &str) -> (r: Option<AuthorityParts>)
    ensures
        r.is_some() <==> parsed_authority(text@).is_some(),
        r matches Some(a) ==> parsed_authority(text@) == Some(a.model()),
{
    let authority: http::uri::Authority = text.parse().ok()?;
    Some(AuthorityParts { host: authority.host().to_owned(), port: authority.port_u16() })
}

/// The routing key of an authority whose host and port are given: the host in lower case,
/// where the authority holds no user information, the host is not empty, and nothing but a
/// readable port follows it.
pub open spec fn authority_key(
    text: Seq<char>,
    parts: Option<(Seq<char>, Option<u16>)>,
) -> Option<Seq<char>> {
    match parts {
        None => None,
        Some((host, port)) => {
            let after = text.skip(host.len() as int);
            if text.contains('@') || host.len() == 0 || !has_prefix(text, host) {
                None
            } else if after.len() > 0 && (after[0] != ':' || port.is_none()) {
                None
            } else {
                Some(lower(host))
            }
        },
    }
}

/// The routing key of a host header or of a configured host.
pub open spec fn host_key(text: Seq<char>) -> Option<Seq<char>> {
    authority_key(text, parsed_authority(text))
}

/// The routing key of the authority `text`, given how it splits.
pub fn authority_host(text: &str, parts: Option<AuthorityParts>) -> (r: Option<String>)
    ensures
        opt_text(r) == authority_key(
            text@,
            match parts {
                Some(a) => Some(a.model()),
                None => None,
            },
        ),
{
    let authority = match parts {
        Some(a) => a,
        None => {
            return None;
        },
    };
    if find_char(text, '@').is_some() {
        return None;
    }
    let host_part = authority.host.as_str();
    if host_part.is_empty() {
        return None;
    }
    let after_host = match strip_prefix(text, host_part) {
        Some(rest) => rest,
        None => {
            return None;
        },
    };
    if !after_host.is_empty() {
        if after_host.get_char(0) != ':' || authority.port.is_none() {
            return None;
        }
    }
    Some(to_lower(host_part))
}

/// The routing key of `host`: its host part in lower case, without user information and with
/// at most a readable port behind it.
pub fn parse_authority_host(host: &str) -> (r: Option<String>)
    ensures
        opt_text(r) == host_key(host@),
{
    authority_host(host, parse_authority(host))
}

/// A host is looked up in lower case, whatever port stands behind it: letters of either case
/// lead to the same key.
pub proof fn hosts_are_read_without_case_or_port(
    host: Seq<char>,
    port: Option<u16>,
    digits: Seq<char>,
)
    requires
        host.len() > 0,
        !host.contains('@'),
        !digits.contains('@'),
    ensures
        authority_key(host, Some((host, port))) == Some(lower(host)),
        authority_key(host + seq![':'] + digits, Some((host, port))) == if port.is_some() {
            Some(lower(host))
        } else {
            None
        },
        lower(lower(host)) == lower(host),
        lower(host).len() == host.len(),
{
    let text = host + seq![':'] + digits;
    assert(host.take(host.len() as int) =~= host);
    assert(host.skip(host.len() as int) =~= Seq::<char>::empty());
    assert(text.take(host.len() as int) =~= host);
    assert(text.skip(host.len() as int) =~= seq![':'] + digits);
    assert forall|k: int| 0 <= k < text.len() implies text[k] != '@' by {
        if k < host.len() {
            assert(host.contains(host[k]));
        } else if k > host.len() {
            assert(digits.contains(digits[k - host.len() - 1]));
        }
    }
    assert(lower(lower(host)) =~= lower(host));
}

/// What names no host has no key: what is no authority, an authority with user information or
/// without a host, and one whose host is followed by anything but a colon.
pub proof fn what_names_no_host_has_no_key(
    text: Seq<char>,
    host: Seq<char>,
    port: Option<u16>,
    rest: Seq<char>,
)
    requires
        rest.len() > 0,
        rest[0] != ':',
    ensures
        authority_key(text, None).is_none(),
        text.contains('@') ==> authority_key(text, Some((host, port))).is_none(),
        authority_key(text, Some((Seq::<char>::empty(), port))).is_none(),
        authority_key(host + rest, Some((host, port))).is_none(),
{
    assert((host + rest).skip(host.len() as int) =~= rest);
}

} // verus!
