//! Mirror client decisions: reading a mirror URL into its parts, choosing the
//! transport scheme and port, forming the dial string, and the ordered
//! fallback over mirrors.

use vstd::prelude::*;
use vstd::string::StringSliceAdditionalSpecFns;

use crate::cache::bytes_eq;
use crate::decimal::{dec_bytes, decimal_bytes};

verus! {

/// Transport scheme of a mirror URL.
#[derive(Clone, Copy, Debug, PartialEq, Eq, Structural)]
pub enum Scheme {
    Https,
    HttpsInsecure,
    Http,
}

/// The parts of an absolute URL that the client reads, as plain bytes.
pub struct UriParts {
    pub scheme: Option<Vec<u8>>,
    pub host: Option<Vec<u8>>,
    pub port: Option<u16>,
    pub path: Vec<u8>,
    pub authority: Option<Vec<u8>>,
}

/// The mathematical value of `UriParts`.
pub struct UriPartsView {
    pub scheme: Option<Seq<u8>>,
    pub host: Option<Seq<u8>>,
    pub port: Option<u16>,
    pub path: Seq<u8>,
    pub authority: Option<Seq<u8>>,
}

impl View for UriParts {
    type V = UriPartsView;

    open spec fn view(&self) -> UriPartsView {
        UriPartsView {
            scheme: match self.scheme {
                Some(s) => Some(s@),
                None => None,
            },
            host: match self.host {
                Some(h) => Some(h@),
                None => None,
            },
            port: self.port,
            path: self.path@,
            authority: match self.authority {
                Some(a) => Some(a@),
                None => None,
            },
        }
    }
}

/// What parsing a URL yields: nothing for a malformed URL, else its parts.
pub uninterp spec fn uri_parts_of(url: Seq<u8>) -> Option<UriPartsView>;

/// Relies on `http::Uri::try_from` on bytes (URL parsing) and on the accessors
/// `scheme_str`, `host`, `port_u16`, `path` and `authority`: the parse and
/// each accessor read a fixed function of the URL bytes alone.
#[verifier::external_body]
fn parse_uri(url: &[u8]) -> (r: Option<UriParts>)
    ensures
        match r {
            Some(p) => uri_parts_of(url@) == Some(p@),
            None => uri_parts_of(url@) == None::<UriPartsView>,
        },
{
    let uri = match http::Uri::try_from(url) {
        Ok(u) => u,
        Err(_) => return None,
    };
    Some(UriParts {
        scheme: uri.scheme_str().map(|s| s.as_bytes().to_vec()),
        host: uri.host().map(|h| h.as_bytes().to_vec()),
        port: uri.port_u16(),
        path: uri.path().as_bytes().to_vec(),
        authority: uri.authority().map(|a| a.as_str().as_bytes().to_vec()),
    })
}

/// Why a URL cannot be dialled.
#[derive(Clone, Copy, Debug, PartialEq, Eq, Structural)]
pub enum TargetError {
    /// The URL does not parse.
    Unparseable,
    /// The scheme is none of `http`, `https`, `https+insecure` or absent.
    UnsupportedScheme,
    /// The URL has no host.
    MangledHost,
    /// The URL has a host but no authority.
    MissingAuthority,
}

/// The scheme chosen for a URL: `http` or an absent scheme is plaintext,
/// `https` is TLS against the system roots, `https+insecure` is TLS accepting
/// any certificate; anything else is refused.
pub open spec fn spec_scheme_of(s: Option<Seq<u8>>) -> Option<Scheme> {
    match s {
        None => Some(Scheme::Http),
        Some(b) => if b == ("https").spec_bytes() {
            Some(Scheme::Https)
        } else if b == ("https+insecure").spec_bytes() {
            Some(Scheme::HttpsInsecure)
        } else if b == ("http").spec_bytes() {
            Some(Scheme::Http)
        } else {
            None
        },
    }
}

/// The default port of a scheme: 80 in the plain case, 443 for either TLS kind.
pub open spec fn spec_default_port(s: Scheme) -> u16 {
    match s {
        Scheme::Https => 443,
        Scheme::HttpsInsecure => 443,
        Scheme::Http => 80,
    }
}

/// Everything needed to dial a mirror and send the request.
#[derive(Debug)]
pub struct Target {
    pub scheme: Scheme,
    pub host: Vec<u8>,
    pub port: u16,
    pub path: Vec<u8>,
    pub authority: Vec<u8>,
}

/// The mathematical value of `Target`.
pub struct TargetView {
    pub scheme: Scheme,
    pub host: Seq<u8>,
    pub port: u16,
    pub path: Seq<u8>,
    pub authority: Seq<u8>,
}

impl View for Target {
    type V = TargetView;

    open spec fn view(&self) -> TargetView {
        TargetView {
            scheme: self.scheme,
            host: self.host@,
            port: self.port,
            path: self.path@,
            authority: self.authority@,
        }
    }
}

/// How URL parts resolve to a dial target: the scheme picks the transport,
/// an explicit port wins over the scheme default, and a URL without host or
/// authority is refused.
pub open spec fn spec_resolve(p: UriPartsView) -> Result<TargetView, TargetError> {
    match spec_scheme_of(p.scheme) {
        None => Err(TargetError::UnsupportedScheme),
        Some(scheme) => match p.host {
            None => Err(TargetError::MangledHost),
            Some(host) => match p.authority {
                None => Err(TargetError::MissingAuthority),
                Some(authority) => Ok(
                    TargetView {
                        scheme,
                        host,
                        port: match p.port {
                            Some(port) => port,
                            None => spec_default_port(scheme),
                        },
                        path: p.path,
                        authority,
                    },
                ),
            },
        },
    }
}

/// Choose the transport scheme for the scheme bytes of a URL.
fn resolve_scheme(scheme: Option<&Vec<u8>>) -> (r: Option<Scheme>)
    ensures
        r == spec_scheme_of(match scheme {
            Some(s) => Some(s@),
            None => None::<Seq<u8>>,
        }),
{
    match scheme {
        None => Some(Scheme::Http),
        Some(b) => {
            if bytes_eq(b.as_slice(), "https".as_bytes()) {
                Some(Scheme::Https)
            } else if bytes_eq(b.as_slice(), "https+insecure".as_bytes()) {
                Some(Scheme::HttpsInsecure)
            } else if bytes_eq(b.as_slice(), "http".as_bytes()) {
                Some(Scheme::Http)
            } else {
                None
            }
        },
    }
}

/// Resolve parsed URL parts to a dial target.
pub fn resolve_target(parts: UriParts) -> (r: Result<Target, TargetError>)
    ensures
        match r {
            Ok(t) => spec_resolve(parts@) == Ok::<TargetView, TargetError>(t@),
            Err(e) => spec_resolve(parts@) == Err::<TargetView, TargetError>(e),
        },
{
    let scheme = match resolve_scheme(parts.scheme.as_ref()) {
        Some(s) => s,
        None => return Err(TargetError::UnsupportedScheme),
    };
    let host = match parts.host {
        Some(h) => h,
        None => return Err(TargetError::MangledHost),
    };
    let authority = match parts.authority {
        Some(a) => a,
        None => return Err(TargetError::MissingAuthority),
    };
    let port = match parts.port {
        Some(p) => p,
        None => match scheme {
            Scheme::Https => 443,
            Scheme::HttpsInsecure => 443,
            Scheme::Http => 80,
        },
    };
    Ok(Target { scheme, host, port, path: parts.path, authority })
}

/// Read a URL into a dial target: parse it, then resolve the parts.
pub fn resolve_url(url: &[u8]) -> (r: Result<Target, TargetError>)
    ensures
        match uri_parts_of(url@) {
            None => r == Err::<Target, TargetError>(TargetError::Unparseable),
            Some(p) => match r {
                Ok(t) => spec_resolve(p) == Ok::<TargetView, TargetError>(t@),
                Err(e) => spec_resolve(p) == Err::<TargetView, TargetError>(e),
            },
        },
{
    match parse_uri(url) {
        None => Err(TargetError::Unparseable),
        Some(parts) => resolve_target(parts),
    }
}

/// The URL of `path` on a mirror: the mirror base with the path appended,
/// without further normalization.
pub fn mirror_url(mirror: &[u8], path: &[u8]) -> (r: Vec<u8>)
    ensures
        r@ == mirror@ + path@,
{
    let mut url = vstd::slice::slice_to_vec(mirror);
    let mut rest = vstd::slice::slice_to_vec(path);
    url.append(&mut rest);
    url
}

/// The `host:port` string to dial, as bytes.
pub fn dial_addr(target: &Target) -> (r: Vec<u8>)
    ensures
        r@ == target@.host + seq![58u8] + dec_bytes(target@.port as nat),
{
    let mut addr = vstd::slice::slice_to_vec(target.host.as_slice());
    addr.push(58);  // ':'
    let mut port = decimal_bytes(target.port as usize);
    addr.append(&mut port);
    proof {
        assert(addr@ =~= target@.host + seq![58u8] + dec_bytes(target@.port as nat));
    }
    addr
}

/// Whether an upstream status answers the request: any 2xx does.
pub fn is_success(status: u16) -> (r: bool)
    ensures
        r == (200 <= status < 300),
{
    200 <= status && status < 300
}

/// The index of the first mirror whose attempt succeeded, if any.
pub open spec fn spec_first_success(s: Seq<bool>) -> Option<int>
    decreases s.len(),
{
    if s.len() == 0 {
        None
    } else if s[0] {
        Some(0)
    } else {
        match spec_first_success(s.skip(1)) {
            Some(i) => Some(i + 1),
            None => None,
        }
    }
}

/// Mirror fallback: when the first `k` attempts fail and attempt `k`
/// succeeds, the mirror chosen is exactly the one at index `k`.
pub proof fn lemma_fallback_first_success(s: Seq<bool>, k: int)
    requires
        0 <= k < s.len(),
        forall|j: int| 0 <= j < k ==> !s[j],
        s[k],
    ensures
        spec_first_success(s) == Some(k),
    decreases k,
{
    if k > 0 {
        lemma_fallback_first_success(s.skip(1), k - 1);
    }
}

/// Mirror fallback: when every attempt fails, no mirror is chosen.
pub proof fn lemma_fallback_exhausted(s: Seq<bool>)
    requires
        forall|j: int| 0 <= j < s.len() ==> !s[j],
    ensures
        spec_first_success(s) == None::<int>,
    decreases s.len(),
{
    if s.len() > 0 {
        lemma_fallback_exhausted(s.skip(1));
    }
}

/// Walk attempt outcomes in order and pick the first success, as the mirror
/// client does with its ordered upstream list.
pub fn first_success_index(outcomes: &Vec<bool>) -> (r: Option<usize>)
    ensures
        match r {
            Some(i) => spec_first_success(outcomes@) == Some(i as int),
            None => spec_first_success(outcomes@) == None::<int>,
        },
{
    let mut i: usize = 0;
    while i < outcomes.len()
        invariant
            0 <= i <= outcomes@.len(),
            forall|k: int| 0 <= k < i ==> !outcomes@[k],
        decreases outcomes@.len() - i,
    {
        if outcomes[i] {
            proof {
                lemma_fallback_first_success(outcomes@, i as int);
            }
            return Some(i);
        }
        i = i + 1;
    }
    proof {
        lemma_fallback_exhausted(outcomes@);
    }
    None
}

} // verus!
