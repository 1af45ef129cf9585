//! Flat locators: a scheme that folds the `view-source:` wrapper into
//! itself, and host, path and port kept as text. A text without a known
//! scheme is read as an `http` locator.

use crate::error::FetchError;
use crate::text::{chars_of, find_char, lemma_position, position, same_text, string_of};
use crate::uri::{strip_slashes, without_slashes, Scheme};
use vstd::prelude::*;
use vstd::slice::slice_subrange;
use vstd::string::*;

verus! {

/// The schemes of a locator.
#[derive(Debug, PartialEq, Eq, Clone, Copy, Structural)]
pub enum URIScheme {
    Data,
    File,
    HTTP,
    HTTPS,
    ViewSourceHTTP,
    ViewSourceHTTPS,
}

impl URIScheme {
    /// The scheme that `value` writes; `http` where it writes none.
    pub open spec fn named(value: Seq<char>) -> URIScheme {
        if value == "data"@ {
            URIScheme::Data
        } else if value == "file"@ {
            URIScheme::File
        } else if value == "https"@ {
            URIScheme::HTTPS
        } else if value == "http"@ {
            URIScheme::HTTP
        } else if value == "view-source:https"@ {
            URIScheme::ViewSourceHTTPS
        } else if value == "view-source:http"@ {
            URIScheme::ViewSourceHTTP
        } else {
            URIScheme::HTTP
        }
    }

    /// Whether locators of this scheme name a host.
    pub open spec fn is_network(self) -> bool {
        self != URIScheme::Data && self != URIScheme::File
    }

    /// The port that a locator of this scheme has where it names none.
    pub open spec fn default_port(self) -> Seq<char> {
        if self == URIScheme::HTTPS || self == URIScheme::ViewSourceHTTPS {
            "443"@
        } else {
            "80"@
        }
    }

    /// Reads a scheme; what is no scheme is read as `http`.
    pub fn from_str(value: &str) -> (scheme: URIScheme)
        ensures
            scheme == URIScheme::named(value@),
    {
        if same_text(value, "data") {
            URIScheme::Data
        } else if same_text(value, "file") {
            URIScheme::File
        } else if same_text(value, "https") {
            URIScheme::HTTPS
        } else if same_text(value, "http") {
            URIScheme::HTTP
        } else if same_text(value, "view-source:https") {
            URIScheme::ViewSourceHTTPS
        } else if same_text(value, "view-source:http") {
            URIScheme::ViewSourceHTTP
        } else {
            URIScheme::HTTP
        }
    }
}

/// A parsed locator.
#[derive(Debug)]
pub struct URL {
    pub scheme: URIScheme,
    pub hostname: String,
    pub path: String,
    pub port: String,
}

/// What a `URL` holds, as mathematical values.
pub struct UrlView {
    pub scheme: URIScheme,
    pub hostname: Seq<char>,
    pub path: Seq<char>,
    pub port: Seq<char>,
}

impl View for URL {
    type V = UrlView;

    open spec fn view(&self) -> UrlView {
        UrlView {
            scheme: self.scheme,
            hostname: self.hostname@,
            path: self.path@,
            port: self.port@,
        }
    }
}

/// `s` without the colons at its start.
pub open spec fn strip_colons(s: Seq<char>) -> Seq<char>
    decreases s.len(),
{
    if s.len() > 0 && s[0] == ':' {
        strip_colons(s.drop_first())
    } else {
        s
    }
}

/// What follows the first colon of `s`, without the colons at its start;
/// nothing where `s` has no colon.
pub open spec fn after_colon(s: Seq<char>) -> Seq<char> {
    let colon = position(s, ':');
    if 0 <= colon < s.len() {
        strip_colons(s.skip(colon + 1))
    } else {
        Seq::<char>::empty()
    }
}

/// The locator of a scheme that names a host. The host stands before the
/// first slash; a colon in it parts the host name from the port, which ends
/// at the next colon.
pub open spec fn network_locator(scheme: URIScheme, remainder: Seq<char>) -> UrlView {
    let slash = position(remainder, '/');
    let part = remainder.take(slash);
    let tail = if slash < remainder.len() {
        remainder.skip(slash + 1)
    } else {
        Seq::<char>::empty()
    };
    let colon = position(part, ':');
    let after = if colon < part.len() {
        part.skip(colon + 1)
    } else {
        Seq::<char>::empty()
    };
    UrlView {
        scheme,
        hostname: part.take(colon),
        path: seq!['/'] + tail,
        port: if colon < part.len() {
            after.take(position(after, ':'))
        } else {
            scheme.default_port()
        },
    }
}

/// The locator that `text` writes. `None` where the text wraps, in
/// `view-source:`, anything but `http` or `https`.
pub open spec fn locator(text: Seq<char>) -> Option<UrlView> {
    let colon = position(text, ':');
    let known = if 0 <= colon < text.len() {
        Scheme::named(text.take(colon))
    } else {
        None
    };
    match known {
        None => Some(network_locator(URIScheme::HTTP, text)),
        Some(Scheme::HTTP) => Some(
            network_locator(URIScheme::HTTP, strip_slashes(after_colon(text))),
        ),
        Some(Scheme::HTTPS) => Some(
            network_locator(URIScheme::HTTPS, strip_slashes(after_colon(text))),
        ),
        Some(Scheme::File) => Some(
            UrlView {
                scheme: URIScheme::File,
                hostname: Seq::empty(),
                path: strip_slashes(after_colon(text)),
                port: Seq::empty(),
            },
        ),
        Some(Scheme::Data) => Some(
            UrlView {
                scheme: URIScheme::Data,
                hostname: Seq::empty(),
                path: after_colon(text),
                port: Seq::empty(),
            },
        ),
        Some(Scheme::VIEWSOURCE) => {
            let wrapped = text.skip(colon + 1);
            let inner = wrapped.take(position(wrapped, ':'));
            if inner == "http"@ {
                Some(
                    network_locator(
                        URIScheme::ViewSourceHTTP,
                        strip_slashes(after_colon(wrapped)),
                    ),
                )
            } else if inner == "https"@ {
                Some(
                    network_locator(
                        URIScheme::ViewSourceHTTPS,
                        strip_slashes(after_colon(wrapped)),
                    ),
                )
            } else {
                None
            }
        },
    }
}

/// A locator has a host exactly where its scheme names one, and its path
/// then begins with a slash.
pub proof fn lemma_locator_shape(text: Seq<char>)
    ensures
        locator(text) matches Some(url) ==> {
            &&& url.scheme.is_network() ==> url.path.len() > 0 && url.path[0] == '/'
            &&& !url.scheme.is_network() ==> url.hostname.len() == 0 && url.port.len() == 0
        },
{
}

proof fn lemma_strip_colons(s: Seq<char>, k: int)
    requires
        0 <= k <= s.len(),
        forall|j: int| 0 <= j < k ==> s[j] == ':',
        k < s.len() ==> s[k] != ':',
    ensures
        strip_colons(s) == s.skip(k),
    decreases k,
{
    if k == 0 {
        assert(s.skip(0) =~= s);
    } else {
        lemma_strip_colons(s.drop_first(), k - 1);
        assert(s.drop_first().skip(k - 1) =~= s.skip(k));
    }
}

/// What follows the first colon of `s`, without the colons at its start.
fn rest_after_colon(s: &[char]) -> (out: &[char])
    ensures
        out@ == after_colon(s@),
{
    let colon = find_char(s, ':');
    proof {
        lemma_position(s@, ':');
    }
    if colon >= s.len() {
        let out = slice_subrange(s, 0, 0);
        assert(out@ =~= Seq::<char>::empty());
        return out;
    }
    let rest = slice_subrange(s, colon + 1, s.len());
    let mut k: usize = 0;
    while k < rest.len() && rest[k] == ':'
        invariant
            k <= rest.len(),
            forall|j: int| 0 <= j < k ==> rest@[j] == ':',
        decreases rest.len() - k,
    {
        k += 1;
    }
    proof {
        lemma_strip_colons(rest@, k as int);
        assert(rest@ =~= s@.skip(colon + 1));
    }
    slice_subrange(rest, k, rest.len())
}

/// Builds the locator of a scheme that names a host.
fn parse_network(scheme: URIScheme, remainder: &[char]) -> (url: URL)
    ensures
        url@ == network_locator(scheme, remainder@),
{
    let slash = find_char(remainder, '/');
    proof {
        lemma_position(remainder@, '/');
    }
    let part = slice_subrange(remainder, 0, slash);
    let mut path = String::new();
    path.push('/');
    if slash < remainder.len() {
        let tail = string_of(slice_subrange(remainder, slash + 1, remainder.len()));
        path.append(tail.as_str());
    }
    proof {
        assert(path@ =~= seq!['/'] + (if slash < remainder@.len() {
            remainder@.skip(slash + 1)
        } else {
            Seq::<char>::empty()
        }));
    }
    let colon = find_char(part, ':');
    proof {
        lemma_position(part@, ':');
    }
    let port = if colon < part.len() {
        let after = slice_subrange(part, colon + 1, part.len());
        let end = find_char(after, ':');
        proof {
            lemma_position(after@, ':');
            assert(after@ =~= part@.skip(colon + 1));
        }
        string_of(slice_subrange(after, 0, end))
    } else {
        match scheme {
            URIScheme::HTTPS => "443".to_owned(),
            URIScheme::ViewSourceHTTPS => "443".to_owned(),
            _ => "80".to_owned(),
        }
    };
    URL { scheme, hostname: string_of(slice_subrange(part, 0, colon)), path, port }
}

impl URL {
    /// Parses a locator. The result is the locator that the text writes; a
    /// text that writes none is refused as malformed.
    pub fn parse(url: &String) -> (out: Result<URL, FetchError>)
        ensures
            match out {
                Ok(parsed) => locator(url@) == Some(parsed@),
                Err(e) => locator(url@).is_none() && e == FetchError::MalformedIdentifier,
            },
    {
        let chars = chars_of(url.as_str());
        let text = chars.as_slice();
        let colon = find_char(text, ':');
        proof {
            lemma_position(text@, ':');
        }
        let known = if colon < text.len() {
            let token = string_of(slice_subrange(text, 0, colon));
            match Scheme::from_str(token.as_str()) {
                Ok(scheme) => Some(scheme),
                Err(_) => None,
            }
        } else {
            None
        };
        match known {
            None => Ok(parse_network(URIScheme::HTTP, text)),
            Some(Scheme::HTTP) => Ok(
                parse_network(URIScheme::HTTP, without_slashes(rest_after_colon(text))),
            ),
            Some(Scheme::HTTPS) => Ok(
                parse_network(URIScheme::HTTPS, without_slashes(rest_after_colon(text))),
            ),
            Some(Scheme::File) => Ok(
                URL {
                    scheme: URIScheme::File,
                    hostname: String::new(),
                    path: string_of(without_slashes(rest_after_colon(text))),
                    port: String::new(),
                },
            ),
            Some(Scheme::Data) => Ok(
                URL {
                    scheme: URIScheme::Data,
                    hostname: String::new(),
                    path: string_of(rest_after_colon(text)),
                    port: String::new(),
                },
            ),
            Some(Scheme::VIEWSOURCE) => {
                let wrapped = slice_subrange(text, colon + 1, text.len());
                proof {
                    assert(wrapped@ =~= text@.skip(colon + 1));
                }
                let end = find_char(wrapped, ':');
                proof {
                    lemma_position(wrapped@, ':');
                }
                let inner = string_of(slice_subrange(wrapped, 0, end));
                if same_text(inner.as_str(), "http") {
                    Ok(
                        parse_network(
                            URIScheme::ViewSourceHTTP,
                            without_slashes(rest_after_colon(wrapped)),
                        ),
                    )
                } else if same_text(inner.as_str(), "https") {
                    Ok(
                        parse_network(
                            URIScheme::ViewSourceHTTPS,
                            without_slashes(rest_after_colon(wrapped)),
                        ),
                    )
                } else {
                    Err(FetchError::MalformedIdentifier)
                }
            },
        }
    }
}

} // verus!
