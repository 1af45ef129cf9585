//! Resource identifiers: the schemes, the authority of a network identifier,
//! and the parser that takes an identifier's text apart.

use crate::error::FetchError;
use crate::text::{
    bounded_number, chars_of, find_char, lemma_position, parse_number, position, same_text,
    string_of,
};
use vstd::prelude::*;
use vstd::slice::slice_subrange;
use vstd::string::*;

verus! {

/// The schemes that an identifier may begin with.
#[derive(Debug, PartialEq, Eq, Clone, Copy, Structural)]
pub enum Scheme {
    Data,
    File,
    HTTP,
    HTTPS,
    VIEWSOURCE,
}

impl Scheme {
    /// The token that writes this scheme.
    pub open spec fn name(self) -> Seq<char> {
        match self {
            Scheme::Data => "data"@,
            Scheme::File => "file"@,
            Scheme::HTTP => "http"@,
            Scheme::HTTPS => "https"@,
            Scheme::VIEWSOURCE => "view-source"@,
        }
    }

    /// The scheme that `token` writes, if it writes one.
    pub open spec fn named(token: Seq<char>) -> Option<Scheme> {
        if token == "data"@ {
            Some(Scheme::Data)
        } else if token == "file"@ {
            Some(Scheme::File)
        } else if token == "https"@ {
            Some(Scheme::HTTPS)
        } else if token == "http"@ {
            Some(Scheme::HTTP)
        } else if token == "view-source"@ {
            Some(Scheme::VIEWSOURCE)
        } else {
            None
        }
    }

    /// Whether identifiers of this scheme name a host to connect to.
    pub open spec fn is_network(self) -> bool {
        self == Scheme::HTTP || self == Scheme::HTTPS
    }

    /// The port that a network scheme connects to where the identifier names
    /// none.
    pub open spec fn default_port(self) -> u16 {
        if self == Scheme::HTTPS {
            443
        } else {
            80
        }
    }

    /// Reads a scheme token.
    pub fn from_str(value: &str) -> (scheme: Result<Scheme, &'static str>)
        ensures
            match scheme {
                Ok(s) => Scheme::named(value@) == Some(s),
                Err(message) => Scheme::named(value@).is_none() && message@ == "Invalid Scheme."@,
            },
    {
        if same_text(value, "data") {
            Ok(Scheme::Data)
        } else if same_text(value, "file") {
            Ok(Scheme::File)
        } else if same_text(value, "https") {
            Ok(Scheme::HTTPS)
        } else if same_text(value, "http") {
            Ok(Scheme::HTTP)
        } else if same_text(value, "view-source") {
            Ok(Scheme::VIEWSOURCE)
        } else {
            Err("Invalid Scheme.")
        }
    }

    /// Writes the scheme's token.
    pub fn as_str(&self) -> (token: &'static str)
        ensures
            token@ == self.name(),
    {
        match self {
            Scheme::Data => "data",
            Scheme::File => "file",
            Scheme::HTTPS => "https",
            Scheme::HTTP => "http",
            Scheme::VIEWSOURCE => "view-source",
        }
    }
}

/// Reading the token that a scheme writes gives the scheme back.
pub proof fn lemma_scheme_round_trip(scheme: Scheme)
    ensures
        Scheme::named(scheme.name()) == Some(scheme),
{
    reveal_strlit("data");
    reveal_strlit("file");
    reveal_strlit("http");
    reveal_strlit("https");
    reveal_strlit("view-source");
    assert("data"@[0] != "file"@[0]);
    assert("data"@[0] != "http"@[0]);
    assert("file"@[0] != "http"@[0]);
    assert("https"@.len() != "http"@.len());
}

/// A token that names a scheme is written by that scheme.
pub proof fn lemma_scheme_named(token: Seq<char>)
    ensures
        Scheme::named(token) matches Some(s) ==> s.name() == token,
{
}

/// The markers that an identifier carries beside its scheme, authority and
/// path: a set of names.
#[derive(Debug)]
pub struct Flags {
    markers: Vec<String>,
}

impl View for Flags {
    type V = Set<Seq<char>>;

    closed spec fn view(&self) -> Set<Seq<char>> {
        Set::new(
            |name: Seq<char>|
                exists|i: int| 0 <= i < self.markers@.len() && (#[trigger] self.markers@[i])@ == name,
        )
    }
}

impl Flags {
    /// No marker.
    pub fn new() -> (flags: Flags)
        ensures
            flags@ == Set::<Seq<char>>::empty(),
    {
        let flags = Flags { markers: Vec::new() };
        assert(flags@ =~= Set::<Seq<char>>::empty());
        flags
    }

    /// Whether the marker `name` is set.
    pub fn contains(&self, name: &str) -> (yes: bool)
        ensures
            yes == self@.contains(name@),
    {
        let mut i: usize = 0;
        while i < self.markers.len()
            invariant
                i <= self.markers.len(),
                forall|j: int| 0 <= j < i ==> (#[trigger] self.markers@[j])@ != name@,
            decreases self.markers.len() - i,
        {
            if same_text(self.markers[i].as_str(), name) {
                return true;
            }
            i += 1;
        }
        false
    }

    /// The value of the marker `name`: `true` where it is set, nothing where
    /// it is not.
    pub fn get(&self, name: &str) -> (value: Option<&bool>)
        ensures
            value == (if self@.contains(name@) {
                Some(&true)
            } else {
                None
            }),
    {
        if self.contains(name) {
            Some(&true)
        } else {
            None
        }
    }

    /// Sets the marker `name`.
    pub fn insert(&mut self, name: &str)
        ensures
            final(self)@ == old(self)@.insert(name@),
    {
        if !self.contains(name) {
            let ghost before = self.markers@;
            self.markers.push(name.to_owned());
            proof {
                let after = self.markers@;
                assert(after[before.len() as int]@ == name@);
                assert forall|n: Seq<char>| #[trigger]
                    self@.contains(n) == old(self)@.insert(name@).contains(n) by {
                    if old(self)@.contains(n) {
                        let i = choose|i: int| 0 <= i < before.len() && (#[trigger] before[i])@ == n;
                        assert(after[i]@ == n);
                    }
                }
                assert(self@ =~= old(self)@.insert(name@));
            }
        } else {
            assert(self@ =~= old(self)@.insert(name@));
        }
    }

    /// A copy of these markers.
    pub fn duplicate(&self) -> (copy: Flags)
        ensures
            copy@ == self@,
    {
        let mut markers: Vec<String> = Vec::new();
        let mut i: usize = 0;
        while i < self.markers.len()
            invariant
                i <= self.markers.len(),
                markers@.len() == i,
                forall|j: int| 0 <= j < i ==> (#[trigger] markers@[j])@ == self.markers@[j]@,
            decreases self.markers.len() - i,
        {
            markers.push(self.markers[i].clone());
            i += 1;
        }
        let copy = Flags { markers };
        proof {
            assert forall|n: Seq<char>| #[trigger] copy@.contains(n) == self@.contains(n) by {
                if copy@.contains(n) {
                    let i = choose|i: int|
                        0 <= i < copy.markers@.len() && (#[trigger] copy.markers@[i])@ == n;
                    assert(self.markers@[i]@ == n);
                }
                if self@.contains(n) {
                    let i = choose|i: int|
                        0 <= i < self.markers@.len() && (#[trigger] self.markers@[i])@ == n;
                    assert(copy.markers@[i]@ == n);
                }
            }
            assert(copy@ =~= self@);
        }
        copy
    }
}

/// The host that a network identifier names, and how to reach it.
#[derive(Debug)]
pub struct Authority {
    pub userinfo: Option<String>,
    pub host: String,
    pub port: u16,
}

/// What an `Authority` holds, as mathematical values.
pub struct AuthorityView {
    pub userinfo: Option<Seq<char>>,
    pub host: Seq<char>,
    pub port: u16,
}

impl View for Authority {
    type V = AuthorityView;

    open spec fn view(&self) -> AuthorityView {
        AuthorityView {
            userinfo: match self.userinfo {
                Some(u) => Some(u@),
                None => None,
            },
            host: self.host@,
            port: self.port,
        }
    }
}

impl Authority {
    /// A copy of this authority.
    pub fn duplicate(&self) -> (copy: Authority)
        ensures
            copy@ == self@,
    {
        Authority {
            userinfo: match &self.userinfo {
                Some(u) => Some(u.clone()),
                None => None,
            },
            host: self.host.clone(),
            port: self.port,
        }
    }
}

/// A parsed identifier.
#[derive(Debug)]
pub struct URI {
    pub scheme: Scheme,
    pub authority: Option<Authority>,
    pub path: String,
    pub flags: Flags,
}

/// What a `URI` holds, as mathematical values.
pub struct UriView {
    pub scheme: Scheme,
    pub authority: Option<AuthorityView>,
    pub path: Seq<char>,
    pub flags: Set<Seq<char>>,
}

impl UriView {
    /// What holds of every parsed identifier: its scheme is none of the
    /// wrappers, and it has an authority exactly where its scheme is a
    /// network scheme.
    pub open spec fn wf(self) -> bool {
        &&& self.scheme != Scheme::VIEWSOURCE
        &&& self.authority.is_some() <==> self.scheme.is_network()
    }
}

impl View for URI {
    type V = UriView;

    open spec fn view(&self) -> UriView {
        UriView {
            scheme: self.scheme,
            authority: match self.authority {
                Some(a) => Some(a@),
                None => None,
            },
            path: self.path@,
            flags: self.flags@,
        }
    }
}

/// The marker that a `view-source:` wrapper sets.
pub open spec fn view_source_flag() -> Seq<char> {
    "view-source"@
}

/// `s` without the two slashes that may stand at its start.
pub open spec fn strip_slashes(s: Seq<char>) -> Seq<char> {
    if s.len() >= 2 && s[0] == '/' && s[1] == '/' {
        s.skip(2)
    } else {
        s
    }
}

/// Host and port of the part of a network identifier that stands before its
/// path. Without a colon the part is the host, and the port is the scheme's
/// own. With one, the host stands before the first colon, and the port is
/// the number between the first colon and the second, or the end.
pub open spec fn host_and_port(part: Seq<char>, default_port: u16) -> Option<(Seq<char>, u16)> {
    let colon = position(part, ':');
    if colon >= part.len() {
        Some((part, default_port))
    } else {
        let after = part.skip(colon + 1);
        let digits = after.take(position(after, ':'));
        match bounded_number(digits, 10, 0xffff) {
            Some(port) => Some((part.take(colon), port as u16)),
            None => None,
        }
    }
}

/// What follows the colon of an `http:` or `https:` identifier, taken apart.
pub open spec fn network_identifier(scheme: Scheme, rest: Seq<char>) -> Result<
    UriView,
    FetchError,
> {
    let r = strip_slashes(rest);
    let slash = position(r, '/');
    let tail = if slash < r.len() {
        r.skip(slash + 1)
    } else {
        Seq::<char>::empty()
    };
    match host_and_port(r.take(slash), scheme.default_port()) {
        Some((host, port)) => Ok(
            UriView {
                scheme,
                authority: Some(AuthorityView { userinfo: None, host, port }),
                path: seq!['/'] + tail,
                flags: Set::empty(),
            },
        ),
        None => Err(FetchError::MalformedIdentifier),
    }
}

/// The identifier that `text` writes. The scheme is what stands before the
/// first colon; what follows is read as the scheme asks.
pub open spec fn identifier(text: Seq<char>) -> Result<UriView, FetchError>
    decreases text.len(),
{
    let colon = position(text, ':');
    if 0 <= colon < text.len() {
        let rest = text.skip(colon + 1);
        match Scheme::named(text.take(colon)) {
            None => Err(FetchError::MalformedIdentifier),
            Some(Scheme::HTTP) => network_identifier(Scheme::HTTP, rest),
            Some(Scheme::HTTPS) => network_identifier(Scheme::HTTPS, rest),
            Some(Scheme::File) => Ok(
                UriView {
                    scheme: Scheme::File,
                    authority: None,
                    path: strip_slashes(rest),
                    flags: Set::empty(),
                },
            ),
            Some(Scheme::Data) => Ok(
                UriView { scheme: Scheme::Data, authority: None, path: rest, flags: Set::empty() },
            ),
            Some(Scheme::VIEWSOURCE) => match identifier(rest) {
                Ok(inner) => Ok(
                    UriView { flags: inner.flags.insert(view_source_flag()), ..inner },
                ),
                Err(e) => Err(e),
            },
        }
    } else {
        Err(FetchError::MalformedIdentifier)
    }
}

/// Every identifier that parses is well formed: a network scheme comes with
/// an authority, `file:` and `data:` come without one.
pub proof fn lemma_identifier_wf(text: Seq<char>)
    ensures
        identifier(text) matches Ok(u) ==> u.wf(),
    decreases text.len(),
{
    let colon = position(text, ':');
    if 0 <= colon < text.len() {
        if Scheme::named(text.take(colon)) == Some(Scheme::VIEWSOURCE) {
            lemma_identifier_wf(text.skip(colon + 1));
        }
    }
}

/// An identifier fails in one way only.
pub proof fn lemma_identifier_error(text: Seq<char>)
    ensures
        identifier(text) matches Err(e) ==> e == FetchError::MalformedIdentifier,
    decreases text.len(),
{
    let colon = position(text, ':');
    if 0 <= colon < text.len() {
        if Scheme::named(text.take(colon)) == Some(Scheme::VIEWSOURCE) {
            lemma_identifier_error(text.skip(colon + 1));
        }
    }
}

/// Wrapping an identifier in `view-source:` keeps its scheme, authority and
/// path, and sets the `view-source` marker; a text that is no identifier is
/// none when wrapped.
pub proof fn lemma_view_source_wraps(text: Seq<char>)
    ensures
        identifier("view-source:"@ + text) == match identifier(text) {
            Ok(inner) => Ok::<UriView, FetchError>(
                UriView { flags: inner.flags.insert(view_source_flag()), ..inner },
            ),
            Err(e) => Err(e),
        },
{
    reveal_strlit("view-source:");
    reveal_strlit("view-source");
    let whole = "view-source:"@ + text;
    crate::text::lemma_position_is(whole, ':', 11);
    assert(whole.take(11) =~= "view-source"@);
    assert(whole.skip(12) =~= text);
    lemma_scheme_round_trip(Scheme::VIEWSOURCE);
}

/// `s` without the two slashes that may stand at its start.
pub fn without_slashes(s: &[char]) -> (out: &[char])
    ensures
        out@ == strip_slashes(s@),
{
    if s.len() >= 2 && s[0] == '/' && s[1] == '/' {
        slice_subrange(s, 2, s.len())
    } else {
        s
    }
}

/// Takes host and port out of the part of a network identifier that stands
/// before its path.
fn split_host_port(part: &[char], default_port: u16) -> (out: Option<(String, u16)>)
    ensures
        match out {
            Some((host, port)) => host_and_port(part@, default_port) == Some((host@, port)),
            None => host_and_port(part@, default_port).is_none(),
        },
{
    let colon = find_char(part, ':');
    proof {
        lemma_position(part@, ':');
    }
    if colon >= part.len() {
        return Some((string_of(part), default_port));
    }
    let after = slice_subrange(part, colon + 1, part.len());
    let end = find_char(after, ':');
    proof {
        lemma_position(after@, ':');
        assert(after@ =~= part@.skip(colon + 1));
    }
    let digits = slice_subrange(after, 0, end);
    match parse_number(digits, 10, 0xffff) {
        Some(port) => Some((string_of(slice_subrange(part, 0, colon)), port as u16)),
        None => None,
    }
}

/// Reads what follows the colon of an `http:` or `https:` identifier.
fn parse_network(scheme: Scheme, rest: &[char]) -> (out: Result<URI, FetchError>)
    requires
        scheme.is_network(),
    ensures
        match out {
            Ok(uri) => network_identifier(scheme, rest@) == Ok::<UriView, FetchError>(uri@),
            Err(e) => network_identifier(scheme, rest@) == Err::<UriView, FetchError>(e),
        },
{
    let r = without_slashes(rest);
    let slash = find_char(r, '/');
    proof {
        lemma_position(r@, '/');
    }
    let default_port: u16 = match scheme {
        Scheme::HTTPS => 443,
        _ => 80,
    };
    let mut path = String::new();
    path.push('/');
    if slash < r.len() {
        let tail = string_of(slice_subrange(r, slash + 1, r.len()));
        path.append(tail.as_str());
    }
    proof {
        assert(path@ =~= seq!['/'] + (if slash < r@.len() {
            r@.skip(slash + 1)
        } else {
            Seq::<char>::empty()
        }));
    }
    match split_host_port(slice_subrange(r, 0, slash), default_port) {
        Some((host, port)) => Ok(
            URI {
                scheme,
                authority: Some(Authority { userinfo: None, host, port }),
                path,
                flags: Flags::new(),
            },
        ),
        None => Err(FetchError::MalformedIdentifier),
    }
}

/// Reads an identifier from its characters.
fn parse_chars(text: &[char]) -> (out: Result<URI, FetchError>)
    ensures
        match out {
            Ok(uri) => identifier(text@) == Ok::<UriView, FetchError>(uri@),
            Err(e) => identifier(text@) == Err::<UriView, FetchError>(e),
        },
    decreases text@.len(),
{
    let colon = find_char(text, ':');
    proof {
        lemma_position(text@, ':');
    }
    if colon >= text.len() {
        return Err(FetchError::MalformedIdentifier);
    }
    let token = string_of(slice_subrange(text, 0, colon));
    let rest = slice_subrange(text, colon + 1, text.len());
    proof {
        assert(rest@ =~= text@.skip(colon + 1));
    }
    match Scheme::from_str(token.as_str()) {
        Err(_) => Err(FetchError::MalformedIdentifier),
        Ok(Scheme::HTTP) => parse_network(Scheme::HTTP, rest),
        Ok(Scheme::HTTPS) => parse_network(Scheme::HTTPS, rest),
        Ok(Scheme::File) => Ok(
            URI {
                scheme: Scheme::File,
                authority: None,
                path: string_of(without_slashes(rest)),
                flags: Flags::new(),
            },
        ),
        Ok(Scheme::Data) => Ok(
            URI {
                scheme: Scheme::Data,
                authority: None,
                path: string_of(rest),
                flags: Flags::new(),
            },
        ),
        Ok(Scheme::VIEWSOURCE) => match parse_chars(rest) {
            Ok(inner) => {
                let mut flags = inner.flags;
                flags.insert("view-source");
                Ok(
                    URI {
                        scheme: inner.scheme,
                        authority: inner.authority,
                        path: inner.path,
                        flags,
                    },
                )
            },
            Err(e) => Err(e),
        },
    }
}

impl URI {
    /// Parses an identifier. The result is the identifier that the text
    /// writes; a text that writes none is refused as malformed.
    pub fn parse(url: &String) -> (out: Result<URI, FetchError>)
        ensures
            match out {
                Ok(uri) => identifier(url@) == Ok::<UriView, FetchError>(uri@) && uri@.wf(),
                Err(e) => identifier(url@) == Err::<UriView, FetchError>(e) && e
                    == FetchError::MalformedIdentifier,
            },
    {
        let chars = chars_of(url.as_str());
        proof {
            lemma_identifier_wf(url@);
            lemma_identifier_error(url@);
        }
        parse_chars(chars.as_slice())
    }

    /// A copy of this identifier.
    pub fn duplicate(&self) -> (copy: URI)
        ensures
            copy@ == self@,
    {
        URI {
            scheme: self.scheme,
            authority: match &self.authority {
                Some(a) => Some(a.duplicate()),
                None => None,
            },
            path: self.path.clone(),
            flags: self.flags.duplicate(),
        }
    }
}

/// The characters of which scheme tokens are made: ASCII letters and digits,
/// and `+`, `-` and `.`.
pub open spec fn is_token_char(c: char) -> bool {
    ||| ('a' <= c && c <= 'z')
    ||| ('A' <= c && c <= 'Z')
    ||| ('0' <= c && c <= '9')
    ||| c == '+'
    ||| c == '-'
    ||| c == '.'
}

/// Whether `token` has the form of a scheme token: it begins with a letter
/// or a digit, and holds token characters only.
pub open spec fn is_scheme_token(token: Seq<char>) -> bool {
    &&& token.len() > 0
    &&& token[0] != '+' && token[0] != '-' && token[0] != '.'
    &&& forall|i: int| 0 <= i < token.len() ==> is_token_char(#[trigger] token[i])
}

/// Every token that names a scheme has the form of a scheme token, so that
/// an identifier parses only where the form is kept.
pub proof fn lemma_known_schemes_are_tokens(token: Seq<char>)
    requires
        Scheme::named(token).is_some(),
    ensures
        is_scheme_token(token),
{
    reveal_strlit("data");
    reveal_strlit("file");
    reveal_strlit("http");
    reveal_strlit("https");
    reveal_strlit("view-source");
}

/// A network identifier without a path is the same identifier with the path
/// `/`: with the host part `part`, which holds no slash, `//part` and
/// `//part/` are read alike, and the path of both is `/`.
pub proof fn lemma_trailing_slash(scheme: Scheme, part: Seq<char>)
    requires
        !part.contains('/'),
    ensures
        network_identifier(scheme, seq!['/', '/'] + part) == network_identifier(
            scheme,
            seq!['/', '/'] + part + seq!['/'],
        ),
        network_identifier(scheme, seq!['/', '/'] + part) matches Ok(u) ==> u.path == seq!['/'],
{
    let bare = seq!['/', '/'] + part;
    let slashed = seq!['/', '/'] + part + seq!['/'];
    assert(strip_slashes(bare) =~= part);
    assert(strip_slashes(slashed) =~= part + seq!['/']);
    lemma_position(part, '/');
    let with_slash = part + seq!['/'];
    assert forall|j: int| 0 <= j < part.len() implies with_slash[j] != '/' by {
        assert(with_slash[j] == part[j]);
        assert(part.contains(part[j]));
    }
    crate::text::lemma_position_is(with_slash, '/', part.len() as int);
    assert(part.take(part.len() as int) =~= part);
    assert(with_slash.take(part.len() as int) =~= part);
    assert(with_slash.skip(part.len() as int + 1) =~= Seq::<char>::empty());
    assert(seq!['/'] + Seq::<char>::empty() =~= seq!['/']);
}

} // verus!
