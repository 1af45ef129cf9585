//! What is shown of a fetched text: the text without its markup tags, with
//! the character references `&lt;` and `&gt;` replaced by the characters
//! that they name.

use crate::text::{chars_of, find_char, lemma_position, position, same_text, string_of};
use crate::uri::{view_source_flag, UriView, URI};
use vstd::prelude::*;
use vstd::slice::slice_subrange;
use vstd::string::*;

verus! {

/// The longest run of characters that is kept as a possible character
/// reference.
pub const MAX_REFERENCE: usize = 25;

/// The state of a scan over a text.
pub struct Scan {
    /// Whether the scan is inside a tag.
    pub in_angle: bool,
    /// Whether the scan is inside the `body` element.
    pub in_body: bool,
    /// The tag that is being read.
    pub tag: Seq<char>,
    /// The possible character reference that is being read.
    pub reference: Seq<char>,
    /// What is shown so far.
    pub shown: Seq<char>,
}

/// The state in which a scan begins.
pub open spec fn scan_start() -> Scan {
    Scan {
        in_angle: false,
        in_body: false,
        tag: Seq::empty(),
        reference: Seq::empty(),
        shown: Seq::empty(),
    }
}

/// What a finished character reference is shown as: the character that it
/// names, or the reference itself where it names none.
pub open spec fn resolved(reference: Seq<char>) -> Seq<char> {
    if reference == "&lt;"@ {
        seq!['<']
    } else if reference == "&gt;"@ {
        seq!['>']
    } else {
        reference
    }
}

/// The state after the character `c`. A `<` opens a tag and a `>` closes
/// it; the tags `body` and `/body` switch the body on and off. Outside tags,
/// and inside the body where only the body is shown, an `&` begins a
/// possible reference, which a `;` ends; a reference that has grown too long
/// is shown as it is, and the character that found it so is dropped. Every
/// other character is shown.
pub open spec fn scan_step(s: Scan, c: char, only_body: bool) -> Scan {
    if c == '<' {
        Scan { in_angle: true, ..s }
    } else if c == '>' {
        Scan {
            in_angle: false,
            in_body: if s.tag == "body"@ {
                true
            } else if s.tag == "/body"@ {
                false
            } else {
                s.in_body
            },
            tag: Seq::empty(),
            ..s
        }
    } else if s.in_angle {
        Scan { tag: s.tag.push(c), ..s }
    } else if only_body && !s.in_body {
        s
    } else if s.reference.len() > 0 {
        if s.reference.len() > MAX_REFERENCE {
            Scan { shown: s.shown + s.reference, reference: Seq::empty(), ..s }
        } else if c == ';' {
            Scan { shown: s.shown + resolved(s.reference.push(c)), reference: Seq::empty(), ..s }
        } else {
            Scan { reference: s.reference.push(c), ..s }
        }
    } else if c == '&' {
        Scan { reference: seq![c], ..s }
    } else {
        Scan { shown: s.shown.push(c), ..s }
    }
}

/// The state after all of `source`.
pub open spec fn scan(source: Seq<char>, only_body: bool) -> Scan
    decreases source.len(),
{
    if source.len() == 0 {
        scan_start()
    } else {
        scan_step(scan(source.drop_last(), only_body), source.last(), only_body)
    }
}

/// What is shown of `source`: what the scan shows, and the reference that
/// it was still reading at the end.
pub open spec fn rendered(source: Seq<char>, only_body: bool) -> Seq<char> {
    scan(source, only_body).shown + scan(source, only_body).reference
}

/// Shows a text: strips its tags and replaces its character references.
/// With `only_body`, nothing outside the `body` element is shown.
pub fn render(source: &str, only_body: bool) -> (out: String)
    ensures
        out@ == rendered(source@, only_body),
{
    let chars = chars_of(source);
    let mut in_angle = false;
    let mut in_body = false;
    let mut tag = String::new();
    let mut reference = String::new();
    let mut reference_len: usize = 0;
    let mut out = String::new();
    let mut i: usize = 0;
    while i < chars.len()
        invariant
            i <= chars.len(),
            chars@ == source@,
            reference_len == reference@.len(),
            scan(source@.take(i as int), only_body) == (Scan {
                in_angle,
                in_body,
                tag: tag@,
                reference: reference@,
                shown: out@,
            }),
        decreases chars.len() - i,
    {
        let c = chars[i];
        proof {
            assert(source@.take(i + 1).drop_last() =~= source@.take(i as int));
            assert(source@.take(i + 1).last() == c);
            reveal_strlit("&lt;");
            reveal_strlit("&gt;");
        }
        if c == '<' {
            in_angle = true;
        } else if c == '>' {
            if same_text(tag.as_str(), "body") {
                in_body = true;
            } else if same_text(tag.as_str(), "/body") {
                in_body = false;
            }
            tag = String::new();
            in_angle = false;
        } else if in_angle {
            tag.push(c);
        } else if only_body && !in_body {
        } else if reference_len > 0 {
            if reference_len > MAX_REFERENCE {
                out.append(reference.as_str());
                reference = String::new();
                reference_len = 0;
            } else if c == ';' {
                reference.push(c);
                if same_text(reference.as_str(), "&lt;") {
                    out.push('<');
                } else if same_text(reference.as_str(), "&gt;") {
                    out.push('>');
                } else {
                    out.append(reference.as_str());
                }
                reference = String::new();
                reference_len = 0;
            } else {
                reference.push(c);
                reference_len += 1;
            }
        } else if c == '&' {
            reference.push(c);
            reference_len = 1;
        } else {
            out.push(c);
        }
        proof {
            let before = scan(source@.take(i as int), only_body);
            let after = Scan {
                in_angle,
                in_body,
                tag: tag@,
                reference: reference@,
                shown: out@,
            };
            assert(after.shown =~= scan_step(before, c, only_body).shown);
            assert(after.reference =~= scan_step(before, c, only_body).reference);
            assert(after.tag =~= scan_step(before, c, only_body).tag);
        }
        i += 1;
    }
    proof {
        assert(source@.take(source@.len() as int) =~= source@);
    }
    out.append(reference.as_str());
    out
}

/// `data` with its angle brackets written as character references.
pub open spec fn escaped(data: Seq<char>) -> Seq<char>
    decreases data.len(),
{
    if data.len() == 0 {
        Seq::<char>::empty()
    } else if data.last() == '<' {
        escaped(data.drop_last()) + "&lt;"@
    } else if data.last() == '>' {
        escaped(data.drop_last()) + "&gt;"@
    } else {
        escaped(data.drop_last()).push(data.last())
    }
}

/// Writes the angle brackets of `data` as character references, so that
/// markup is shown and not stripped.
pub fn transform(data: &str) -> (out: String)
    ensures
        out@ == escaped(data@),
{
    let chars = chars_of(data);
    let mut out = String::new();
    let mut i: usize = 0;
    while i < chars.len()
        invariant
            i <= chars.len(),
            chars@ == data@,
            out@ == escaped(data@.take(i as int)),
        decreases chars.len() - i,
    {
        let c = chars[i];
        proof {
            assert(data@.take(i + 1).drop_last() =~= data@.take(i as int));
            assert(data@.take(i + 1).last() == c);
        }
        if c == '<' {
            out.append("&lt;");
        } else if c == '>' {
            out.append("&gt;");
        } else {
            out.push(c);
        }
        i += 1;
    }
    proof {
        assert(data@.take(data@.len() as int) =~= data@);
    }
    out
}

/// The text that a `data:` identifier carries: what follows the first comma
/// of its path, and a line end. A path without a comma carries nothing.
pub open spec fn payload(path: Seq<char>) -> Seq<char> {
    let comma = position(path, ',');
    if 0 <= comma < path.len() {
        path.skip(comma + 1) + seq!['\r', '\n']
    } else {
        seq!['\r', '\n']
    }
}

/// Takes the text out of the path of a `data:` identifier.
pub fn data_payload(path: &str) -> (out: String)
    ensures
        out@ == payload(path@),
{
    let chars = chars_of(path);
    let comma = find_char(chars.as_slice(), ',');
    proof {
        lemma_position(chars@, ',');
        reveal_strlit("\r\n");
    }
    let mut out = if comma < chars.len() {
        string_of(slice_subrange(chars.as_slice(), comma + 1, chars.len()))
    } else {
        String::new()
    };
    out.append("\r\n");
    proof {
        assert(out@ =~= payload(path@));
    }
    out
}

/// What is shown of the body that was fetched for an identifier: with the
/// `view-source` marker the body as it is, markup included; without it what
/// is left of the `body` element when the markup is stripped.
pub open spec fn page(url: UriView, body: Seq<char>) -> Seq<char> {
    if url.flags.contains(view_source_flag()) {
        rendered(escaped(body), false)
    } else {
        rendered(body, true)
    }
}

/// Shows the body that was fetched for `url`.
pub fn show_page(url: &URI, body: &str) -> (out: String)
    ensures
        out@ == page(url@, body@),
{
    if url.flags.contains("view-source") {
        let escaped = transform(body);
        render(escaped.as_str(), false)
    } else {
        render(body, true)
    }
}

/// Markup that is escaped and then shown comes out as it was, where it
/// holds no `&`: every character is shown, the angle brackets too.
pub proof fn lemma_escaped_is_shown(data: Seq<char>)
    requires
        !data.contains('&'),
    ensures
        rendered(escaped(data), false) == data,
        scan(escaped(data), false) == (Scan { shown: data, ..scan_start() }),
    decreases data.len(),
{
    reveal_strlit("&lt;");
    reveal_strlit("&gt;");
    if data.len() == 0 {
        assert(scan(escaped(data), false).shown =~= data);
    } else {
        let front = data.drop_last();
        let c = data.last();
        assert forall|j: int| 0 <= j < front.len() implies front[j] != '&' by {
            assert(front[j] == data[j]);
            assert(data.contains(data[j]));
        }
        assert(!front.contains('&'));
        lemma_escaped_is_shown(front);
        assert(data.contains(c));
        let base = escaped(front);
        let s0 = scan(base, false);
        if c == '<' || c == '>' {
            let name = if c == '<' {
                'l'
            } else {
                'g'
            };
            let t1 = base.push('&');
            let t2 = t1.push(name);
            let t3 = t2.push('t');
            let t4 = t3.push(';');
            assert(escaped(data) =~= t4);
            assert(t1.drop_last() =~= base);
            assert(t2.drop_last() =~= t1);
            assert(t3.drop_last() =~= t2);
            assert(t4.drop_last() =~= t3);
            let s1 = scan(t1, false);
            assert(s1 == scan_step(s0, '&', false));
            let s2 = scan(t2, false);
            assert(s2 == scan_step(s1, name, false));
            assert(s2.reference =~= seq!['&', name]);
            let s3 = scan(t3, false);
            assert(s3 == scan_step(s2, 't', false));
            assert(s3.reference =~= seq!['&', name, 't']);
            let s4 = scan(t4, false);
            assert(s4 == scan_step(s3, ';', false));
            assert(s3.reference.push(';') =~= seq!['&', name, 't', ';']);
            if c == '<' {
                assert(s3.reference.push(';') =~= "&lt;"@);
            } else {
                assert(s3.reference.push(';') =~= "&gt;"@);
                assert("&gt;"@ != "&lt;"@) by {
                    assert("&gt;"@[1] != "&lt;"@[1]);
                }
            }
            assert(s4.shown =~= front.push(c));
            assert(front.push(c) =~= data);
            assert(s4.shown + s4.reference =~= data);
        } else {
            assert(escaped(data) == base.push(c));
            assert(base.push(c).drop_last() =~= base);
            let s1 = scan(base.push(c), false);
            assert(s1 == scan_step(s0, c, false));
            assert(s1.shown =~= front.push(c));
            assert(front.push(c) =~= data);
            assert(s1.shown + s1.reference =~= data);
        }
    }
}

} // verus!
