//! The response cache: an index of entries, each a fingerprint with an
//! expiry, and a directory of files that holds one body for each
//! fingerprint and, in a control file, the index itself. The cache works on
//! the content of the directory as a value; reading it from disk and writing
//! it back is left to the program.

use crate::digest::{digest, sha256};
use crate::error::FetchError;
use crate::request::{HTTPMethod, HTTPRequest, RequestView};
use crate::text::{
    bounded_number, chars_of, decimal_digits, find_char, hex_upper, lemma_position,
    parse_number, position, push_decimal, same_text, string_of, text_of, to_hex_upper,
    utf8_text,
};
use crate::uri::UriView;
use vstd::prelude::*;
use vstd::slice::slice_subrange;
use vstd::string::*;
use vstd::utf8::encode_utf8;

verus! {

/// One entry of the index.
#[derive(Debug)]
pub struct Item {
    pub expiry: u64,
    pub path_string: String,
}

impl View for Item {
    type V = (u64, Seq<char>);

    open spec fn view(&self) -> (u64, Seq<char>) {
        (self.expiry, self.path_string@)
    }
}

/// One file of the cache directory.
#[derive(Debug)]
pub struct StoredFile {
    pub name: String,
    pub data: Vec<u8>,
}

impl View for StoredFile {
    type V = (Seq<char>, Seq<u8>);

    open spec fn view(&self) -> (Seq<char>, Seq<u8>) {
        (self.name@, self.data@)
    }
}

/// The entries of an index, as mathematical values: expiry and fingerprint.
pub type Entries = Seq<(u64, Seq<char>)>;

/// The files of a directory, as mathematical values: name and content.
pub type Files = Seq<(Seq<char>, Seq<u8>)>;

/// The name of the control file.
pub open spec fn control_name() -> Seq<char> {
    ".control"@
}

/// Index of the first file named `name`, or `files.len()` where there is
/// none.
pub open spec fn file_index(files: Files, name: Seq<char>) -> int {
    position(files.map_values(|f: (Seq<char>, Seq<u8>)| f.0), name)
}

/// The content of the file named `name`.
pub open spec fn file_data(files: Files, name: Seq<char>) -> Option<Seq<u8>> {
    let i = file_index(files, name);
    if 0 <= i < files.len() {
        Some(files[i].1)
    } else {
        None
    }
}

/// The files after `data` was written to the file named `name`: the file is
/// written anew where it stands, or a new file comes last.
pub open spec fn with_file(files: Files, name: Seq<char>, data: Seq<u8>) -> Files {
    let i = file_index(files, name);
    if 0 <= i < files.len() {
        files.update(i, (name, data))
    } else {
        files.push((name, data))
    }
}

/// After a file was written, it holds what was written, and every other
/// file holds what it held.
pub proof fn lemma_with_file(files: Files, name: Seq<char>, data: Seq<u8>, other: Seq<char>)
    ensures
        file_data(with_file(files, name, data), name) == Some(data),
        other != name ==> file_data(with_file(files, name, data), other) == file_data(
            files,
            other,
        ),
{
    let names = files.map_values(|f: (Seq<char>, Seq<u8>)| f.0);
    let after = with_file(files, name, data);
    let after_names = after.map_values(|f: (Seq<char>, Seq<u8>)| f.0);
    lemma_position(names, name);
    lemma_position(names, other);
    let i = position(names, name);
    let k = position(names, other);
    assert forall|j: int| 0 <= j < i implies after_names[j] != name by {
        assert(after_names[j] == names[j]);
    }
    crate::text::lemma_position_is(after_names, name, i);
    if other != name {
        assert forall|j: int| 0 <= j < k && j < after_names.len() implies after_names[j]
            != other by {
            if j != i {
                assert(after_names[j] == names[j]);
            }
        }
        if k < files.len() {
            assert(names[k] == other);
            assert(k != i);
            assert(after_names[k] == names[k]);
            crate::text::lemma_position_is(after_names, other, k);
        } else {
            crate::text::lemma_position_is(after_names, other, after_names.len() as int);
        }
    }
}

/// The text of which the fingerprint of a request is made: the path of its
/// identifier and, where the identifier names a host, the host and the port
/// in decimal digits.
pub open spec fn canonical_text(url: UriView) -> Seq<char> {
    match url.authority {
        Some(a) => url.path + a.host + decimal_digits(a.port as nat),
        None => url.path,
    }
}

/// The fingerprint of a request: the SHA-256 digest of the UTF-8 bytes of
/// its canonical text, in hexadecimal notation with capital letters.
pub open spec fn fingerprint_of(request: RequestView) -> Seq<char> {
    hex_upper(sha256(encode_utf8(canonical_text(request.url))))
}

/// Computes the fingerprint of a request.
pub fn hash_from(request: &HTTPRequest) -> (fingerprint: String)
    ensures
        fingerprint@ == fingerprint_of(request@),
{
    let mut text = request.url.path.clone();
    match &request.url.authority {
        Some(a) => {
            text.append(a.host.as_str());
            push_decimal(&mut text, a.port as u64);
        },
        None => {},
    }
    proof {
        assert(text@ =~= canonical_text(request@.url));
    }
    let hash = digest(text.as_str().as_bytes());
    to_hex_upper(hash.as_slice())
}

/// The entry that the line `line` of a control file records: the expiry in
/// decimal digits before the first semicolon, and the fingerprint behind
/// it, up to the next semicolon. `None` where the line has no semicolon, or
/// no number of 64 bits before it.
pub open spec fn record_of(line: Seq<char>) -> Option<(u64, Seq<char>)> {
    let semicolon = position(line, ';');
    if 0 <= semicolon < line.len() {
        let after = line.skip(semicolon + 1);
        match bounded_number(line.take(semicolon), 10, u64::MAX as nat) {
            Some(expiry) => Some((expiry as u64, after.take(position(after, ';')))),
            None => None,
        }
    } else {
        None
    }
}

/// Reads one line of a control file.
pub fn extract_item_from(line: &[char]) -> (item: Option<Item>)
    ensures
        match item {
            Some(i) => record_of(line@) == Some(i@),
            None => record_of(line@).is_none(),
        },
{
    let semicolon = find_char(line, ';');
    proof {
        lemma_position(line@, ';');
    }
    if semicolon >= line.len() {
        return None;
    }
    let after = slice_subrange(line, semicolon + 1, line.len());
    let end = find_char(after, ';');
    proof {
        lemma_position(after@, ';');
        assert(after@ =~= line@.skip(semicolon + 1));
    }
    match parse_number(slice_subrange(line, 0, semicolon), 10, u64::MAX) {
        Some(expiry) => Some(
            Item { expiry, path_string: string_of(slice_subrange(after, 0, end)) },
        ),
        None => None,
    }
}

/// The line at the start of `text`, without the carriage return that may
/// end it.
pub open spec fn leading_line(text: Seq<char>) -> Seq<char> {
    let raw = text.take(position(text, '\n'));
    if raw.len() > 0 && raw.last() == '\r' {
        raw.drop_last()
    } else {
        raw
    }
}

/// The entries that the text of a control file records, line by line. A
/// line that records no entry is passed over.
pub open spec fn control_items(text: Seq<char>) -> Entries
    decreases text.len(),
{
    if text.len() == 0 {
        Entries::empty()
    } else {
        let end = position(text, '\n');
        let rest = if 0 <= end < text.len() {
            control_items(text.skip(end + 1))
        } else {
            Entries::empty()
        };
        match record_of(leading_line(text)) {
            Some(entry) => seq![entry] + rest,
            None => rest,
        }
    }
}

/// The line that records an entry.
pub open spec fn record_line(entry: (u64, Seq<char>)) -> Seq<char> {
    decimal_digits(entry.0 as nat) + seq![';'] + entry.1
}

/// The text of the control file of an index: one line for each entry, with
/// a line feed between two lines.
pub open spec fn control_text(items: Entries) -> Seq<char>
    decreases items.len(),
{
    if items.len() == 0 {
        Seq::<char>::empty()
    } else if items.len() == 1 {
        record_line(items[0])
    } else {
        control_text(items.drop_last()) + seq!['\n'] + record_line(items.last())
    }
}

/// The views of the items in `items`.
pub open spec fn entries_of(items: Seq<Item>) -> Entries {
    items.map_values(|i: Item| i@)
}

/// The views of the files in `files`.
pub open spec fn files_of(files: Seq<StoredFile>) -> Files {
    files.map_values(|f: StoredFile| f@)
}

/// Reads the text of a control file.
pub fn parse_control(text: &[char]) -> (items: Vec<Item>)
    ensures
        entries_of(items@) == control_items(text@),
{
    let mut items: Vec<Item> = Vec::new();
    let mut rest = text;
    proof {
        assert(entries_of(items@) + control_items(text@) =~= control_items(text@));
    }
    while rest.len() > 0
        invariant
            control_items(text@) == entries_of(items@) + control_items(rest@),
        decreases rest@.len(),
    {
        let end = find_char(rest, '\n');
        proof {
            lemma_position(rest@, '\n');
        }
        let stop = if end > 0 && rest[end - 1] == '\r' {
            end - 1
        } else {
            end
        };
        let line = slice_subrange(rest, 0, stop);
        proof {
            assert(line@ =~= leading_line(rest@));
        }
        let next = if end < rest.len() {
            slice_subrange(rest, end + 1, rest.len())
        } else {
            slice_subrange(rest, 0, 0)
        };
        proof {
            if end < rest@.len() {
                assert(next@ =~= rest@.skip(end + 1));
            } else {
                assert(next@ =~= Seq::<char>::empty());
            }
        }
        let ghost before = entries_of(items@);
        match extract_item_from(line) {
            Some(item) => {
                items.push(item);
                proof {
                    let entry = record_of(line@).unwrap();
                    assert(entries_of(items@) =~= before.push(entry));
                    assert(before.push(entry) + control_items(next@) =~= before + (seq![entry]
                        + control_items(next@)));
                }
            },
            None => {},
        }
        rest = next;
    }
    proof {
        assert(entries_of(items@) + Entries::empty() =~= entries_of(items@));
    }
    items
}

/// Writes the text of the control file of an index.
pub fn serialize_control(items: &Vec<Item>) -> (out: String)
    ensures
        out@ == control_text(entries_of(items@)),
{
    let mut out = String::new();
    let mut i: usize = 0;
    while i < items.len()
        invariant
            i <= items.len(),
            out@ == control_text(entries_of(items@).take(i as int)),
        decreases items.len() - i,
    {
        let ghost done = entries_of(items@).take(i as int);
        let ghost grown = entries_of(items@).take(i + 1);
        proof {
            assert(grown.drop_last() =~= done);
            assert(grown.last() == items@[i as int]@);
        }
        if i > 0 {
            out.push('\n');
        }
        push_decimal(&mut out, items[i].expiry);
        out.push(';');
        out.append(items[i].path_string.as_str());
        proof {
            assert(out@ =~= control_text(grown));
        }
        i += 1;
    }
    proof {
        assert(entries_of(items@).take(items@.len() as int) =~= entries_of(items@));
    }
    out
}

/// Finds the file named `name`; returns the number of files where there is
/// none.
fn find_file(files: &Vec<StoredFile>, name: &str) -> (at: usize)
    ensures
        at == file_index(files_of(files@), name@),
        at <= files@.len(),
{
    let ghost names = files_of(files@).map_values(|f: (Seq<char>, Seq<u8>)| f.0);
    let mut i: usize = 0;
    while i < files.len()
        invariant
            i <= files.len(),
            names == files_of(files@).map_values(|f: (Seq<char>, Seq<u8>)| f.0),
            forall|j: int| 0 <= j < i ==> names[j] != name@,
        decreases files.len() - i,
    {
        if same_text(files[i].name.as_str(), name) {
            proof {
                crate::text::lemma_position_is(names, name@, i as int);
            }
            return i;
        }
        i += 1;
    }
    proof {
        crate::text::lemma_position_is(names, name@, i as int);
    }
    i
}

/// Writes `data` to the file named `name`.
fn write_file(files: &mut Vec<StoredFile>, name: String, data: Vec<u8>)
    ensures
        files_of(final(files)@) == with_file(files_of(old(files)@), name@, data@),
{
    let i = find_file(files, name.as_str());
    if i < files.len() {
        files.set(i, StoredFile { name, data });
    } else {
        files.push(StoredFile { name, data });
    }
    proof {
        assert(files_of(files@) =~= with_file(files_of(old(files)@), name@, data@));
    }
}

/// The cache.
#[derive(Debug)]
pub struct Cache {
    items: Vec<Item>,
    files: Vec<StoredFile>,
}

/// What a cache holds, as mathematical values: its index and its directory.
pub struct CacheView {
    pub items: Entries,
    pub files: Files,
}

impl View for Cache {
    type V = CacheView;

    closed spec fn view(&self) -> CacheView {
        CacheView { items: entries_of(self.items@), files: files_of(self.files@) }
    }
}

/// The cache of a directory that was made anew: an empty index, and an
/// empty control file.
pub open spec fn fresh() -> CacheView {
    CacheView { items: Entries::empty(), files: seq![(control_name(), Seq::<u8>::empty())] }
}

/// The text of the control file among `files`; empty where there is no such
/// file, or it is not UTF-8.
pub open spec fn control_of(files: Files) -> Seq<char> {
    match file_data(files, control_name()) {
        Some(bytes) => match utf8_text(bytes) {
            Some(text) => text,
            None => Seq::<char>::empty(),
        },
        None => Seq::<char>::empty(),
    }
}

/// The cache of a directory that holds `files`: the index that its control
/// file records, and the files, with an empty control file where there was
/// none.
pub open spec fn loaded(files: Files) -> CacheView {
    CacheView {
        items: control_items(control_of(files)),
        files: if file_data(files, control_name()).is_some() {
            files
        } else {
            files.push((control_name(), Seq::<u8>::empty()))
        },
    }
}

/// The cache at start. `directory` holds the files of the cache directory
/// where that exists. Without a directory, or where the cache is to be
/// cleared, the cache is made anew; otherwise it is loaded.
pub open spec fn initial(directory: Option<Files>, clear_cache: bool) -> CacheView {
    match directory {
        Some(files) => if clear_cache {
            fresh()
        } else {
            loaded(files)
        },
        None => fresh(),
    }
}

/// Whether the index has an entry with this fingerprint.
pub open spec fn has_entry(items: Entries, fingerprint: Seq<char>) -> bool {
    exists|i: int| 0 <= i < items.len() && (#[trigger] items[i]).1 == fingerprint
}

/// Whether the index has an entry with this fingerprint that has not
/// expired at the time `now`.
pub open spec fn has_fresh_entry(items: Entries, fingerprint: Seq<char>, now: u64) -> bool {
    exists|i: int|
        0 <= i < items.len() && (#[trigger] items[i]).1 == fingerprint && items[i].0 >= now
}

/// The body that a fingerprint with an entry has in the directory.
pub open spec fn body_of(cache: CacheView, fingerprint: Seq<char>) -> Result<Seq<u8>, FetchError> {
    match file_data(cache.files, fingerprint) {
        Some(body) => Ok(body),
        None => Err(FetchError::NotFound),
    }
}

/// What the cache holds for a request. Only `GET` requests are answered.
/// The request is looked up by its fingerprint; the body is the content of
/// the file that the fingerprint names.
pub open spec fn lookup(cache: CacheView, request: RequestView) -> Result<Seq<u8>, FetchError> {
    if request.method != HTTPMethod::GET {
        Err(FetchError::UnsupportedMethod)
    } else if has_entry(cache.items, fingerprint_of(request)) {
        body_of(cache, fingerprint_of(request))
    } else {
        Err(FetchError::NotFound)
    }
}

/// What the cache holds for a request at the time `now`: as `lookup`, but
/// entries that have expired do not count.
pub open spec fn lookup_fresh(cache: CacheView, request: RequestView, now: u64) -> Result<
    Seq<u8>,
    FetchError,
> {
    if request.method != HTTPMethod::GET {
        Err(FetchError::UnsupportedMethod)
    } else if has_fresh_entry(cache.items, fingerprint_of(request), now) {
        body_of(cache, fingerprint_of(request))
    } else {
        Err(FetchError::NotFound)
    }
}

/// The cache after a body was stored under a fingerprint: the body is
/// written to the file that the fingerprint names, an entry comes last in
/// the index, and the control file is written anew.
pub open spec fn stored(cache: CacheView, fingerprint: Seq<char>, body: Seq<u8>, expiry: u64) -> CacheView {
    let items = cache.items.push((expiry, fingerprint));
    CacheView {
        items,
        files: with_file(
            with_file(cache.files, fingerprint, body),
            control_name(),
            encode_utf8(control_text(items)),
        ),
    }
}

impl Cache {
    /// Sets the cache up from the content of its directory.
    pub fn initialize(directory: Option<Vec<StoredFile>>, clear_cache: bool) -> (cache: Cache)
        ensures
            cache@ == initial(
                match directory {
                    Some(files) => Some(files_of(files@)),
                    None => None,
                },
                clear_cache,
            ),
    {
        let given = match directory {
            Some(files) => if clear_cache {
                None
            } else {
                Some(files)
            },
            None => None,
        };
        match given {
            None => {
                let mut files: Vec<StoredFile> = Vec::new();
                files.push(StoredFile { name: ".control".to_owned(), data: Vec::new() });
                let cache = Cache { items: Vec::new(), files };
                proof {
                    assert(cache@.items =~= fresh().items);
                    assert(cache@.files =~= fresh().files);
                }
                cache
            },
            Some(files) => {
                let mut files = files;
                let at = find_file(&files, ".control");
                let items = if at < files.len() {
                    match text_of(files[at].data.as_slice()) {
                        Some(text) => {
                            let chars = chars_of(text.as_str());
                            parse_control(chars.as_slice())
                        },
                        None => {
                            let items = Vec::new();
                            assert(entries_of(items@) =~= control_items(Seq::<char>::empty()));
                            items
                        },
                    }
                } else {
                    let items = Vec::new();
                    assert(entries_of(items@) =~= control_items(Seq::<char>::empty()));
                    items
                };
                if at >= files.len() {
                    let ghost before = files_of(files@);
                    files.push(StoredFile { name: ".control".to_owned(), data: Vec::new() });
                    proof {
                        assert(files_of(files@) =~= before.push(
                            (control_name(), Seq::<u8>::empty()),
                        ));
                    }
                }
                Cache { items, files }
            },
        }
    }

    /// The number of entries in the index.
    pub fn len(&self) -> (n: usize)
        ensures
            n == self@.items.len(),
    {
        self.items.len()
    }

    /// The content of the file named `name` in the directory.
    pub fn file(&self, name: &str) -> (data: Option<&Vec<u8>>)
        ensures
            match data {
                Some(d) => file_data(self@.files, name@) == Some(d@),
                None => file_data(self@.files, name@).is_none(),
            },
    {
        let at = find_file(&self.files, name);
        if at < self.files.len() {
            Some(&self.files[at].data)
        } else {
            None
        }
    }

    /// The text of the control file of the index.
    pub fn control(&self) -> (text: String)
        ensures
            text@ == control_text(self@.items),
    {
        serialize_control(&self.items)
    }

    /// Whether the index has an entry with this fingerprint.
    fn holds(&self, fingerprint: &str) -> (yes: bool)
        ensures
            yes == has_entry(self@.items, fingerprint@),
    {
        let mut i: usize = 0;
        while i < self.items.len()
            invariant
                i <= self.items.len(),
                forall|j: int| 0 <= j < i ==> (#[trigger] entries_of(self.items@)[j]).1 != fingerprint@,
            decreases self.items.len() - i,
        {
            if same_text(self.items[i].path_string.as_str(), fingerprint) {
                assert(entries_of(self.items@)[i as int].1 == fingerprint@);
                return true;
            }
            i += 1;
        }
        false
    }

    /// Whether the index has an entry with this fingerprint that has not
    /// expired at the time `now`.
    fn holds_fresh(&self, fingerprint: &str, now: u64) -> (yes: bool)
        ensures
            yes == has_fresh_entry(self@.items, fingerprint@, now),
    {
        let mut i: usize = 0;
        while i < self.items.len()
            invariant
                i <= self.items.len(),
                forall|j: int|
                    0 <= j < i ==> !((#[trigger] entries_of(self.items@)[j]).1 == fingerprint@
                        && entries_of(self.items@)[j].0 >= now),
            decreases self.items.len() - i,
        {
            if self.items[i].expiry >= now && same_text(
                self.items[i].path_string.as_str(),
                fingerprint,
            ) {
                assert(entries_of(self.items@)[i as int].1 == fingerprint@);
                return true;
            }
            i += 1;
        }
        false
    }

    /// The body that was stored for `request`, whatever its expiry.
    pub fn extract(&self, request: &HTTPRequest) -> (out: Result<Vec<u8>, FetchError>)
        ensures
            match out {
                Ok(body) => lookup(self@, request@) == Ok::<Seq<u8>, FetchError>(body@),
                Err(e) => lookup(self@, request@) == Err::<Seq<u8>, FetchError>(e),
            },
    {
        match request.method {
            HTTPMethod::GET => {},
            _ => {
                return Err(FetchError::UnsupportedMethod);
            },
        }
        let fingerprint = hash_from(request);
        if !self.holds(fingerprint.as_str()) {
            return Err(FetchError::NotFound);
        }
        match self.file(fingerprint.as_str()) {
            Some(body) => Ok(body.clone()),
            None => Err(FetchError::NotFound),
        }
    }

    /// The body that was stored for `request` and has not expired at the
    /// time `now`.
    pub fn extract_fresh(&self, request: &HTTPRequest, now: u64) -> (out: Result<Vec<u8>, FetchError>)
        ensures
            match out {
                Ok(body) => lookup_fresh(self@, request@, now) == Ok::<Seq<u8>, FetchError>(body@),
                Err(e) => lookup_fresh(self@, request@, now) == Err::<Seq<u8>, FetchError>(e),
            },
    {
        match request.method {
            HTTPMethod::GET => {},
            _ => {
                return Err(FetchError::UnsupportedMethod);
            },
        }
        let fingerprint = hash_from(request);
        if !self.holds_fresh(fingerprint.as_str(), now) {
            return Err(FetchError::NotFound);
        }
        match self.file(fingerprint.as_str()) {
            Some(body) => Ok(body.clone()),
            None => Err(FetchError::NotFound),
        }
    }

    /// Stores `response` as the body of `request`, to expire at `expiry`.
    pub fn insert(&mut self, request: &HTTPRequest, response: Vec<u8>, expiry: u64)
        ensures
            final(self)@ == stored(old(self)@, fingerprint_of(request@), response@, expiry),
    {
        let file_name_hash = hash_from(request);
        let ghost before = self@;
        write_file(&mut self.files, file_name_hash.clone(), response);
        self.items.push(Item { expiry, path_string: file_name_hash });
        proof {
            assert(entries_of(self.items@) =~= before.items.push(
                (expiry, fingerprint_of(request@)),
            ));
        }
        let control = serialize_control(&self.items);
        let bytes = vstd::slice::slice_to_vec(control.as_str().as_bytes());
        write_file(&mut self.files, ".control".to_owned(), bytes);
    }
}

/// No fingerprint is the name of the control file.
pub proof fn lemma_fingerprint_is_no_control(bytes: Seq<u8>)
    ensures
        hex_upper(bytes) != control_name(),
{
    reveal_strlit(".control");
    if bytes.len() > 0 {
        let d = (bytes[0] / 16) as nat;
        assert(hex_upper(bytes)[0] == crate::text::hex_digit(d));
        assert(d < 16);
        assert(crate::text::hex_digit(d) != '.');
        assert(control_name()[0] == '.');
    } else {
        assert(hex_upper(bytes).len() == 0);
        assert(control_name().len() == 8);
    }
}

/// What was stored for a request is found for it: after a body was stored
/// for a `GET` request, the cache holds that body for the request, whatever
/// it held before and whenever the entry expires.
pub proof fn lemma_stored_is_found(cache: CacheView, request: RequestView, body: Seq<u8>, expiry: u64)
    requires
        request.method == HTTPMethod::GET,
    ensures
        lookup(stored(cache, fingerprint_of(request), body, expiry), request) == Ok::<
            Seq<u8>,
            FetchError,
        >(body),
{
    let fingerprint = fingerprint_of(request);
    let after = stored(cache, fingerprint, body, expiry);
    lemma_fingerprint_is_no_control(sha256(encode_utf8(canonical_text(request.url))));
    let written = with_file(cache.files, fingerprint, body);
    lemma_with_file(cache.files, fingerprint, body, fingerprint);
    lemma_with_file(written, control_name(), encode_utf8(control_text(after.items)), fingerprint);
    assert(after.items[after.items.len() - 1].1 == fingerprint);
}

/// What was stored for one request leaves the others alone: a request
/// whose fingerprint differs from that of the stored one is answered as
/// before.
pub proof fn lemma_stored_keeps_others(
    cache: CacheView,
    request: RequestView,
    body: Seq<u8>,
    expiry: u64,
    other: RequestView,
)
    requires
        fingerprint_of(other) != fingerprint_of(request),
    ensures
        lookup(stored(cache, fingerprint_of(request), body, expiry), other) == lookup(
            cache,
            other,
        ),
{
    let fingerprint = fingerprint_of(request);
    let wanted = fingerprint_of(other);
    let after = stored(cache, fingerprint, body, expiry);
    lemma_fingerprint_is_no_control(sha256(encode_utf8(canonical_text(other.url))));
    let written = with_file(cache.files, fingerprint, body);
    lemma_with_file(cache.files, fingerprint, body, wanted);
    lemma_with_file(written, control_name(), encode_utf8(control_text(after.items)), wanted);
    if has_entry(cache.items, wanted) {
        let i = choose|i: int| 0 <= i < cache.items.len() && (#[trigger] cache.items[i]).1 == wanted;
        assert(after.items[i].1 == wanted);
    }
    if has_entry(after.items, wanted) {
        let i = choose|i: int| 0 <= i < after.items.len() && (#[trigger] after.items[i]).1 == wanted;
        assert(i < cache.items.len());
        assert(cache.items[i].1 == wanted);
    }
}

/// A cache that was made anew holds nothing: every `GET` request misses.
pub proof fn lemma_fresh_misses(request: RequestView)
    requires
        request.method == HTTPMethod::GET,
    ensures
        lookup(fresh(), request) == Err::<Seq<u8>, FetchError>(FetchError::NotFound),
{
}

/// A request that does not read is not answered from the cache.
pub proof fn lemma_only_get_is_answered(cache: CacheView, request: RequestView)
    requires
        request.method != HTTPMethod::GET,
    ensures
        lookup(cache, request) == Err::<Seq<u8>, FetchError>(FetchError::UnsupportedMethod),
{
}

/// Whether a fingerprint can stand in a control file: it holds no
/// semicolon and no line end.
pub open spec fn is_plain(fingerprint: Seq<char>) -> bool {
    forall|j: int|
        0 <= j < fingerprint.len() ==> (#[trigger] fingerprint[j]) != ';' && fingerprint[j] != '\n'
            && fingerprint[j] != '\r'
}

/// The line that records an entry is read as that entry.
pub proof fn lemma_record_round_trip(entry: (u64, Seq<char>))
    requires
        is_plain(entry.1),
    ensures
        record_of(record_line(entry)) == Some(entry),
        record_line(entry).len() > 0,
        forall|j: int|
            0 <= j < record_line(entry).len() ==> (#[trigger] record_line(entry)[j]) != '\n'
                && record_line(entry)[j] != '\r',
{
    let digits = decimal_digits(entry.0 as nat);
    let line = record_line(entry);
    crate::text::lemma_decimal_digits_value(entry.0 as nat);
    assert forall|j: int| 0 <= j < digits.len() implies '0' <= (#[trigger] digits[j]) <= '9' by {
        assert(crate::text::digit_of(digits[j], 10).is_some());
    }
    assert forall|j: int| 0 <= j < line.len() implies (#[trigger] line[j]) != '\n' && line[j]
        != '\r' by {
        if j < digits.len() {
            assert(line[j] == digits[j]);
        } else if j > digits.len() {
            assert(line[j] == entry.1[j - digits.len() - 1]);
        }
    }
    assert forall|j: int| 0 <= j < digits.len() implies line[j] != ';' by {
        assert(line[j] == digits[j]);
    }
    assert(line[digits.len() as int] == ';');
    crate::text::lemma_position_is(line, ';', digits.len() as int);
    assert(line.take(digits.len() as int) =~= digits);
    let after = line.skip(digits.len() as int + 1);
    assert(after =~= entry.1);
    crate::text::lemma_position_is(after, ';', after.len() as int);
    assert(after.take(after.len() as int) =~= after);
}

/// The text of a control file, seen from its first line.
pub proof fn lemma_control_text_front(first: (u64, Seq<char>), rest: Entries)
    ensures
        control_text(seq![first] + rest) == if rest.len() == 0 {
            record_line(first)
        } else {
            record_line(first) + seq!['\n'] + control_text(rest)
        },
    decreases rest.len(),
{
    let items = seq![first] + rest;
    if rest.len() == 0 {
        assert(items.len() == 1);
        assert(items[0] == first);
    } else {
        let shorter = rest.drop_last();
        lemma_control_text_front(first, shorter);
        assert(items.drop_last() =~= seq![first] + shorter);
        assert(items.last() == rest.last());
        if shorter.len() == 0 {
            assert(rest.len() == 1);
            assert(rest[0] == rest.last());
            assert(control_text(rest) == record_line(rest.last()));
        } else {
            assert(control_text(items) =~= record_line(first) + seq!['\n'] + control_text(rest));
        }
    }
}

/// An index that was written to a control file is read back as it was,
/// where its fingerprints can stand in a control file.
pub proof fn lemma_control_round_trip(items: Entries)
    requires
        forall|i: int| 0 <= i < items.len() ==> is_plain((#[trigger] items[i]).1),
    ensures
        control_items(control_text(items)) == items,
    decreases items.len(),
{
    if items.len() == 0 {
        assert(control_items(control_text(items)) =~= items);
    } else {
        let first = items[0];
        let rest = items.drop_first();
        assert(items =~= seq![first] + rest);
        lemma_control_text_front(first, rest);
        lemma_record_round_trip(first);
        let line = record_line(first);
        let text = control_text(items);
        assert forall|i: int| 0 <= i < rest.len() implies is_plain((#[trigger] rest[i]).1) by {
            assert(rest[i] == items[i + 1]);
        }
        lemma_control_round_trip(rest);
        if rest.len() == 0 {
            assert(text == line);
            crate::text::lemma_position_is(text, '\n', text.len() as int);
            assert(text.take(text.len() as int) =~= text);
            assert(control_items(text) =~= seq![first] + Entries::empty());
        } else {
            assert(text == line + seq!['\n'] + control_text(rest));
            assert forall|j: int| 0 <= j < line.len() implies text[j] != '\n' by {
                assert(text[j] == line[j]);
            }
            assert(text[line.len() as int] == '\n');
            crate::text::lemma_position_is(text, '\n', line.len() as int);
            assert(text.take(line.len() as int) =~= line);
            assert(text.skip(line.len() as int + 1) =~= control_text(rest));
            assert(control_items(text) =~= seq![first] + rest);
        }
    }
}

/// Every fingerprint can stand in a control file.
pub proof fn lemma_fingerprint_is_plain(bytes: Seq<u8>)
    ensures
        is_plain(hex_upper(bytes)),
{
    assert forall|j: int| 0 <= j < hex_upper(bytes).len() implies (#[trigger] hex_upper(bytes)[j])
        != ';' && hex_upper(bytes)[j] != '\n' && hex_upper(bytes)[j] != '\r' by {
        let d = if j % 2 == 0 {
            (bytes[j / 2] / 16) as nat
        } else {
            (bytes[j / 2] % 16) as nat
        };
        assert(hex_upper(bytes)[j] == crate::text::hex_digit(d));
        assert(d < 16);
    }
}

/// What was stored survives a restart: the cache that is loaded from the
/// directory of a cache has the index of that cache, where the fingerprints
/// of the index can stand in a control file.
pub proof fn lemma_reload_recovers_index(
    cache: CacheView,
    fingerprint: Seq<char>,
    body: Seq<u8>,
    expiry: u64,
)
    requires
        forall|i: int| 0 <= i < cache.items.len() ==> is_plain((#[trigger] cache.items[i]).1),
        is_plain(fingerprint),
        fingerprint != control_name(),
    ensures
        loaded(stored(cache, fingerprint, body, expiry).files).items == stored(
            cache,
            fingerprint,
            body,
            expiry,
        ).items,
        file_data(loaded(stored(cache, fingerprint, body, expiry).files).files, fingerprint)
            == Some(body),
{
    let after = stored(cache, fingerprint, body, expiry);
    let text = control_text(after.items);
    let written = with_file(cache.files, fingerprint, body);
    lemma_with_file(cache.files, fingerprint, body, fingerprint);
    lemma_with_file(written, control_name(), encode_utf8(text), control_name());
    lemma_with_file(written, control_name(), encode_utf8(text), fingerprint);
    vstd::utf8::encode_utf8_valid_utf8(text);
    vstd::utf8::encode_utf8_decode_utf8(text);
    assert(control_of(after.files) == text);
    assert forall|i: int| 0 <= i < after.items.len() implies is_plain(
        (#[trigger] after.items[i]).1,
    ) by {
        if i < cache.items.len() {
            assert(after.items[i] == cache.items[i]);
        }
    }
    lemma_control_round_trip(after.items);
}

} // verus!
