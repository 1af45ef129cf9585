//! The header fields of a request or a response: a mapping from names to
//! values that keeps the fields in the order in which they came, and the
//! names as they were written. Names are compared without regard to the case
//! of their ASCII letters, and no two fields of one mapping have the same
//! name.

use crate::text::{eq_ignore_case, same_ignoring_case};
use vstd::prelude::*;
use vstd::string::*;

verus! {

/// One header field.
#[derive(Debug)]
pub struct HeaderField {
    pub name: String,
    pub value: String,
}

impl View for HeaderField {
    type V = (Seq<char>, Seq<char>);

    open spec fn view(&self) -> (Seq<char>, Seq<char>) {
        (self.name@, self.value@)
    }
}

/// The fields of a header block, as mathematical values: name and value.
pub type Fields = Seq<(Seq<char>, Seq<char>)>;

/// Index of the first field named `name`, or `fields.len()` where there is
/// none.
pub open spec fn name_index(fields: Fields, name: Seq<char>) -> int
    decreases fields.len(),
{
    if fields.len() == 0 {
        0
    } else if eq_ignore_case(fields[0].0, name) {
        0
    } else {
        1 + name_index(fields.drop_first(), name)
    }
}

/// The value of the field named `name`.
pub open spec fn field_value(fields: Fields, name: Seq<char>) -> Option<Seq<char>> {
    let i = name_index(fields, name);
    if 0 <= i < fields.len() {
        Some(fields[i].1)
    } else {
        None
    }
}

/// The fields after `name` was given `value`: the field of that name is
/// written anew where it stands, or a new field comes last.
pub open spec fn with_field(fields: Fields, name: Seq<char>, value: Seq<char>) -> Fields {
    let i = name_index(fields, name);
    if 0 <= i < fields.len() {
        fields.update(i, (name, value))
    } else {
        fields.push((name, value))
    }
}

/// No two fields have the same name.
pub open spec fn distinct_names(fields: Fields) -> bool {
    forall|i: int, j: int|
        0 <= i < j < fields.len() ==> !eq_ignore_case(
            (#[trigger] fields[i]).0,
            (#[trigger] fields[j]).0,
        )
}

/// The fields as they are sent: each as its name, a colon and a space, its
/// value, and a line end.
pub open spec fn wire_form(fields: Fields) -> Seq<char>
    decreases fields.len(),
{
    if fields.len() == 0 {
        Seq::<char>::empty()
    } else {
        wire_form(fields.drop_last()) + fields.last().0 + seq![':', ' '] + fields.last().1
            + seq!['\r', '\n']
    }
}

/// What `name_index` returns: the least index of a field of that name, or
/// the length.
pub proof fn lemma_name_index(fields: Fields, name: Seq<char>)
    ensures
        0 <= name_index(fields, name) <= fields.len(),
        name_index(fields, name) < fields.len() ==> eq_ignore_case(
            fields[name_index(fields, name)].0,
            name,
        ),
        forall|j: int|
            0 <= j < name_index(fields, name) ==> !eq_ignore_case((#[trigger] fields[j]).0, name),
    decreases fields.len(),
{
    if fields.len() > 0 && !eq_ignore_case(fields[0].0, name) {
        let rest = fields.drop_first();
        lemma_name_index(rest, name);
        assert forall|j: int| 0 <= j < name_index(fields, name) implies !eq_ignore_case(
            (#[trigger] fields[j]).0,
            name,
        ) by {
            if j > 0 {
                assert(rest[j - 1] == fields[j]);
            }
        }
    }
}

/// An index with no field of that name before it, which holds such a field
/// or is the length, is `name_index(fields, name)`.
pub proof fn lemma_name_index_is(fields: Fields, name: Seq<char>, i: int)
    requires
        0 <= i <= fields.len(),
        forall|j: int| 0 <= j < i ==> !eq_ignore_case((#[trigger] fields[j]).0, name),
        i < fields.len() ==> eq_ignore_case(fields[i].0, name),
    ensures
        name_index(fields, name) == i,
{
    lemma_name_index(fields, name);
    let p = name_index(fields, name);
    if p < i {
        assert(!eq_ignore_case(fields[p].0, name));
    } else if i < p {
        assert(!eq_ignore_case(fields[i].0, name));
    }
}

/// Giving a name a value keeps the names distinct.
pub proof fn lemma_with_field_distinct(fields: Fields, name: Seq<char>, value: Seq<char>)
    requires
        distinct_names(fields),
    ensures
        distinct_names(with_field(fields, name, value)),
{
    lemma_name_index(fields, name);
    let i = name_index(fields, name);
    let after = with_field(fields, name, value);
    assert forall|a: int, b: int| 0 <= a < b < after.len() implies !eq_ignore_case(
        (#[trigger] after[a]).0,
        (#[trigger] after[b]).0,
    ) by {
        if i < fields.len() {
            if a == i {
                assert(!eq_ignore_case(fields[i].0, fields[b].0));
                if eq_ignore_case(name, fields[b].0) {
                    assert(eq_ignore_case(fields[i].0, fields[b].0));
                }
            } else if b == i {
                assert(!eq_ignore_case(fields[a].0, fields[i].0));
                if eq_ignore_case(fields[a].0, name) {
                    assert(eq_ignore_case(fields[a].0, fields[i].0));
                }
            } else {
                assert(!eq_ignore_case(fields[a].0, fields[b].0));
            }
        } else {
            if b == fields.len() {
                assert(!eq_ignore_case(fields[a].0, name));
            } else {
                assert(!eq_ignore_case(fields[a].0, fields[b].0));
            }
        }
    }
}

/// After a name was given a value, the name has that value, and every other
/// name has the value that it had.
pub proof fn lemma_with_field_value(
    fields: Fields,
    name: Seq<char>,
    value: Seq<char>,
    other: Seq<char>,
)
    ensures
        field_value(with_field(fields, name, value), name) == Some(value),
        !eq_ignore_case(other, name) ==> field_value(with_field(fields, name, value), other)
            == field_value(fields, other),
{
    lemma_name_index(fields, name);
    lemma_name_index(fields, other);
    let i = name_index(fields, name);
    let k = name_index(fields, other);
    let after = with_field(fields, name, value);
    assert(eq_ignore_case(name, name));
    assert forall|j: int| 0 <= j < i implies !eq_ignore_case((#[trigger] after[j]).0, name) by {
        assert(after[j] == fields[j]);
    }
    lemma_name_index_is(after, name, i);
    if !eq_ignore_case(other, name) {
        assert forall|j: int| 0 <= j < k && j < after.len() implies !eq_ignore_case(
            (#[trigger] after[j]).0,
            other,
        ) by {
            if j == i {
                if eq_ignore_case(name, other) {
                    assert(eq_ignore_case(other, name));
                }
            } else {
                assert(after[j] == fields[j]);
            }
        }
        if k < fields.len() {
            if k == i {
                assert(eq_ignore_case(fields[i].0, name));
                assert(eq_ignore_case(fields[i].0, other));
                assert(eq_ignore_case(other, name));
            }
            assert(after[k] == fields[k]);
            lemma_name_index_is(after, other, k);
        } else {
            if i >= fields.len() {
                if eq_ignore_case(name, other) {
                    assert(eq_ignore_case(other, name));
                }
            }
            lemma_name_index_is(after, other, after.len() as int);
        }
    }
}

/// A mapping from header names to values.
#[derive(Debug)]
pub struct Headers {
    fields: Vec<HeaderField>,
}

impl View for Headers {
    type V = Fields;

    closed spec fn view(&self) -> Fields {
        self.fields@.map_values(|f: HeaderField| f@)
    }
}

impl Headers {
    #[verifier::type_invariant]
    spec fn names_are_distinct(self) -> bool {
        distinct_names(self@)
    }

    /// The value that the mapping gives `name`.
    pub open spec fn value_of(self, name: Seq<char>) -> Option<Seq<char>> {
        field_value(self@, name)
    }

    /// The empty mapping.
    pub fn new() -> (headers: Headers)
        ensures
            headers@ == Fields::empty(),
    {
        let headers = Headers { fields: Vec::new() };
        assert(headers@ =~= Fields::empty());
        headers
    }

    /// The number of fields.
    pub fn len(&self) -> (n: usize)
        ensures
            n == self@.len(),
    {
        self.fields.len()
    }

    /// Name and value of the field at `index`, in the order of arrival.
    pub fn field(&self, index: usize) -> (field: &HeaderField)
        requires
            index < self@.len(),
        ensures
            field@ == self@[index as int],
    {
        &self.fields[index]
    }

    /// Index of the field named `name`, or the number of fields where there
    /// is none.
    fn index_of(&self, name: &str) -> (at: usize)
        ensures
            at == name_index(self@, name@),
            at <= self@.len(),
    {
        let mut i: usize = 0;
        while i < self.fields.len()
            invariant
                i <= self.fields.len(),
                forall|j: int| 0 <= j < i ==> !eq_ignore_case((#[trigger] self@[j]).0, name@),
            decreases self.fields.len() - i,
        {
            if same_ignoring_case(self.fields[i].name.as_str(), name) {
                proof {
                    lemma_name_index_is(self@, name@, i as int);
                }
                return i;
            }
            i += 1;
        }
        proof {
            lemma_name_index_is(self@, name@, i as int);
        }
        i
    }

    /// The value of the field named `name`.
    pub fn get(&self, name: &str) -> (value: Option<&String>)
        ensures
            match value {
                Some(v) => self.value_of(name@) == Some(v@),
                None => self.value_of(name@).is_none(),
            },
    {
        let i = self.index_of(name);
        if i < self.fields.len() {
            Some(&self.fields[i].value)
        } else {
            None
        }
    }

    /// Whether there is a field named `name`.
    pub fn contains_key(&self, name: &str) -> (yes: bool)
        ensures
            yes == self.value_of(name@).is_some(),
    {
        let i = self.index_of(name);
        i < self.fields.len()
    }

    /// Gives `name` the value `value`. A field of that name is written anew
    /// where it stands; otherwise a new field comes last.
    pub fn insert(&mut self, name: String, value: String)
        ensures
            final(self)@ == with_field(old(self)@, name@, value@),
            distinct_names(final(self)@),
    {
        proof {
            use_type_invariant(&*self);
            lemma_with_field_distinct(self@, name@, value@);
        }
        let i = self.index_of(name.as_str());
        let ghost before = self@;
        let ghost wanted = with_field(before, name@, value@);
        let mut fields: Vec<HeaderField> = Vec::new();
        std::mem::swap(&mut fields, &mut self.fields);
        if i < fields.len() {
            fields.set(i, HeaderField { name, value });
        } else {
            fields.push(HeaderField { name, value });
        }
        assert(fields@.map_values(|f: HeaderField| f@) =~= wanted);
        self.fields = fields;
    }

    /// The fields as they are sent, in the order of arrival.
    pub fn serialize(&self) -> (out: String)
        ensures
            out@ == wire_form(self@),
    {
        let mut out = String::new();
        let mut i: usize = 0;
        while i < self.fields.len()
            invariant
                i <= self.fields.len(),
                out@ == wire_form(self@.take(i as int)),
            decreases self.fields.len() - i,
        {
            let f = &self.fields[i];
            proof {
                reveal_strlit(": ");
                reveal_strlit("\r\n");
                assert(self@.take(i + 1).drop_last() =~= self@.take(i as int));
                assert(self@.take(i + 1).last() == f@);
            }
            out.append(f.name.as_str());
            out.append(": ");
            out.append(f.value.as_str());
            out.append("\r\n");
            proof {
                assert(out@ =~= wire_form(self@.take(i + 1)));
            }
            i += 1;
        }
        proof {
            assert(self@.take(self@.len() as int) =~= self@);
        }
        out
    }

    /// A copy of this mapping.
    pub fn duplicate(&self) -> (copy: Headers)
        ensures
            copy@ == self@,
            distinct_names(copy@),
    {
        proof {
            use_type_invariant(self);
        }
        let mut fields: Vec<HeaderField> = Vec::new();
        let mut i: usize = 0;
        while i < self.fields.len()
            invariant
                i <= self.fields.len(),
                fields@.len() == i,
                forall|j: int| 0 <= j < i ==> (#[trigger] fields@[j])@ == self.fields@[j]@,
            decreases self.fields.len() - i,
        {
            let f = &self.fields[i];
            fields.push(HeaderField { name: f.name.clone(), value: f.value.clone() });
            i += 1;
        }
        assert(fields@.map_values(|f: HeaderField| f@) =~= self@);
        Headers { fields }
    }
}

} // verus!
