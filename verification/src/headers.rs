//! The header fields of a handshake message: names mapped to values.
//!
//! Names and values are byte strings. A name occurs at most once; the fields
//! keep the order in which their names were first inserted, which is the order
//! in which they are written out.

use crate::text::{bytes_eq, bytes_eq_ignore_case, eq_ignore_case};
use vstd::prelude::*;

verus! {

/// The mathematical value of a header map: its fields in order, each a name
/// and a value.
pub type Fields = Seq<(Seq<u8>, Seq<u8>)>;

/// Whether a field name is the one looked for, exactly or up to ASCII case.
pub open spec fn name_matches(name: Seq<u8>, wanted: Seq<u8>, ignore_case: bool) -> bool {
    if ignore_case {
        eq_ignore_case(name, wanted)
    } else {
        name == wanted
    }
}

/// Whether some field carries the wanted name.
pub open spec fn has_name(fields: Fields, wanted: Seq<u8>, ignore_case: bool) -> bool {
    exists|i: int| 0 <= i < fields.len() && name_matches(#[trigger] fields[i].0, wanted, ignore_case)
}

/// Whether `i` is the index of the first field that carries the wanted name.
pub open spec fn is_position(fields: Fields, wanted: Seq<u8>, ignore_case: bool, i: int) -> bool {
    &&& 0 <= i < fields.len()
    &&& name_matches(fields[i].0, wanted, ignore_case)
    &&& forall|j: int| 0 <= j < i ==> !name_matches(#[trigger] fields[j].0, wanted, ignore_case)
}

/// The index of the first field that carries the wanted name.
pub open spec fn position(fields: Fields, wanted: Seq<u8>, ignore_case: bool) -> Option<int> {
    if has_name(fields, wanted, ignore_case) {
        Some(choose|i: int| is_position(fields, wanted, ignore_case, i))
    } else {
        None
    }
}

/// The value of the first field that carries the wanted name.
pub open spec fn lookup(fields: Fields, wanted: Seq<u8>, ignore_case: bool) -> Option<Seq<u8>> {
    match position(fields, wanted, ignore_case) {
        Some(i) => Some(fields[i].1),
        None => None,
    }
}

/// The value that a reader of the header `wanted` finds: the value under
/// exactly that name where there is such a field, and only otherwise the
/// value of the first field whose name equals it up to ASCII case.
pub open spec fn field_value(fields: Fields, wanted: Seq<u8>) -> Option<Seq<u8>> {
    match lookup(fields, wanted, false) {
        Some(value) => Some(value),
        None => lookup(fields, wanted, true),
    }
}

/// No two fields carry the same name.
pub open spec fn distinct_names(fields: Fields) -> bool {
    forall|i: int, j: int|
        0 <= i < j < fields.len() ==> (#[trigger] fields[i]).0 != (#[trigger] fields[j]).0
}

/// The fields after `name` is set to `value`: the field of that name gets the
/// new value in place, or, where there is none, a new field goes to the end.
pub open spec fn with_field(fields: Fields, name: Seq<u8>, value: Seq<u8>) -> Fields {
    match position(fields, name, false) {
        Some(i) => fields.update(i, (name, value)),
        None => fields.push((name, value)),
    }
}

/// The first position is unique, so `position` names it.
pub proof fn lemma_position_is(fields: Fields, wanted: Seq<u8>, ignore_case: bool, i: int)
    requires
        is_position(fields, wanted, ignore_case, i),
    ensures
        position(fields, wanted, ignore_case) == Some(i),
        lookup(fields, wanted, ignore_case) == Some(fields[i].1),
{
    assert(name_matches(fields[i].0, wanted, ignore_case));
    let j = choose|j: int| is_position(fields, wanted, ignore_case, j);
    assert(is_position(fields, wanted, ignore_case, j));
    if j < i {
        assert(!name_matches(fields[j].0, wanted, ignore_case));
    } else if i < j {
        assert(!name_matches(fields[i].0, wanted, ignore_case));
    }
}

/// What `position` returns: the first index that carries the name where
/// there is one, and nothing where no field carries it.
pub proof fn lemma_position(fields: Fields, wanted: Seq<u8>, ignore_case: bool)
    ensures
        match position(fields, wanted, ignore_case) {
            Some(i) => is_position(fields, wanted, ignore_case, i),
            None => forall|j: int|
                0 <= j < fields.len() ==> !name_matches(
                    #[trigger] fields[j].0,
                    wanted,
                    ignore_case,
                ),
        },
{
    if has_name(fields, wanted, ignore_case) {
        let w = choose|w: int|
            0 <= w < fields.len() && name_matches(#[trigger] fields[w].0, wanted, ignore_case);
        lemma_first_exists(fields, wanted, ignore_case, w);
    }
}

/// Setting a field keeps the names distinct, and a lookup of that name then
/// yields the new value while every other name keeps its value.
pub proof fn lemma_with_field(fields: Fields, name: Seq<u8>, value: Seq<u8>)
    requires
        distinct_names(fields),
    ensures
        distinct_names(with_field(fields, name, value)),
        lookup(with_field(fields, name, value), name, false) == Some(value),
        forall|other: Seq<u8>|
            other != name ==> #[trigger] lookup(with_field(fields, name, value), other, false)
                == lookup(fields, other, false),
{
    let after = with_field(fields, name, value);
    lemma_position(fields, name, false);
    match position(fields, name, false) {
        Some(i) => {
            assert(is_position(fields, name, false, i));
            assert(is_position(after, name, false, i)) by {
                assert forall|j: int| 0 <= j < i implies !name_matches(
                    #[trigger] after[j].0,
                    name,
                    false,
                ) by {
                    assert(after[j] == fields[j]);
                    assert(!name_matches(fields[j].0, name, false));
                }
            }
            lemma_position_is(after, name, false, i);
            assert forall|a: int, b: int| 0 <= a < b < after.len() implies (#[trigger] after[a]).0
                != (#[trigger] after[b]).0 by {
                assert(after[a].0 == fields[a].0);
                assert(after[b].0 == fields[b].0);
            }
        },
        None => {
            let n = fields.len() as int;
            assert(is_position(after, name, false, n)) by {
                assert forall|j: int| 0 <= j < n implies !name_matches(
                    #[trigger] after[j].0,
                    name,
                    false,
                ) by {
                    assert(after[j] == fields[j]);
                    if name_matches(fields[j].0, name, false) {
                        assert(has_name(fields, name, false));
                    }
                }
            }
            lemma_position_is(after, name, false, n);
            assert forall|a: int, b: int| 0 <= a < b < after.len() implies (#[trigger] after[a]).0
                != (#[trigger] after[b]).0 by {
                assert(after[a] == fields[a]);
                if b < n {
                    assert(after[b] == fields[b]);
                } else {
                    if fields[a].0 == name {
                        assert(name_matches(fields[a].0, name, false));
                        assert(has_name(fields, name, false));
                    }
                }
            }
        },
    }
    assert forall|other: Seq<u8>| other != name implies #[trigger] lookup(after, other, false)
        == lookup(fields, other, false) by {
        lemma_lookup_other(fields, name, value, other);
    }
}

/// Setting one name leaves the lookup of every other name as it was.
proof fn lemma_lookup_other(fields: Fields, name: Seq<u8>, value: Seq<u8>, other: Seq<u8>)
    requires
        other != name,
    ensures
        lookup(with_field(fields, name, value), other, false) == lookup(fields, other, false),
{
    let after = with_field(fields, name, value);
    lemma_position(fields, name, false);
    lemma_position(fields, other, false);
    lemma_position(after, other, false);
    match position(fields, other, false) {
        Some(i) => {
            assert(after[i] == fields[i]);
            assert(is_position(after, other, false, i)) by {
                assert forall|j: int| 0 <= j < i implies !name_matches(
                    #[trigger] after[j].0,
                    other,
                    false,
                ) by {
                    assert(!name_matches(fields[j].0, other, false));
                    assert(after[j].0 == fields[j].0 || after[j].0 == name);
                }
            }
            lemma_position_is(after, other, false, i);
        },
        None => {
            match position(after, other, false) {
                Some(w) => {
                    if w < fields.len() {
                        assert(after[w].0 == fields[w].0 || after[w].0 == name);
                        assert(!name_matches(fields[w].0, other, false));
                    }
                    assert(false);
                },
                None => {},
            }
        },
    }
}

/// Where some field carries the wanted name, a first such field exists.
pub proof fn lemma_first_exists(fields: Fields, wanted: Seq<u8>, ignore_case: bool, at: int)
    requires
        0 <= at < fields.len(),
        name_matches(fields[at].0, wanted, ignore_case),
    ensures
        exists|i: int| is_position(fields, wanted, ignore_case, i),
        has_name(fields, wanted, ignore_case),
    decreases at,
{
    if exists|j: int| 0 <= j < at && name_matches(#[trigger] fields[j].0, wanted, ignore_case) {
        let j = choose|j: int|
            0 <= j < at && name_matches(#[trigger] fields[j].0, wanted, ignore_case);
        lemma_first_exists(fields, wanted, ignore_case, j);
    } else {
        assert(is_position(fields, wanted, ignore_case, at));
    }
}

/// One header field.
#[derive(Debug, Clone, PartialEq, Eq)]
pub struct Header {
    pub name: Vec<u8>,
    pub value: Vec<u8>,
}

impl View for Header {
    type V = (Seq<u8>, Seq<u8>);

    open spec fn view(&self) -> (Seq<u8>, Seq<u8>) {
        (self.name@, self.value@)
    }
}

/// A map from header names to header values. Names are case-sensitive keys;
/// each occurs at most once.
#[derive(Debug, PartialEq, Eq)]
pub struct HeaderMap {
    entries: Vec<Header>,
}

impl View for HeaderMap {
    type V = Fields;

    closed spec fn view(&self) -> Fields {
        Seq::new(self.entries@.len(), |i: int| self.entries@[i]@)
    }
}

impl HeaderMap {
    #[verifier::type_invariant]
    spec fn names_are_distinct(&self) -> bool {
        distinct_names(self@)
    }

    /// An empty map.
    pub fn new() -> (map: HeaderMap)
        ensures
            map@ == Fields::empty(),
    {
        let map = HeaderMap { entries: Vec::new() };
        assert(map@ =~= Fields::empty());
        map
    }

    /// The number of fields.
    pub fn len(&self) -> (n: usize)
        ensures
            n == self@.len(),
    {
        self.entries.len()
    }

    /// Whether the map has no field.
    pub fn is_empty(&self) -> (empty: bool)
        ensures
            empty == (self@.len() == 0),
    {
        self.entries.len() == 0
    }

    /// The field at index `i`, in insertion order.
    pub fn entry(&self, i: usize) -> (field: &Header)
        requires
            i < self@.len(),
        ensures
            field@ == self@[i as int],
            distinct_names(self@),
    {
        proof {
            use_type_invariant(self);
        }
        &self.entries[i]
    }

    /// Finds the first field whose name is `name`, exactly or up to ASCII
    /// case.
    fn position_of(&self, name: &[u8], ignore_case: bool) -> (found: Option<usize>)
        ensures
            match found {
                Some(i) => is_position(self@, name@, ignore_case, i as int),
                None => !has_name(self@, name@, ignore_case),
            },
            match found {
                Some(i) => position(self@, name@, ignore_case) == Some(i as int),
                None => position(self@, name@, ignore_case) is None,
            },
    {
        let mut i: usize = 0;
        while i < self.entries.len()
            invariant
                i <= self.entries@.len(),
                self@.len() == self.entries@.len(),
                forall|j: int| 0 <= j < i ==> !name_matches(#[trigger] self@[j].0, name@, ignore_case),
            decreases self.entries@.len() - i,
        {
            let field = &self.entries[i];
            assert(field@ == self@[i as int]);
            let hit = if ignore_case {
                bytes_eq_ignore_case(field.name.as_slice(), name)
            } else {
                bytes_eq(field.name.as_slice(), name)
            };
            if hit {
                proof {
                    lemma_position_is(self@, name@, ignore_case, i as int);
                }
                return Some(i);
            }
            i += 1;
        }
        None
    }

    /// The value stored under exactly this name.
    pub fn get(&self, name: &[u8]) -> (value: Option<&Vec<u8>>)
        ensures
            match value {
                Some(v) => lookup(self@, name@, false) == Some(v@),
                None => lookup(self@, name@, false) is None,
            },
    {
        match self.position_of(name, false) {
            Some(i) => Some(&self.entries[i].value),
            None => None,
        }
    }

    /// The value of the first field whose name equals `name` up to ASCII
    /// case.
    pub fn get_ignore_case(&self, name: &[u8]) -> (value: Option<&Vec<u8>>)
        ensures
            match value {
                Some(v) => lookup(self@, name@, true) == Some(v@),
                None => lookup(self@, name@, true) is None,
            },
    {
        match self.position_of(name, true) {
            Some(i) => Some(&self.entries[i].value),
            None => None,
        }
    }

    /// The value of the header `name`: the value stored under exactly this
    /// name where there is one, and only otherwise the value of the first
    /// field whose name equals it up to ASCII case.
    pub fn value_of(&self, name: &[u8]) -> (value: Option<&Vec<u8>>)
        ensures
            match value {
                Some(v) => field_value(self@, name@) == Some(v@),
                None => field_value(self@, name@) is None,
            },
    {
        match self.get(name) {
            Some(value) => Some(value),
            None => self.get_ignore_case(name),
        }
    }

    /// Whether a field of exactly this name exists.
    pub fn contains_key(&self, name: &[u8]) -> (present: bool)
        ensures
            present == has_name(self@, name@, false),
            present == lookup(self@, name@, false).is_some(),
    {
        self.position_of(name, false).is_some()
    }

    /// Sets `name` to `value` and returns the value that the name had before.
    /// An existing field keeps its place; a new one goes to the end.
    pub fn insert(&mut self, name: Vec<u8>, value: Vec<u8>) -> (previous: Option<Vec<u8>>)
        ensures
            final(self)@ == with_field(old(self)@, name@, value@),
            match previous {
                Some(v) => lookup(old(self)@, name@, false) == Some(v@),
                None => lookup(old(self)@, name@, false) is None,
            },
    {
        proof {
            use_type_invariant(&*self);
            lemma_with_field(self@, name@, value@);
        }
        let ghost before = self@;
        match self.position_of(name.as_slice(), false) {
            Some(i) => {
                let mut entries: Vec<Header> = Vec::new();
                core::mem::swap(&mut entries, &mut self.entries);
                let replaced = entries.remove(i);
                entries.insert(i, Header { name, value });
                let ghost fields = Seq::new(entries@.len(), |k: int| entries@[k]@);
                assert(fields =~= with_field(before, name@, value@));
                *self = HeaderMap { entries };
                assert(replaced@ == before[i as int]);
                Some(replaced.value)
            },
            None => {
                let mut entries: Vec<Header> = Vec::new();
                core::mem::swap(&mut entries, &mut self.entries);
                entries.push(Header { name, value });
                let ghost fields = Seq::new(entries@.len(), |k: int| entries@[k]@);
                assert(fields =~= with_field(before, name@, value@));
                *self = HeaderMap { entries };
                None
            },
        }
    }
}

} // verus!
