//! Header fields: names that occur once, each with its value, kept in the
//! order in which the names first came.

use vstd::prelude::*;
use vstd::slice::slice_to_vec;
use vstd::string::*;

verus! {

/// A header field as a value: its name and its bytes.
pub type Field = (Seq<char>, Seq<u8>);

/// The index of the first field at or after `from` that is named `name`, or
/// `fields.len()` when there is none.
pub open spec fn position(fields: Seq<Field>, name: Seq<char>, from: int) -> int
    decreases fields.len() - from,
{
    if from < 0 || from >= fields.len() {
        fields.len() as int
    } else if fields[from].0 == name {
        from
    } else {
        position(fields, name, from + 1)
    }
}

/// No name occurs twice.
pub open spec fn distinct_names(fields: Seq<Field>) -> bool {
    forall|i: int, j: int|
        0 <= i < j < fields.len() ==> (#[trigger] fields[i]).0 != (#[trigger] fields[j]).0
}

/// The fields after `name` is set to `value`: a field of that name gets the
/// new value where it stands, a new name goes to the end.
pub open spec fn insert_field(fields: Seq<Field>, name: Seq<char>, value: Seq<u8>) -> Seq<Field> {
    let i = position(fields, name, 0);
    if i < fields.len() {
        fields.update(i, (name, value))
    } else {
        fields.push((name, value))
    }
}

/// The value of the field named `name`.
pub open spec fn lookup(fields: Seq<Field>, name: Seq<char>) -> Option<Seq<u8>> {
    let i = position(fields, name, 0);
    if i < fields.len() {
        Some(fields[i].1)
    } else {
        None
    }
}

/// The fields as a mapping from name to value; of two fields with one name
/// the later one counts.
pub open spec fn as_map(fields: Seq<Field>) -> Map<Seq<char>, Seq<u8>>
    decreases fields.len(),
{
    if fields.len() == 0 {
        Map::empty()
    } else {
        as_map(fields.drop_last()).insert(fields.last().0, fields.last().1)
    }
}

/// `position` returns the least index of a field with that name, or the
/// length.
pub proof fn lemma_position(fields: Seq<Field>, name: Seq<char>, from: int)
    requires
        0 <= from <= fields.len(),
    ensures
        from <= position(fields, name, from) <= fields.len(),
        forall|j: int|
            from <= j < position(fields, name, from) ==> (#[trigger] fields[j]).0 != name,
        position(fields, name, from) < fields.len() ==> fields[position(fields, name, from)].0
            == name,
    decreases fields.len() - from,
{
    if from < fields.len() && fields[from].0 != name {
        lemma_position(fields, name, from + 1);
    }
}

/// An index with no field of that name before it that holds one, or is the
/// length, is the one that `position` returns.
pub proof fn lemma_position_is(fields: Seq<Field>, name: Seq<char>, from: int, i: int)
    requires
        0 <= from <= i <= fields.len(),
        forall|j: int| from <= j < i ==> (#[trigger] fields[j]).0 != name,
        i < fields.len() ==> fields[i].0 == name,
    ensures
        position(fields, name, from) == i,
    decreases i - from,
{
    if from < i {
        lemma_position_is(fields, name, from + 1, i);
    }
}

/// Setting a field keeps the names distinct.
pub proof fn lemma_insert_distinct(fields: Seq<Field>, name: Seq<char>, value: Seq<u8>)
    requires
        distinct_names(fields),
    ensures
        distinct_names(insert_field(fields, name, value)),
{
    lemma_position(fields, name, 0);
    let i = position(fields, name, 0);
    let after = insert_field(fields, name, value);
    assert forall|a: int, b: int| 0 <= a < b < after.len() implies (#[trigger] after[a]).0 != (
    #[trigger] after[b]).0 by {
        if i < fields.len() {
            assert(after[a].0 == fields[a].0);
            assert(after[b].0 == fields[b].0);
        } else if b < fields.len() {
            assert(after[a] == fields[a] && after[b] == fields[b]);
        } else {
            assert(after[a] == fields[a]);
        }
    }
}

/// The mapping holds exactly the names of the fields, and of distinct names
/// each with the value of its field.
pub proof fn lemma_as_map(fields: Seq<Field>)
    requires
        distinct_names(fields),
    ensures
        forall|i: int|
            0 <= i < fields.len() ==> as_map(fields).contains_key((#[trigger] fields[i]).0)
                && as_map(fields)[fields[i].0] == fields[i].1,
        forall|name: Seq<char>| #[trigger]
            as_map(fields).contains_key(name) ==> position(fields, name, 0) < fields.len(),
    decreases fields.len(),
{
    if fields.len() > 0 {
        let front = fields.drop_last();
        assert forall|a: int, b: int| 0 <= a < b < front.len() implies (#[trigger] front[a]).0 != (
        #[trigger] front[b]).0 by {
            assert(front[a] == fields[a] && front[b] == fields[b]);
        }
        lemma_as_map(front);
        assert forall|i: int| 0 <= i < fields.len() implies as_map(fields).contains_key(
            (#[trigger] fields[i]).0,
        ) && as_map(fields)[fields[i].0] == fields[i].1 by {
            if i < front.len() {
                assert(front[i] == fields[i]);
                assert(fields[i].0 != fields[fields.len() - 1].0);
            }
        }
        assert forall|name: Seq<char>| #[trigger]
            as_map(fields).contains_key(name) implies position(fields, name, 0) < fields.len() by {
            lemma_position(fields, name, 0);
            if name != fields.last().0 {
                assert(as_map(front).contains_key(name));
                lemma_position(front, name, 0);
                let k = position(front, name, 0);
                assert(front[k] == fields[k]);
                if position(fields, name, 0) >= fields.len() {
                    assert(fields[k].0 != name);
                }
            } else if position(fields, name, 0) >= fields.len() {
                assert(fields[fields.len() - 1].0 != name);
            }
        }
    }
}

/// Looking a name up in the fields is looking it up in their mapping.
pub proof fn lemma_lookup_is_map_lookup(fields: Seq<Field>, name: Seq<char>)
    requires
        distinct_names(fields),
    ensures
        lookup(fields, name) == if as_map(fields).contains_key(name) {
            Some(as_map(fields)[name])
        } else {
            None
        },
{
    lemma_as_map(fields);
    lemma_position(fields, name, 0);
    let i = position(fields, name, 0);
    if i < fields.len() {
        assert(as_map(fields).contains_key(fields[i].0));
    }
}

/// Last write wins: setting a field is an insertion into the mapping, so a
/// name set twice keeps the later value alone.
pub proof fn lemma_insert_is_map_insert(fields: Seq<Field>, name: Seq<char>, value: Seq<u8>)
    requires
        distinct_names(fields),
    ensures
        as_map(insert_field(fields, name, value)) == as_map(fields).insert(name, value),
{
    let after = insert_field(fields, name, value);
    lemma_insert_distinct(fields, name, value);
    lemma_as_map(fields);
    lemma_as_map(after);
    lemma_position(fields, name, 0);
    let i = position(fields, name, 0);
    let left = as_map(after);
    let right = as_map(fields).insert(name, value);
    assert forall|n: Seq<char>| left.contains_key(n) <==> right.contains_key(n) by {
        lemma_position(after, n, 0);
        lemma_position(fields, n, 0);
        if left.contains_key(n) && n != name {
            let k = position(after, n, 0);
            assert(after[k].0 == n);
            assert(k < fields.len());
            assert(fields[k] == after[k]);
            assert(as_map(fields).contains_key(fields[k].0));
        }
        if right.contains_key(n) {
            if n == name {
                let k = if i < fields.len() { i } else { fields.len() as int };
                assert(after[k].0 == name);
                assert(left.contains_key(after[k].0));
            } else {
                let k = position(fields, n, 0);
                assert(fields[k].0 == n);
                assert(after[k] == fields[k]);
                assert(left.contains_key(after[k].0));
            }
        }
    }
    assert forall|n: Seq<char>| left.contains_key(n) implies left[n] == right[n] by {
        lemma_position(after, n, 0);
        let k = position(after, n, 0);
        assert(after[k].0 == n);
        assert(left[after[k].0] == after[k].1);
        if n != name {
            assert(k < fields.len());
            assert(fields[k] == after[k]);
            assert(as_map(fields)[fields[k].0] == fields[k].1);
        } else {
            let at = if i < fields.len() { i } else { fields.len() as int };
            assert(after[at].0 == name);
            if k != at {
                if k < at {
                    assert(after[k].0 != after[at].0);
                } else {
                    assert(after[at].0 != after[k].0);
                }
            }
        }
    }
    assert(left =~= right);
}

/// The same names with the same values, in whatever order.
pub open spec fn same_fields(a: Seq<Field>, b: Seq<Field>) -> bool {
    &&& a.len() == b.len()
    &&& forall|i: int| 0 <= i < a.len() ==> lookup(b, (#[trigger] a[i]).0) == Some(a[i].1)
}

/// Fields with distinct names make a mapping with as many names.
pub proof fn lemma_as_map_len(fields: Seq<Field>)
    requires
        distinct_names(fields),
    ensures
        as_map(fields).dom().finite(),
        as_map(fields).dom().len() == fields.len(),
    decreases fields.len(),
{
    if fields.len() > 0 {
        let front = fields.drop_last();
        assert forall|a: int, b: int| 0 <= a < b < front.len() implies (#[trigger] front[a]).0 != (
        #[trigger] front[b]).0 by {
            assert(front[a] == fields[a] && front[b] == fields[b]);
        }
        lemma_as_map_len(front);
        lemma_as_map(front);
        let name = fields.last().0;
        if as_map(front).contains_key(name) {
            lemma_position(front, name, 0);
            let k = position(front, name, 0);
            assert(front[k] == fields[k]);
            assert(fields[k].0 != fields[fields.len() - 1].0);
        }
        assert(as_map(fields).dom() =~= as_map(front).dom().insert(name));
    }
}

/// Two sets of fields are the same, in whatever order, exactly when they
/// make the same mapping.
pub proof fn lemma_same_fields_is_same_map(a: Seq<Field>, b: Seq<Field>)
    requires
        distinct_names(a),
        distinct_names(b),
    ensures
        same_fields(a, b) <==> as_map(a) == as_map(b),
{
    lemma_as_map(a);
    lemma_as_map(b);
    lemma_as_map_len(a);
    lemma_as_map_len(b);
    if same_fields(a, b) {
        assert forall|n: Seq<char>| #[trigger]
            as_map(a).dom().contains(n) implies as_map(b).dom().contains(n) && as_map(a)[n]
            == as_map(b)[n] by {
            assert(as_map(a).contains_key(n));
            lemma_position(a, n, 0);
            let i = position(a, n, 0);
            assert(a[i].0 == n);
            assert(lookup(b, a[i].0) == Some(a[i].1));
            lemma_lookup_is_map_lookup(b, n);
            assert(as_map(a)[a[i].0] == a[i].1);
        }
        assert(as_map(a).dom().subset_of(as_map(b).dom()));
        vstd::set_lib::lemma_subset_equality(as_map(a).dom(), as_map(b).dom());
        assert(as_map(a) =~= as_map(b));
    }
    if as_map(a) == as_map(b) {
        assert forall|i: int| 0 <= i < a.len() implies lookup(b, (#[trigger] a[i]).0) == Some(
            a[i].1,
        ) by {
            lemma_lookup_is_map_lookup(b, a[i].0);
            assert(as_map(a).contains_key(a[i].0));
        }
    }
}

/// Whether two slices hold the same bytes.
fn same_bytes(a: &[u8], b: &[u8]) -> (r: bool)
    ensures
        r == (a@ == b@),
{
    if a.len() != b.len() {
        return false;
    }
    let mut i: usize = 0;
    while i < a.len()
        invariant
            a@.len() == b@.len(),
            i <= a@.len(),
            forall|j: int| 0 <= j < i ==> a@[j] == b@[j],
        decreases a@.len() - i,
    {
        if a[i] != b[i] {
            return false;
        }
        i += 1;
    }
    assert(a@ =~= b@);
    true
}

/// Header fields with unique names.
///
/// The names are compared as they are written, case included.
#[derive(Debug, Eq)]
pub struct Headers {
    fields: Vec<(String, Vec<u8>)>,
}

impl View for Headers {
    type V = Seq<Field>;

    closed spec fn view(&self) -> Seq<Field> {
        Seq::new(self.fields@.len(), |i: int| (self.fields@[i].0@, self.fields@[i].1@))
    }
}

impl Headers {
    #[verifier::type_invariant]
    spec fn names_occur_once(&self) -> bool {
        distinct_names(self@)
    }

    /// No fields.
    pub fn new() -> (r: Headers)
        ensures
            r@ == Seq::<Field>::empty(),
    {
        let r = Headers { fields: Vec::new() };
        assert(r@ =~= Seq::<Field>::empty());
        r
    }

    /// The number of fields.
    pub fn len(&self) -> (n: usize)
        ensures
            n == self@.len(),
            distinct_names(self@),
    {
        proof {
            use_type_invariant(self);
        }
        self.fields.len()
    }

    /// The name of the field at index `i`.
    pub fn name(&self, i: usize) -> (r: &str)
        requires
            i < self@.len(),
        ensures
            r@ == self@[i as int].0,
    {
        self.fields[i].0.as_str()
    }

    /// The value of the field at index `i`.
    pub fn value(&self, i: usize) -> (r: &[u8])
        requires
            i < self@.len(),
        ensures
            r@ == self@[i as int].1,
    {
        self.fields[i].1.as_slice()
    }

    /// The index of the field named `name`, or the number of fields.
    fn index_of(&self, name: &String) -> (i: usize)
        ensures
            i == position(self@, name@, 0),
            i <= self@.len(),
    {
        let mut i: usize = 0;
        while i < self.fields.len() && !(self.fields[i].0 == *name)
            invariant
                i <= self@.len(),
                self@.len() == self.fields@.len(),
                forall|j: int| 0 <= j < i ==> (#[trigger] self@[j]).0 != name@,
            decreases self@.len() - i,
        {
            i += 1;
        }
        proof {
            lemma_position_is(self@, name@, 0, i as int);
        }
        i
    }

    /// The value of the field named `name`.
    pub fn get(&self, name: &str) -> (r: Option<&[u8]>)
        ensures
            match r {
                Some(v) => lookup(self@, name@) == Some(v@),
                None => lookup(self@, name@) is None,
            },
    {
        let key = String::from_str(name);
        let i = self.index_of(&key);
        if i < self.fields.len() {
            Some(self.fields[i].1.as_slice())
        } else {
            None
        }
    }

    /// Sets the field named `name` to `value`: a field of that name gets the
    /// new value, a new name is added behind the others.
    pub fn insert(&mut self, name: String, value: Vec<u8>)
        ensures
            final(self)@ == insert_field(old(self)@, name@, value@),
    {
        proof {
            use_type_invariant(&*self);
            lemma_insert_distinct(self@, name@, value@);
        }
        let i = self.index_of(&name);
        let ghost before = self@;
        let mut fields: Vec<(String, Vec<u8>)> = Vec::new();
        core::mem::swap(&mut fields, &mut self.fields);
        if i < fields.len() {
            fields[i] = (name, value);
        } else {
            fields.push((name, value));
        }
        proof {
            let after = Seq::new(fields@.len(), |k: int| (fields@[k].0@, fields@[k].1@));
            assert(after =~= insert_field(before, name@, value@));
        }
        self.fields = fields;
    }
}

impl PartialEq for Headers {
    /// Whether both hold the same names with the same values; the order of
    /// the fields does not count.
    fn eq(&self, other: &Headers) -> (r: bool) {
        proof {
            use_type_invariant(self);
            use_type_invariant(other);
        }
        if self.fields.len() != other.fields.len() {
            return false;
        }
        let mut i: usize = 0;
        while i < self.fields.len()
            invariant
                i <= self.fields@.len(),
                self@.len() == self.fields@.len(),
                other@.len() == other.fields@.len(),
                self@.len() == other@.len(),
                forall|j: int|
                    0 <= j < i ==> lookup(other@, (#[trigger] self@[j]).0) == Some(self@[j].1),
            decreases self.fields@.len() - i,
        {
            let k = other.index_of(&self.fields[i].0);
            if k >= other.fields.len() {
                return false;
            }
            if !same_bytes(other.fields[k].1.as_slice(), self.fields[i].1.as_slice()) {
                assert(lookup(other@, self@[i as int].0) != Some(self@[i as int].1));
                return false;
            }
            i += 1;
        }
        true
    }
}

impl vstd::std_specs::cmp::PartialEqSpecImpl for Headers {
    open spec fn obeys_eq_spec() -> bool {
        true
    }

    open spec fn eq_spec(&self, other: &Headers) -> bool {
        same_fields(self@, other@)
    }
}

impl Clone for Headers {
    /// The same fields in the same order.
    fn clone(&self) -> (r: Self)
        ensures
            r@ == self@,
    {
        proof {
            use_type_invariant(self);
        }
        let mut fields: Vec<(String, Vec<u8>)> = Vec::new();
        let mut i: usize = 0;
        while i < self.fields.len()
            invariant
                i <= self.fields@.len(),
                fields@.len() == i,
                forall|j: int|
                    0 <= j < i ==> (#[trigger] fields@[j]).0@ == self.fields@[j].0@ && fields@[j].1@
                        == self.fields@[j].1@,
            decreases self.fields@.len() - i,
        {
            let name = self.fields[i].0.clone();
            let value = slice_to_vec(self.fields[i].1.as_slice());
            fields.push((name, value));
            i += 1;
        }
        proof {
            let copy = Seq::new(fields@.len(), |k: int| (fields@[k].0@, fields@[k].1@));
            assert(copy =~= self@);
        }
        Headers { fields }
    }
}

} // verus!
