//! The header fields of a request: a mapping from name to value.

use crate::text::same_text;
use vstd::prelude::*;
use vstd::string::*;

verus! {

/// One header field: its name and its value.
pub type Field = (Seq<char>, Seq<char>);

/// The mapping that the fields `fields` make up. Where a name stands more
/// than once, the field that comes last counts.
pub open spec fn to_map(fields: Seq<Field>) -> Map<Seq<char>, Seq<char>>
    decreases fields.len(),
{
    if fields.len() == 0 {
        Map::empty()
    } else {
        to_map(fields.drop_last()).insert(fields.last().0, fields.last().1)
    }
}

/// No name stands twice in `fields`.
pub open spec fn distinct_names(fields: Seq<Field>) -> bool {
    forall|i: int, j: int|
        0 <= i < j < fields.len() ==> (#[trigger] fields[i]).0 != (#[trigger] fields[j]).0
}

/// `fields` with the field `name: value` put in: in the place of the first
/// field of that name, or at the end where there is none.
pub open spec fn put(fields: Seq<Field>, name: Seq<char>, value: Seq<char>) -> Seq<Field>
    decreases fields.len(),
{
    if fields.len() == 0 {
        seq![(name, value)]
    } else if fields[0].0 == name {
        fields.update(0, (name, value))
    } else {
        seq![fields[0]] + put(fields.drop_first(), name, value)
    }
}

/// A name is in the mapping exactly when a field has it.
pub proof fn lemma_to_map_names(fields: Seq<Field>, name: Seq<char>)
    ensures
        to_map(fields).contains_key(name) <==> exists|i: int|
            0 <= i < fields.len() && (#[trigger] fields[i]).0 == name,
    decreases fields.len(),
{
    if fields.len() > 0 {
        let front = fields.drop_last();
        lemma_to_map_names(front, name);
        if to_map(fields).contains_key(name) {
            if fields.last().0 == name {
                assert(fields[fields.len() - 1].0 == name);
            } else {
                let i = choose|i: int| 0 <= i < front.len() && (#[trigger] front[i]).0 == name;
                assert(fields[i].0 == name);
            }
        }
        if exists|i: int| 0 <= i < fields.len() && (#[trigger] fields[i]).0 == name {
            let i = choose|i: int| 0 <= i < fields.len() && (#[trigger] fields[i]).0 == name;
            if i < front.len() {
                assert(front[i].0 == name);
            }
        }
    }
}

/// Where no name stands twice, the mapping gives each field its own value.
pub proof fn lemma_to_map_value(fields: Seq<Field>, i: int)
    requires
        distinct_names(fields),
        0 <= i < fields.len(),
    ensures
        to_map(fields).contains_key(fields[i].0),
        to_map(fields)[fields[i].0] == fields[i].1,
    decreases fields.len(),
{
    let front = fields.drop_last();
    if i < front.len() {
        assert(distinct_names(front)) by {
            assert forall|a: int, b: int| 0 <= a < b < front.len() implies (#[trigger] front[a]).0 != (
            #[trigger] front[b]).0 by {
                assert(front[a] == fields[a] && front[b] == fields[b]);
            }
        }
        lemma_to_map_value(front, i);
        assert(front[i] == fields[i]);
        assert(fields[i].0 != fields[fields.len() - 1].0);
    }
}

/// Putting a field in keeps the names apart and changes the mapping at that
/// name alone.
pub proof fn lemma_put(fields: Seq<Field>, name: Seq<char>, value: Seq<char>)
    requires
        distinct_names(fields),
    ensures
        distinct_names(put(fields, name, value)),
        to_map(put(fields, name, value)) == to_map(fields).insert(name, value),
{
    let after = put(fields, name, value);
    lemma_put_shape(fields, name, value);
    assert forall|k: Seq<char>| #[trigger]
        to_map(after).contains_key(k) <==> to_map(fields).insert(name, value).contains_key(
            k,
        ) by {
        lemma_to_map_names(after, k);
        lemma_to_map_names(fields, k);
        if exists|i: int| 0 <= i < after.len() && (#[trigger] after[i]).0 == k {
            let i = choose|i: int| 0 <= i < after.len() && (#[trigger] after[i]).0 == k;
            if k != name {
                assert(i < fields.len() && after[i] == fields[i]);
            }
        }
        if k != name && exists|i: int| 0 <= i < fields.len() && (#[trigger] fields[i]).0 == k {
            let i = choose|i: int| 0 <= i < fields.len() && (#[trigger] fields[i]).0 == k;
            assert(after[i] == fields[i]);
        }
        if k == name {
            let at = choose|at: int| 0 <= at < after.len() && after[at] == (name, value);
            assert(after[at].0 == k);
        }
    }
    assert forall|k: Seq<char>| #[trigger] to_map(after).contains_key(k) implies to_map(after)[k]
        == to_map(fields).insert(name, value)[k] by {
        lemma_to_map_names(after, k);
        let i = choose|i: int| 0 <= i < after.len() && (#[trigger] after[i]).0 == k;
        lemma_to_map_value(after, i);
        if k != name {
            assert(i < fields.len() && after[i] == fields[i]);
            lemma_to_map_value(fields, i);
        } else {
            let at = choose|at: int| 0 <= at < after.len() && after[at] == (name, value);
            if at != i {
                assert(after[at].0 == after[i].0);
            }
        }
    }
    assert(to_map(after) =~= to_map(fields).insert(name, value));
}

/// What `put` does, place by place: every field of another name stays where
/// it is, and the new field stands at the one place where the names allow it.
pub proof fn lemma_put_shape(fields: Seq<Field>, name: Seq<char>, value: Seq<char>)
    requires
        distinct_names(fields),
    ensures
        distinct_names(put(fields, name, value)),
        fields.len() <= put(fields, name, value).len() <= fields.len() + 1,
        exists|at: int|
            0 <= at < put(fields, name, value).len() && put(fields, name, value)[at] == (
                name,
                value,
            ),
        forall|i: int|
            0 <= i < put(fields, name, value).len() && (#[trigger] put(fields, name, value)[i]).0
                != name ==> i < fields.len() && put(fields, name, value)[i] == fields[i],
        forall|i: int|
            0 <= i < fields.len() && (#[trigger] fields[i]).0 != name ==> put(
                fields,
                name,
                value,
            )[i] == fields[i],
    decreases fields.len(),
{
    let after = put(fields, name, value);
    if fields.len() == 0 {
        assert(after[0] == (name, value));
    } else if fields[0].0 == name {
        assert(after[0] == (name, value));
        assert forall|i: int, j: int| 0 <= i < j < after.len() implies (#[trigger] after[i]).0 != (
        #[trigger] after[j]).0 by {
            assert(fields[i].0 != fields[j].0);
        }
    } else {
        let rest = fields.drop_first();
        assert(distinct_names(rest)) by {
            assert forall|a: int, b: int| 0 <= a < b < rest.len() implies (#[trigger] rest[a]).0 != (
            #[trigger] rest[b]).0 by {
                assert(rest[a] == fields[a + 1] && rest[b] == fields[b + 1]);
            }
        }
        lemma_put_shape(rest, name, value);
        let tail = put(rest, name, value);
        let at = choose|at: int| 0 <= at < tail.len() && tail[at] == (name, value);
        assert(after[at + 1] == (name, value));
        assert forall|i: int| 0 <= i < after.len() && (#[trigger] after[i]).0 != name implies i
            < fields.len() && after[i] == fields[i] by {
            if i > 0 {
                assert(after[i] == tail[i - 1]);
                assert(rest[i - 1] == fields[i]);
            }
        }
        assert forall|i: int| 0 <= i < fields.len() && (#[trigger] fields[i]).0 != name implies after[i]
            == fields[i] by {
            if i > 0 {
                assert(rest[i - 1] == fields[i]);
                assert(after[i] == tail[i - 1]);
            }
        }
        assert forall|i: int, j: int| 0 <= i < j < after.len() implies (#[trigger] after[i]).0 != (
        #[trigger] after[j]).0 by {
            assert(after[j] == tail[j - 1]);
            if i > 0 {
                assert(after[i] == tail[i - 1]);
            } else {
                assert(after[0] == fields[0]);
                if tail[j - 1].0 != name {
                    assert(tail[j - 1] == rest[j - 1]);
                    assert(rest[j - 1] == fields[j]);
                }
            }
        }
    }
}

/// `put` changes the first field of the name, found at `at`, or adds a field
/// at the end where `at` is the length.
pub proof fn lemma_put_at(fields: Seq<Field>, name: Seq<char>, value: Seq<char>, at: int)
    requires
        0 <= at <= fields.len(),
        forall|j: int| 0 <= j < at ==> (#[trigger] fields[j]).0 != name,
        at < fields.len() ==> fields[at].0 == name,
    ensures
        put(fields, name, value) == if at < fields.len() {
            fields.update(at, (name, value))
        } else {
            fields.push((name, value))
        },
    decreases fields.len(),
{
    if fields.len() == 0 {
        assert(put(fields, name, value) =~= fields.push((name, value)));
    } else if at == 0 {
    } else {
        let rest = fields.drop_first();
        assert(fields[0].0 != name);
        assert forall|j: int| 0 <= j < at - 1 implies (#[trigger] rest[j]).0 != name by {
            assert(rest[j] == fields[j + 1]);
        }
        lemma_put_at(rest, name, value, at - 1);
        if at < fields.len() {
            assert(seq![fields[0]] + rest.update(at - 1, (name, value)) =~= fields.update(
                at,
                (name, value),
            ));
        } else {
            assert(seq![fields[0]] + rest.push((name, value)) =~= fields.push((name, value)));
        }
    }
}

/// The header fields of a request. Names are told apart letter for letter,
/// capitals included; a name has one value, the one that was put in last.
pub struct HeaderMap {
    fields: Vec<(String, String)>,
}

impl View for HeaderMap {
    type V = Map<Seq<char>, Seq<char>>;

    open spec fn view(&self) -> Map<Seq<char>, Seq<char>> {
        to_map(self.entries())
    }
}

impl HeaderMap {
    #[verifier::type_invariant]
    spec fn names_apart(self) -> bool {
        distinct_names(self.entries())
    }

    /// The fields, each name once, in the order in which the names first came.
    pub closed spec fn entries(&self) -> Seq<Field> {
        self.fields@.map_values(|field: (String, String)| (field.0@, field.1@))
    }

    /// A mapping without fields.
    pub fn new() -> (map: HeaderMap)
        ensures
            map.entries() == Seq::<Field>::empty(),
            map@ == Map::<Seq<char>, Seq<char>>::empty(),
    {
        let map = HeaderMap { fields: Vec::new() };
        assert(map.entries() =~= Seq::<Field>::empty());
        map
    }

    /// How many names the mapping holds.
    pub fn len(&self) -> (count: usize)
        ensures
            count == self.entries().len(),
    {
        self.fields.len()
    }

    /// The field at `index`, counted from zero: its name and its value. There
    /// is none at or beyond the number of names.
    pub fn entry(&self, index: usize) -> (field: Option<(&String, &String)>)
        ensures
            match field {
                Some((name, value)) => index < self.entries().len() && (name@, value@)
                    == self.entries()[index as int],
                None => index >= self.entries().len(),
            },
    {
        if index < self.fields.len() {
            Some((&self.fields[index].0, &self.fields[index].1))
        } else {
            None
        }
    }

    /// Where the field named `name` stands, or the number of fields if there
    /// is none.
    fn position(&self, name: &str) -> (at: usize)
        ensures
            0 <= at <= self.entries().len(),
            forall|j: int| 0 <= j < at ==> (#[trigger] self.entries()[j]).0 != name@,
            at < self.entries().len() ==> self.entries()[at as int].0 == name@,
    {
        let mut at: usize = 0;
        while at < self.fields.len()
            invariant
                0 <= at <= self.fields.len(),
                self.fields.len() == self.entries().len(),
                forall|j: int| 0 <= j < at ==> (#[trigger] self.entries()[j]).0 != name@,
            decreases self.fields.len() - at,
        {
            if same_text(self.fields[at].0.as_str(), name) {
                return at;
            }
            at = at + 1;
        }
        at
    }

    /// The value of the field named `name`, if there is one.
    pub fn get(&self, name: &str) -> (value: Option<&String>)
        ensures
            match value {
                Some(found) => self@.contains_key(name@) && found@ == self@[name@],
                None => !self@.contains_key(name@),
            },
    {
        let at = self.position(name);
        proof {
            use_type_invariant(self);
            lemma_to_map_names(self.entries(), name@);
        }
        if at < self.fields.len() {
            proof {
                lemma_to_map_value(self.entries(), at as int);
            }
            Some(&self.fields[at].1)
        } else {
            None
        }
    }

    /// Whether a field is named `name`.
    pub fn contains_key(&self, name: &str) -> (found: bool)
        ensures
            found == self@.contains_key(name@),
    {
        self.get(name).is_some()
    }

    /// Puts the field `name: value` in. A field of that name that is already
    /// there keeps its place and takes the new value.
    pub fn insert(&mut self, name: String, value: String)
        ensures
            final(self).entries() == put(old(self).entries(), name@, value@),
            final(self)@ == old(self)@.insert(name@, value@),
    {
        let at = self.position(name.as_str());
        let ghost before = self.entries();
        proof {
            use_type_invariant(&*self);
            lemma_put_at(before, name@, value@, at as int);
            lemma_put(before, name@, value@);
        }
        let mut fields: Vec<(String, String)> = Vec::new();
        assert(fields@.map_values(|field: (String, String)| (field.0@, field.1@)) =~= Seq::<
            Field,
        >::empty());
        std::mem::swap(&mut self.fields, &mut fields);
        if at < fields.len() {
            assert(fields@.update(at as int, (name, value)).map_values(
                |field: (String, String)| (field.0@, field.1@),
            ) =~= before.update(at as int, (name@, value@)));
            fields.set(at, (name, value));
        } else {
            assert(fields@.push((name, value)).map_values(
                |field: (String, String)| (field.0@, field.1@),
            ) =~= before.push((name@, value@)));
            fields.push((name, value));
        }
        self.fields = fields;
    }
}

} // verus!
