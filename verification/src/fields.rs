//! Maps with case-insensitive keys.
use crate::handler::StringId;
use crate::text;
#[allow(unused_imports)]
use crate::text::lowercase;
#[allow(unused_imports)]
use vstd::std_specs::cmp::PartialEqSpec;
use vstd::prelude::*;

verus! {

/// A map from case-insensitive keys to texts: the headers or the query of a
/// request. No key occurs twice.
pub struct Fields {
    entries: Vec<(StringId, String)>,
}

/// What a map of fields holds at an id.
pub struct FieldView {
    /// The name as it was spelled when it first came.
    pub name: Seq<char>,
    pub value: Seq<char>,
}

/// The entry at `i` has the key `key`.
pub open spec fn keyed_at(entries: Seq<(StringId, String)>, key: Seq<char>, i: int) -> bool {
    0 <= i < entries.len() && entries[i].0.ident() == key
}

/// No two entries have the same key.
pub open spec fn distinct_keys(entries: Seq<(StringId, String)>) -> bool {
    forall|i: int, j: int|
        0 <= i < j < entries.len() ==> #[trigger] entries[i].0.ident() != #[trigger] entries[j].0.ident()
}

/// Every key is well-formed.
pub open spec fn well_formed_keys(entries: Seq<(StringId, String)>) -> bool {
    forall|i: int| 0 <= i < entries.len() ==> (#[trigger] entries[i]).0.wf()
}

/// The field that an entry stands for.
pub open spec fn field_of(entry: (StringId, String)) -> FieldView {
    FieldView { name: entry.0.text(), value: entry.1@ }
}

/// The map from ids to fields that a list of entries with distinct keys stands for.
pub open spec fn mapping(entries: Seq<(StringId, String)>) -> Map<Seq<char>, FieldView> {
    Map::new(
        |key: Seq<char>| exists|i: int| keyed_at(entries, key, i),
        |key: Seq<char>| field_of(entries[choose|i: int| keyed_at(entries, key, i)]),
    )
}

/// The entries hold each of the fields once and nothing else.
pub open spec fn lists(
    entries: Seq<(StringId, String)>,
    fields: Map<Seq<char>, FieldView>,
) -> bool {
    &&& distinct_keys(entries)
    &&& well_formed_keys(entries)
    &&& mapping(entries) == fields
}

/// The fields with `value` at `name`. A field that is there under an equal name keeps
/// the spelling that it has.
pub open spec fn put(
    fields: Map<Seq<char>, FieldView>,
    name: Seq<char>,
    value: Seq<char>,
) -> Map<Seq<char>, FieldView> {
    let id = lowercase(name);
    let kept = if fields.contains_key(id) {
        fields[id].name
    } else {
        name
    };
    fields.insert(id, FieldView { name: kept, value })
}

/// A map with one field.
pub open spec fn single(name: Seq<char>, value: Seq<char>) -> Map<Seq<char>, FieldView> {
    put(Map::empty(), name, value)
}

/// Equal keys name one field: what is put at the second replaces what was put at the
/// first, and the field keeps the first spelling.
pub proof fn law_equal_keys_name_one_field(
    fields: Map<Seq<char>, FieldView>,
    first: StringId,
    second: StringId,
    value: Seq<char>,
    replacement: Seq<char>,
)
    requires
        first.wf(),
        second.wf(),
        first.eq_spec(&second),
    ensures
        put(put(fields, first.text(), value), second.text(), replacement) == put(
            fields,
            first.text(),
            replacement,
        ),
        !fields.contains_key(first.ident()) ==> put(
            put(fields, first.text(), value),
            second.text(),
            replacement,
        )[second.ident()].name == first.text(),
{
    assert(put(put(fields, first.text(), value), second.text(), replacement) =~= put(
        fields,
        first.text(),
        replacement,
    ));
}

/// What is put at a key is found at it and at every key equal to it; every other key
/// is left as it was.
pub proof fn law_put_field_is_found(
    fields: Map<Seq<char>, FieldView>,
    key: StringId,
    other: StringId,
    value: Seq<char>,
)
    requires
        key.wf(),
        other.wf(),
    ensures
        key.eq_spec(&other) ==> put(fields, key.text(), value).contains_key(other.ident()) && put(
            fields,
            key.text(),
            value,
        )[other.ident()].value == value,
        !key.eq_spec(&other) ==> (put(fields, key.text(), value).contains_key(other.ident())
            <==> fields.contains_key(other.ident())) && put(
            fields,
            key.text(),
            value,
        )[other.ident()] == fields[other.ident()],
{
}

impl View for Fields {
    type V = Map<Seq<char>, FieldView>;

    open spec fn view(&self) -> Map<Seq<char>, FieldView> {
        mapping(self.listed())
    }
}

impl Fields {
    #[verifier::type_invariant]
    closed spec fn keyed_well(self) -> bool {
        distinct_keys(self.entries@) && well_formed_keys(self.entries@)
    }

    /// The entries in the order in which their keys came.
    pub closed spec fn listed(self) -> Seq<(StringId, String)> {
        self.entries@
    }

    /// A map without entries.
    pub fn new() -> (r: Self)
        ensures
            r@ == Map::<Seq<char>, FieldView>::empty(),
            r.listed().len() == 0,
    {
        let r = Fields { entries: Vec::new() };
        assert(r@ =~= Map::<Seq<char>, FieldView>::empty());
        r
    }

    /// The index of the entry with the key `key`.
    fn position(&self, key: &str) -> (r: Option<usize>)
        ensures
            match r {
                Some(i) => keyed_at(self.entries@, key@, i as int),
                None => forall|i: int| !keyed_at(self.entries@, key@, i),
            },
    {
        let mut i: usize = 0;
        while i < self.entries.len()
            invariant
                i <= self.entries.len(),
                forall|j: int| 0 <= j < i ==> !keyed_at(self.entries@, key@, j),
            decreases self.entries.len() - i,
        {
            if text::same(self.entries[i].0.id(), key) {
                assert(keyed_at(self.entries@, key@, i as int));
                return Some(i);
            }
            i = i + 1;
        }
        None
    }

    /// The value at `key`.
    pub fn get(&self, key: &StringId) -> (r: Option<&String>)
        ensures
            match r {
                Some(value) => self@.contains_key(key.ident()) && value@ == self@[key.ident()].value,
                None => !self@.contains_key(key.ident()),
            },
    {
        proof {
            use_type_invariant(self);
        }
        match self.position(key.id()) {
            Some(i) => {
                proof {
                    lemma_keyed_once(self.entries@, key.ident(), i as int);
                }
                Some(&self.entries[i].1)
            },
            None => None,
        }
    }

    /// Puts `value` at `key`. An entry with an equal key keeps the key that it
    /// has and gives up its value.
    pub fn insert(&mut self, key: StringId, value: String) -> (r: Option<String>)
        requires
            key.wf(),
        ensures
            final(self)@ == put(old(self)@, key.text(), value@),
            match r {
                Some(replaced) => {
                    &&& old(self)@.contains_key(key.ident())
                    &&& replaced@ == old(self)@[key.ident()].value
                    &&& exists|i: int|
                        {
                            &&& #[trigger] keyed_at(old(self).listed(), key.ident(), i)
                            &&& final(self).listed() == old(self).listed().update(
                                i,
                                (old(self).listed()[i].0, value),
                            )
                        }
                },
                None => {
                    &&& !old(self)@.contains_key(key.ident())
                    &&& final(self).listed() == old(self).listed().push((key, value))
                },
            },
    {
        proof {
            use_type_invariant(&*self);
        }
        let ghost before = self.entries@;
        match self.position(key.id()) {
            Some(i) => {
                proof {
                    lemma_keyed_once(before, key.ident(), i as int);
                    lemma_mapping_update(before, i as int, value);
                }
                let mut entries: Vec<(StringId, String)> = Vec::new();
                std::mem::swap(&mut entries, &mut self.entries);
                let (kept, replaced) = entries.remove(i);
                entries.insert(i, (kept, value));
                assert(entries@ =~= before.update(i as int, (kept, value)));
                self.entries = entries;
                Some(replaced)
            },
            None => {
                proof {
                    lemma_mapping_push(before, key, value);
                }
                let mut entries: Vec<(StringId, String)> = Vec::new();
                std::mem::swap(&mut entries, &mut self.entries);
                entries.push((key, value));
                self.entries = entries;
                None
            },
        }
    }

    /// Takes the entry at `key` out.
    pub fn remove(&mut self, key: &StringId) -> (r: Option<String>)
        ensures
            final(self)@ == old(self)@.remove(key.ident()),
            match r {
                Some(value) => {
                    &&& old(self)@.contains_key(key.ident())
                    &&& value@ == old(self)@[key.ident()].value
                    &&& exists|i: int|
                        {
                            &&& #[trigger] keyed_at(old(self).listed(), key.ident(), i)
                            &&& final(self).listed() == old(self).listed().remove(i)
                        }
                },
                None => !old(self)@.contains_key(key.ident()) && *final(self) == *old(self),
            },
    {
        proof {
            use_type_invariant(&*self);
        }
        let ghost before = self.entries@;
        match self.position(key.id()) {
            Some(i) => {
                proof {
                    lemma_keyed_once(before, key.ident(), i as int);
                    lemma_mapping_remove(before, i as int);
                }
                let mut entries: Vec<(StringId, String)> = Vec::new();
                std::mem::swap(&mut entries, &mut self.entries);
                let (_, value) = entries.remove(i);
                self.entries = entries;
                Some(value)
            },
            None => {
                assert(self@ =~= self@.remove(key.ident()));
                None
            },
        }
    }

    /// How many entries there are: one for each field.
    pub fn len(&self) -> (r: usize)
        ensures
            r == self.listed().len(),
            lists(self.listed(), self@),
    {
        proof {
            use_type_invariant(self);
        }
        self.entries.len()
    }

    /// Whether there are no entries.
    pub fn is_empty(&self) -> (r: bool)
        ensures
            r == (self.listed().len() == 0),
            r <==> self@ == Map::<Seq<char>, FieldView>::empty(),
    {
        proof {
            if self.entries@.len() == 0 {
                assert(self@ =~= Map::<Seq<char>, FieldView>::empty());
            } else {
                let key = self.entries@[0].0.ident();
                assert(keyed_at(self.entries@, key, 0));
                assert(self@.contains_key(key));
            }
        }
        self.entries.len() == 0
    }

    /// The entry at position `i`.
    pub fn entry(&self, i: usize) -> (r: (&StringId, &String))
        requires
            i < self.listed().len(),
        ensures
            (*r.0, *r.1) == self.listed()[i as int],
            self@.contains_key(r.0.ident()),
            self@[r.0.ident()] == field_of((*r.0, *r.1)),
            r.0.wf(),
    {
        proof {
            use_type_invariant(self);
            let key = self.entries@[i as int].0.ident();
            assert(keyed_at(self.entries@, key, i as int));
            lemma_keyed_once(self.entries@, key, i as int);
        }
        (&self.entries[i].0, &self.entries[i].1)
    }
}

/// Each listed entry is the field at its id.
pub proof fn lemma_listed_field(entries: Seq<(StringId, String)>, i: int)
    requires
        distinct_keys(entries),
        0 <= i < entries.len(),
    ensures
        mapping(entries).contains_key(entries[i].0.ident()),
        mapping(entries)[entries[i].0.ident()] == field_of(entries[i]),
{
    assert(keyed_at(entries, entries[i].0.ident(), i));
    lemma_keyed_once(entries, entries[i].0.ident(), i);
}

/// The map of some entries with distinct keys has at the id of each entry its spelling
/// and its value, and nothing at any other id.
pub proof fn law_map_holds_the_entries(entries: Seq<(StringId, String)>, id: Seq<char>)
    requires
        forall|i: int, j: int|
            0 <= i < j < entries.len() ==> #[trigger] entries[i].0.ident()
                != #[trigger] entries[j].0.ident(),
    ensures
        mapping(entries).contains_key(id) <==> exists|i: int|
            0 <= i < entries.len() && #[trigger] entries[i].0.ident() == id,
        forall|i: int|
            0 <= i < entries.len() && #[trigger] entries[i].0.ident() == id ==> mapping(
                entries,
            )[id].name == entries[i].0.text() && mapping(entries)[id].value == entries[i].1@,
{
    assert forall|i: int|
        0 <= i < entries.len() && #[trigger] entries[i].0.ident() == id implies mapping(
        entries,
    ).contains_key(id) && mapping(entries)[id].name == entries[i].0.text() && mapping(
        entries,
    )[id].value == entries[i].1@ by {
        lemma_listed_field(entries, i);
    }
    if mapping(entries).contains_key(id) {
        let i = choose|i: int| keyed_at(entries, id, i);
        assert(entries[i].0.ident() == id);
    }
}

proof fn lemma_keyed_once(entries: Seq<(StringId, String)>, key: Seq<char>, i: int)
    requires
        distinct_keys(entries),
        keyed_at(entries, key, i),
    ensures
        mapping(entries).contains_key(key),
        mapping(entries)[key] == field_of(entries[i]),
{
    let chosen = choose|j: int| keyed_at(entries, key, j);
    assert(keyed_at(entries, key, chosen));
    assert(chosen == i) by {
        if chosen < i {
            assert(entries[chosen].0.ident() != entries[i].0.ident());
        } else if i < chosen {
            assert(entries[i].0.ident() != entries[chosen].0.ident());
        }
    }
}

proof fn lemma_mapping_push(entries: Seq<(StringId, String)>, key: StringId, value: String)
    requires
        distinct_keys(entries),
        forall|i: int| !keyed_at(entries, key.ident(), i),
    ensures
        distinct_keys(entries.push((key, value))),
        mapping(entries.push((key, value))) == mapping(entries).insert(
            key.ident(),
            field_of((key, value)),
        ),
        !mapping(entries).contains_key(key.ident()),
{
    let after = entries.push((key, value));
    assert forall|i: int, j: int| 0 <= i < j < after.len() implies #[trigger] after[i].0.ident()
        != #[trigger] after[j].0.ident() by {
        assert(!keyed_at(entries, key.ident(), i));
    }
    assert forall|k: Seq<char>|
        mapping(after).contains_key(k) <==> mapping(entries).insert(
            key.ident(),
            field_of((key, value)),
        ).contains_key(k) by {
        if mapping(after).contains_key(k) {
            let i = choose|i: int| keyed_at(after, k, i);
            if i < entries.len() {
                assert(keyed_at(entries, k, i));
            }
        }
        if mapping(entries).contains_key(k) {
            let i = choose|i: int| keyed_at(entries, k, i);
            assert(keyed_at(after, k, i));
        }
        assert(keyed_at(after, key.ident(), entries.len() as int));
    }
    assert forall|k: Seq<char>| mapping(after).contains_key(k) implies mapping(after)[k]
        == mapping(entries).insert(key.ident(), field_of((key, value)))[k] by {
        let i = choose|i: int| keyed_at(after, k, i);
        lemma_keyed_once(after, k, i);
        if i < entries.len() {
            assert(keyed_at(entries, k, i));
            lemma_keyed_once(entries, k, i);
        }
    }
    assert(mapping(after) =~= mapping(entries).insert(key.ident(), field_of((key, value))));
}

proof fn lemma_mapping_update(entries: Seq<(StringId, String)>, at: int, value: String)
    requires
        distinct_keys(entries),
        0 <= at < entries.len(),
    ensures
        distinct_keys(entries.remove(at)),
        distinct_keys(entries.update(at, (entries[at].0, value))),
        mapping(entries.update(at, (entries[at].0, value))) == mapping(entries).insert(
            entries[at].0.ident(),
            field_of((entries[at].0, value)),
        ),
{
    lemma_mapping_remove(entries, at);
    let key = entries[at].0.ident();
    let after = entries.update(at, (entries[at].0, value));
    assert forall|i: int, j: int| 0 <= i < j < after.len() implies #[trigger] after[i].0.ident()
        != #[trigger] after[j].0.ident() by {
        assert(entries[i].0.ident() != entries[j].0.ident());
    }
    assert forall|k: Seq<char>, i: int| keyed_at(after, k, i) <==> keyed_at(entries, k, i) by {}
    assert(keyed_at(entries, key, at));
    assert forall|k: Seq<char>|
        mapping(after).contains_key(k) <==> mapping(entries).insert(
            key,
            field_of((entries[at].0, value)),
        ).contains_key(k) by {
        if mapping(after).contains_key(k) {
            let i = choose|i: int| keyed_at(after, k, i);
            assert(keyed_at(entries, k, i));
        }
        if mapping(entries).contains_key(k) {
            let i = choose|i: int| keyed_at(entries, k, i);
            assert(keyed_at(after, k, i));
        }
        assert(keyed_at(after, key, at));
    }
    assert forall|k: Seq<char>| mapping(after).contains_key(k) implies mapping(after)[k]
        == mapping(entries).insert(key, field_of((entries[at].0, value)))[k] by {
        let i = choose|i: int| keyed_at(after, k, i);
        lemma_keyed_once(after, k, i);
        lemma_keyed_once(entries, k, i);
        if k == key && i != at {
            if i < at {
                assert(entries[i].0.ident() != entries[at].0.ident());
            } else {
                assert(entries[at].0.ident() != entries[i].0.ident());
            }
        }
    }
    assert(mapping(after) =~= mapping(entries).insert(key, field_of((entries[at].0, value))));
}

proof fn lemma_mapping_remove(entries: Seq<(StringId, String)>, at: int)
    requires
        distinct_keys(entries),
        0 <= at < entries.len(),
    ensures
        distinct_keys(entries.remove(at)),
        mapping(entries.remove(at)) == mapping(entries).remove(entries[at].0.ident()),
{
    let key = entries[at].0.ident();
    let after = entries.remove(at);
    assert forall|i: int, j: int| 0 <= i < j < after.len() implies #[trigger] after[i].0.ident()
        != #[trigger] after[j].0.ident() by {
        let a = if i < at { i } else { i + 1 };
        let b = if j < at { j } else { j + 1 };
        assert(entries[a].0.ident() != entries[b].0.ident());
    }
    assert forall|k: Seq<char>|
        mapping(after).contains_key(k) <==> mapping(entries).remove(key).contains_key(k) by {
        if mapping(after).contains_key(k) {
            let i = choose|i: int| keyed_at(after, k, i);
            let a = if i < at { i } else { i + 1 };
            assert(keyed_at(entries, k, a));
            if a < at {
                assert(entries[a].0.ident() != entries[at].0.ident());
            } else {
                assert(entries[at].0.ident() != entries[a].0.ident());
            }
        }
        if mapping(entries).contains_key(k) && k != key {
            let a = choose|i: int| keyed_at(entries, k, i);
            let i = if a < at { a } else { a - 1 };
            assert(keyed_at(after, k, i));
        }
    }
    assert forall|k: Seq<char>| mapping(after).contains_key(k) implies mapping(after)[k]
        == mapping(entries).remove(key)[k] by {
        let i = choose|i: int| keyed_at(after, k, i);
        let a = if i < at { i } else { i + 1 };
        assert(keyed_at(entries, k, a));
        lemma_keyed_once(after, k, i);
        lemma_keyed_once(entries, k, a);
    }
    assert(mapping(after) =~= mapping(entries).remove(key));
}

} // verus!
