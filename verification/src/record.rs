//! The nested output structures: a `FieldMap` is an ordered mapping from
//! field label to extracted text, and a `Record` is an ordered mapping from
//! group label to `FieldMap`. A label absent from a map means "unknown";
//! an empty-string placeholder is never stored for a missing field.

use vstd::prelude::*;
use crate::text::str_eq;

verus! {

/// View of a field map: (label, value) pairs in insertion order.
pub type FieldEntries = Seq<(Seq<char>, Seq<char>)>;

/// View of a record: (group label, field entries) pairs in insertion order.
pub type GroupEntries = Seq<(Seq<char>, FieldEntries)>;

pub open spec fn distinct_keys(m: FieldEntries) -> bool {
    forall|i: int, j: int| 0 <= i < j < m.len() ==> m[i].0 != m[j].0
}

pub open spec fn map_has_key(m: FieldEntries, k: Seq<char>) -> bool {
    exists|i: int| 0 <= i < m.len() && m[i].0 == k
}

/// The value stored under `k`: the first matching entry.
pub open spec fn map_lookup(m: FieldEntries, k: Seq<char>) -> Option<Seq<char>>
    decreases m.len(),
{
    if m.len() == 0 {
        None
    } else if m[0].0 == k {
        Some(m[0].1)
    } else {
        map_lookup(m.drop_first(), k)
    }
}

/// Insert-or-replace: a present key keeps its position and takes the new
/// value, an absent key is appended.
pub open spec fn map_upsert(m: FieldEntries, k: Seq<char>, v: Seq<char>) -> FieldEntries {
    if map_has_key(m, k) {
        m.map_values(|p: (Seq<char>, Seq<char>)| if p.0 == k { (k, v) } else { p })
    } else {
        m.push((k, v))
    }
}

pub open spec fn distinct_groups(r: GroupEntries) -> bool {
    forall|i: int, j: int| 0 <= i < j < r.len() ==> r[i].0 != r[j].0
}

pub open spec fn rec_has_group(r: GroupEntries, g: Seq<char>) -> bool {
    exists|i: int| 0 <= i < r.len() && r[i].0 == g
}

/// The field entries stored under group `g`: the first matching entry.
pub open spec fn rec_lookup(r: GroupEntries, g: Seq<char>) -> Option<FieldEntries>
    decreases r.len(),
{
    if r.len() == 0 {
        None
    } else if r[0].0 == g {
        Some(r[0].1)
    } else {
        rec_lookup(r.drop_first(), g)
    }
}

/// Insert-or-replace a whole group.
pub open spec fn rec_upsert(r: GroupEntries, g: Seq<char>, m: FieldEntries) -> GroupEntries {
    if rec_has_group(r, g) {
        r.map_values(|p: (Seq<char>, FieldEntries)| if p.0 == g { (g, m) } else { p })
    } else {
        r.push((g, m))
    }
}

/// Insert one field into the group `g`, creating the group at the end of
/// the record if it is not yet present.
pub open spec fn rec_insert_field(
    r: GroupEntries,
    g: Seq<char>,
    f: Seq<char>,
    v: Seq<char>,
) -> GroupEntries {
    if rec_has_group(r, g) {
        r.map_values(
            |p: (Seq<char>, FieldEntries)| if p.0 == g { (g, map_upsert(p.1, f, v)) } else { p },
        )
    } else {
        r.push((g, seq![(f, v)]))
    }
}

pub proof fn lemma_map_lookup_at(m: FieldEntries, k: Seq<char>, i: int)
    requires
        0 <= i < m.len(),
        m[i].0 == k,
        forall|j: int| 0 <= j < i ==> m[j].0 != k,
    ensures
        map_lookup(m, k) == Some(m[i].1),
    decreases i,
{
    if i > 0 {
        assert forall|j: int| 0 <= j < i - 1 implies m.drop_first()[j].0 != k by {
            assert(m.drop_first()[j] == m[j + 1]);
        }
        lemma_map_lookup_at(m.drop_first(), k, i - 1);
    }
}

pub proof fn lemma_map_lookup_absent(m: FieldEntries, k: Seq<char>)
    requires
        !map_has_key(m, k),
    ensures
        map_lookup(m, k) is None,
    decreases m.len(),
{
    if m.len() > 0 {
        assert(m[0].0 != k);
        assert(!map_has_key(m.drop_first(), k)) by {
            if map_has_key(m.drop_first(), k) {
                let i = choose|i: int| 0 <= i < m.drop_first().len() && m.drop_first()[i].0 == k;
                assert(m[i + 1].0 == k);
            }
        }
        lemma_map_lookup_absent(m.drop_first(), k);
    }
}

pub proof fn lemma_rec_lookup_at(r: GroupEntries, g: Seq<char>, i: int)
    requires
        0 <= i < r.len(),
        r[i].0 == g,
        forall|j: int| 0 <= j < i ==> r[j].0 != g,
    ensures
        rec_lookup(r, g) == Some(r[i].1),
    decreases i,
{
    if i > 0 {
        assert forall|j: int| 0 <= j < i - 1 implies r.drop_first()[j].0 != g by {
            assert(r.drop_first()[j] == r[j + 1]);
        }
        lemma_rec_lookup_at(r.drop_first(), g, i - 1);
    }
}

pub proof fn lemma_rec_lookup_absent(r: GroupEntries, g: Seq<char>)
    requires
        !rec_has_group(r, g),
    ensures
        rec_lookup(r, g) is None,
    decreases r.len(),
{
    if r.len() > 0 {
        assert(r[0].0 != g);
        assert(!rec_has_group(r.drop_first(), g)) by {
            if rec_has_group(r.drop_first(), g) {
                let i = choose|i: int| 0 <= i < r.drop_first().len() && r.drop_first()[i].0 == g;
                assert(r[i + 1].0 == g);
            }
        }
        lemma_rec_lookup_absent(r.drop_first(), g);
    }
}

/// An ordered mapping from field label to extracted text.
pub struct FieldMap {
    entries: Vec<(String, String)>,
}

impl View for FieldMap {
    type V = FieldEntries;

    closed spec fn view(&self) -> FieldEntries {
        self.entries@.map_values(|p: (String, String)| (p.0@, p.1@))
    }
}

impl FieldMap {
    /// Labels are pairwise distinct.
    pub open spec fn wf(&self) -> bool {
        distinct_keys(self@)
    }

    pub fn new() -> (m: FieldMap)
        ensures
            m@ == Seq::<(Seq<char>, Seq<char>)>::empty(),
            m.wf(),
    {
        let m = FieldMap { entries: Vec::new() };
        proof {
            assert(m@ =~= Seq::<(Seq<char>, Seq<char>)>::empty());
        }
        m
    }

    pub fn len(&self) -> (n: usize)
        ensures
            n == self@.len(),
    {
        self.entries.len()
    }

    pub fn is_empty(&self) -> (b: bool)
        ensures
            b == (self@.len() == 0),
    {
        self.entries.len() == 0
    }

    fn find_index(&self, key: &str) -> (r: Option<usize>)
        ensures
            match r {
                Some(i) => i < self@.len() && self@[i as int].0 == key@ && forall|j: int|
                    0 <= j < i ==> self@[j].0 != key@,
                None => !map_has_key(self@, key@),
            },
    {
        let n = self.entries.len();
        let mut i: usize = 0;
        while i < n
            invariant
                i <= n,
                n == self@.len(),
                n == self.entries@.len(),
                forall|j: int| 0 <= j < i ==> self@[j].0 != key@,
            decreases n - i,
        {
            if str_eq(self.entries[i].0.as_str(), key) {
                return Some(i);
            }
            i += 1;
        }
        None
    }

    /// Insert-or-replace one field.
    pub fn insert(&mut self, key: String, value: String)
        requires
            old(self).wf(),
        ensures
            final(self).wf(),
            final(self)@ == map_upsert(old(self)@, key@, value@),
    {
        match self.find_index(key.as_str()) {
            Some(i) => {
                self.entries[i] = (key, value);
                proof {
                    assert(map_has_key(old(self)@, key@));
                    assert forall|j: int| 0 <= j < self@.len() && j != i implies old(
                        self,
                    )@[j].0 != key@ by {
                        if j < i {
                        } else {
                            assert(old(self)@[i as int].0 == key@);
                        }
                    }
                    assert(self@ =~~= map_upsert(old(self)@, key@, value@));
                }
            },
            None => {
                self.entries.push((key, value));
                proof {
                    assert(self@ =~~= old(self)@.push((key@, value@)));
                    assert forall|i: int| 0 <= i < old(self)@.len() implies old(
                        self,
                    )@[i].0 != key@ by {
                        if old(self)@[i].0 == key@ {
                            assert(map_has_key(old(self)@, key@));
                        }
                    }
                }
            },
        }
    }

    /// The value stored under `key`, if any.
    pub fn get(&self, key: &str) -> (r: Option<&String>)
        ensures
            match r {
                Some(v) => map_lookup(self@, key@) == Some(v@),
                None => map_lookup(self@, key@) is None,
            },
    {
        match self.find_index(key) {
            Some(i) => {
                proof {
                    lemma_map_lookup_at(self@, key@, i as int);
                }
                Some(&self.entries[i].1)
            },
            None => {
                proof {
                    lemma_map_lookup_absent(self@, key@);
                }
                None
            },
        }
    }

    /// The entry at position `i`, in insertion order.
    pub fn entry_at(&self, i: usize) -> (e: (&String, &String))
        requires
            i < self@.len(),
        ensures
            (e.0@, e.1@) == self@[i as int],
    {
        let p = &self.entries[i];
        (&p.0, &p.1)
    }
}

/// An ordered mapping from group label to `FieldMap`.
pub struct Record {
    groups: Vec<(String, FieldMap)>,
}

impl View for Record {
    type V = GroupEntries;

    closed spec fn view(&self) -> GroupEntries {
        self.groups@.map_values(|p: (String, FieldMap)| (p.0@, p.1@))
    }
}

impl Record {
    /// Group labels are pairwise distinct and every group is itself
    /// well-formed.
    pub open spec fn wf(&self) -> bool {
        distinct_groups(self@) && forall|i: int| 0 <= i < self@.len() ==> distinct_keys(self@[i].1)
    }

    pub fn new() -> (r: Record)
        ensures
            r@ == Seq::<(Seq<char>, FieldEntries)>::empty(),
            r.wf(),
    {
        let r = Record { groups: Vec::new() };
        proof {
            assert(r@ =~= Seq::<(Seq<char>, FieldEntries)>::empty());
        }
        r
    }

    pub fn len(&self) -> (n: usize)
        ensures
            n == self@.len(),
    {
        self.groups.len()
    }

    pub fn is_empty(&self) -> (b: bool)
        ensures
            b == (self@.len() == 0),
    {
        self.groups.len() == 0
    }

    fn find_group_index(&self, name: &str) -> (r: Option<usize>)
        ensures
            match r {
                Some(i) => i < self@.len() && self@[i as int].0 == name@ && forall|j: int|
                    0 <= j < i ==> self@[j].0 != name@,
                None => !rec_has_group(self@, name@),
            },
    {
        let n = self.groups.len();
        let mut i: usize = 0;
        while i < n
            invariant
                i <= n,
                n == self@.len(),
                n == self.groups@.len(),
                forall|j: int| 0 <= j < i ==> self@[j].0 != name@,
            decreases n - i,
        {
            if str_eq(self.groups[i].0.as_str(), name) {
                return Some(i);
            }
            i += 1;
        }
        None
    }

    /// Insert one extracted field under its group, creating the group if
    /// this is its first field.
    pub fn insert_field(&mut self, group: &str, field: &str, value: String)
        requires
            old(self).wf(),
        ensures
            final(self).wf(),
            final(self)@ == rec_insert_field(old(self)@, group@, field@, value@),
    {
        match self.find_group_index(group) {
            Some(i) => {
                let mut entry = self.groups.remove(i);
                entry.1.insert(field.to_owned(), value);
                self.groups.insert(i, entry);
                proof {
                    assert(rec_has_group(old(self)@, group@));
                    assert forall|j: int| 0 <= j < self@.len() && j != i implies old(
                        self,
                    )@[j].0 != group@ by {
                        if j >= i {
                            assert(old(self)@[i as int].0 == group@);
                        }
                    }
                    assert(self@ =~~= rec_insert_field(old(self)@, group@, field@, value@));
                }
            },
            None => {
                let mut fields = FieldMap::new();
                fields.insert(field.to_owned(), value);
                self.groups.push((group.to_owned(), fields));
                proof {
                    assert(map_upsert(Seq::<(Seq<char>, Seq<char>)>::empty(), field@, value@)
                        =~= seq![(field@, value@)]);
                    assert(self@ =~~= rec_insert_field(old(self)@, group@, field@, value@));
                    assert forall|i: int| 0 <= i < old(self)@.len() implies old(
                        self,
                    )@[i].0 != group@ by {
                        if old(self)@[i].0 == group@ {
                            assert(rec_has_group(old(self)@, group@));
                        }
                    }
                }
            },
        }
    }

    /// Insert-or-replace a whole named group.
    pub fn set_group(&mut self, name: String, fields: FieldMap)
        requires
            old(self).wf(),
            fields.wf(),
        ensures
            final(self).wf(),
            final(self)@ == rec_upsert(old(self)@, name@, fields@),
    {
        match self.find_group_index(name.as_str()) {
            Some(i) => {
                self.groups[i] = (name, fields);
                proof {
                    assert(rec_has_group(old(self)@, name@));
                    assert forall|j: int| 0 <= j < self@.len() && j != i implies old(
                        self,
                    )@[j].0 != name@ by {
                        if j >= i {
                            assert(old(self)@[i as int].0 == name@);
                        }
                    }
                    assert(self@ =~~= rec_upsert(old(self)@, name@, fields@));
                }
            },
            None => {
                self.groups.push((name, fields));
                proof {
                    assert(self@ =~~= rec_upsert(old(self)@, name@, fields@));
                    assert forall|i: int| 0 <= i < old(self)@.len() implies old(
                        self,
                    )@[i].0 != name@ by {
                        if old(self)@[i].0 == name@ {
                            assert(rec_has_group(old(self)@, name@));
                        }
                    }
                }
            },
        }
    }

    /// The fields of a named group, if the group is present.
    pub fn get_group(&self, name: &str) -> (r: Option<&FieldMap>)
        ensures
            match r {
                Some(m) => rec_lookup(self@, name@) == Some(m@),
                None => rec_lookup(self@, name@) is None,
            },
    {
        match self.find_group_index(name) {
            Some(i) => {
                proof {
                    lemma_rec_lookup_at(self@, name@, i as int);
                }
                Some(&self.groups[i].1)
            },
            None => {
                proof {
                    lemma_rec_lookup_absent(self@, name@);
                }
                None
            },
        }
    }

    /// The group at position `i`, in insertion order.
    pub fn group_at(&self, i: usize) -> (e: (&String, &FieldMap))
        requires
            i < self@.len(),
        ensures
            (e.0@, e.1@) == self@[i as int],
    {
        let p = &self.groups[i];
        (&p.0, &p.1)
    }
}

} // verus!
