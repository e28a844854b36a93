//! A map from names to values that keeps its names in alphabetical order.
use crate::text::{same_text, to_chars};
use vstd::prelude::*;
use vstd::string::*;

verus! {

/// The alphabetical order of texts, character by character.
pub open spec fn text_less(a: Seq<char>, b: Seq<char>) -> bool
    decreases a.len(),
{
    if b.len() == 0 {
        false
    } else if a.len() == 0 {
        true
    } else if a[0] != b[0] {
        a[0] < b[0]
    } else {
        text_less(a.skip(1), b.skip(1))
    }
}

proof fn lemma_text_less_irreflexive(a: Seq<char>)
    ensures
        !text_less(a, a),
    decreases a.len(),
{
    if a.len() > 0 {
        lemma_text_less_irreflexive(a.skip(1));
    }
}

/// The alphabetical order is a strict total order.
pub proof fn lemma_text_less_total(a: Seq<char>, b: Seq<char>)
    ensures
        !text_less(a, a),
        text_less(a, b) ==> !text_less(b, a),
        text_less(a, b) || text_less(b, a) || a == b,
        text_less(a, b) ==> a != b,
    decreases a.len() + b.len(),
{
    lemma_text_less_irreflexive(a);
    if a.len() > 0 && b.len() > 0 && a[0] == b[0] {
        lemma_text_less_total(a.skip(1), b.skip(1));
        if a.skip(1) == b.skip(1) {
            assert(a =~= seq![a[0]] + a.skip(1));
        }
    }
}

pub proof fn lemma_text_less_transitive(a: Seq<char>, b: Seq<char>, c: Seq<char>)
    requires
        text_less(a, b),
        text_less(b, c),
    ensures
        text_less(a, c),
    decreases a.len(),
{
    if a.len() > 0 && a[0] == b[0] && b[0] == c[0] {
        lemma_text_less_transitive(a.skip(1), b.skip(1), c.skip(1));
    }
}

/// Whether `a` comes before `b` in alphabetical order.
pub fn comes_before(a: &str, b: &str) -> (yes: bool)
    ensures
        yes == text_less(a@, b@),
{
    let x = to_chars(a);
    let y = to_chars(b);
    let mut i: usize = 0;
    assert(a@.skip(0) =~= a@ && b@.skip(0) =~= b@);
    while i < x.len() && i < y.len()
        invariant
            x@ == a@,
            y@ == b@,
            i <= x.len(),
            i <= y.len(),
            text_less(a@, b@) == text_less(a@.skip(i as int), b@.skip(i as int)),
        decreases x.len() - i,
    {
        assert(a@.skip(i as int).skip(1) =~= a@.skip(i + 1));
        assert(b@.skip(i as int).skip(1) =~= b@.skip(i + 1));
        if x[i] != y[i] {
            return x[i] < y[i];
        }
        i += 1;
    }
    i < y.len()
}

/// A map from names to values, in alphabetical order of the names.
#[derive(Debug)]
pub struct NameMap<V> {
    entries: Vec<(String, V)>,
}

impl<V> NameMap<V> {
    #[verifier::type_invariant]
    closed spec fn inv(self) -> bool {
        ordered(self.entries@)
    }

    /// The names, in alphabetical order.
    pub closed spec fn names(self) -> Seq<Seq<char>> {
        self.entries@.map_values(|entry: (String, V)| entry.0@)
    }

    /// The values, in alphabetical order of their names.
    pub closed spec fn values(self) -> Seq<V> {
        self.entries@.map_values(|entry: (String, V)| entry.1)
    }

    /// The value of a name.
    pub open spec fn find(self, name: Seq<char>) -> Option<V> {
        if self.names().contains(name) {
            Some(self.values()[self.names().index_of(name)])
        } else {
            None
        }
    }

    /// Each name has its own place, and there are as many values as names.
    pub open spec fn well_formed(self) -> bool {
        &&& self.names().len() == self.values().len()
        &&& forall|i: int, j: int|
            0 <= i < j < self.names().len() ==> text_less(
                #[trigger] self.names()[i],
                #[trigger] self.names()[j],
            )
    }

    pub fn new() -> (map: Self)
        ensures
            map.well_formed(),
            map.names() == Seq::<Seq<char>>::empty(),
            forall|name: Seq<char>| #[trigger] map.find(name) is None,
    {
        NameMap { entries: Vec::new() }
    }

    pub fn len(&self) -> (count: usize)
        ensures
            count == self.names().len(),
            self.well_formed(),
    {
        proof {
            use_type_invariant(self);
        }
        self.entries.len()
    }

    pub fn is_empty(&self) -> (yes: bool)
        ensures
            yes == (self.names().len() == 0),
            self.well_formed(),
    {
        proof {
            use_type_invariant(self);
        }
        self.entries.len() == 0
    }

    pub fn name_at(&self, index: usize) -> (name: &str)
        requires
            index < self.names().len(),
        ensures
            name@ == self.names()[index as int],
    {
        self.entries[index].0.as_str()
    }

    pub fn value_at(&self, index: usize) -> (value: &V)
        requires
            index < self.names().len(),
        ensures
            *value == self.values()[index as int],
    {
        &self.entries[index].1
    }

    pub fn get(&self, name: &str) -> (value: Option<&V>)
        ensures
            match value {
                Some(v) => self.find(name@) == Some(*v),
                None => self.find(name@) is None,
            },
    {
        proof {
            use_type_invariant(self);
        }
        let mut i: usize = 0;
        while i < self.entries.len()
            invariant
                self.well_formed(),
                i <= self.entries.len() == self.names().len(),
                forall|k: int| 0 <= k < i ==> self.names()[k] != name@,
            decreases self.entries.len() - i,
        {
            if same_text(self.entries[i].0.as_str(), name) {
                proof {
                    lemma_index_of_name(*self, i as int);
                }
                return Some(&self.entries[i].1);
            }
            i += 1;
        }
        None
    }

    pub fn contains_key(&self, name: &str) -> (yes: bool)
        ensures
            yes == self.names().contains(name@),
    {
        self.get(name).is_some()
    }

    /// Gives a name a value, in the place of the value that it had.
    pub fn insert(&mut self, name: String, value: V)
        ensures
            final(self).well_formed(),
            final(self).find(name@) == Some(value),
            forall|other: Seq<char>|
                other != name@ ==> #[trigger] final(self).find(other) == old(self).find(other),
    {
        proof {
            use_type_invariant(&*self);
        }
        let ghost before = *self;
        let mut entries: Vec<(String, V)> = Vec::new();
        std::mem::swap(&mut entries, &mut self.entries);
        let mut i: usize = 0;
        while i < entries.len() && comes_before(entries[i].0.as_str(), name.as_str())
            invariant
                entries@ == before.entries@,
                i <= entries.len(),
                forall|k: int| 0 <= k < i ==> text_less((#[trigger] entries@[k]).0@, name@),
            decreases entries.len() - i,
        {
            i += 1;
        }
        let ghost old_entries = entries@;
        let ghost spec_name = name@;
        proof {
            if i < old_entries.len() {
                lemma_text_less_total(old_entries[i as int].0@, spec_name);
            }
        }
        if i < entries.len() && same_text(entries[i].0.as_str(), name.as_str()) {
            entries.set(i, (name, value));
        } else {
            entries.insert(i, (name, value));
            proof {
                lemma_ordered_inserted(old_entries, entries@, i as int);
            }
        }
        self.entries = entries;
        proof {
            let now = self.entries@;
            lemma_index_of_name(*self, i as int);
            assert forall|other: Seq<char>| other != spec_name implies #[trigger] self.find(other)
                == before.find(other) by {
                if before.names().contains(other) {
                    let k = before.names().index_of(other);
                    let m = if now.len() == old_entries.len() || k < i {
                        k
                    } else {
                        k + 1
                    };
                    lemma_index_of_name(*self, m);
                }
                if self.names().contains(other) {
                    let m = self.names().index_of(other);
                    let k = if now.len() == old_entries.len() || m < i {
                        m
                    } else {
                        m - 1
                    };
                    assert(before.names()[k] == other);
                }
            }
        }
    }
}

impl<V: Clone> Clone for NameMap<V> {
    fn clone(&self) -> (copy: Self)
        ensures
            copy.names() == self.names(),
            copy.values().len() == self.values().len(),
            forall|i: int|
                0 <= i < self.values().len() ==> cloned::<V>(
                    self.values()[i],
                    #[trigger] copy.values()[i],
                ),
    {
        proof {
            use_type_invariant(self);
        }
        let mut entries: Vec<(String, V)> = Vec::new();
        let mut i: usize = 0;
        while i < self.entries.len()
            invariant
                i <= self.entries.len(),
                entries.len() == i,
                forall|k: int|
                    0 <= k < i ==> (#[trigger] entries@[k]).0@ == self.entries@[k].0@ && cloned::<V>(
                        self.entries@[k].1,
                        entries@[k].1,
                    ),
            decreases self.entries.len() - i,
        {
            entries.push((self.entries[i].0.clone(), self.entries[i].1.clone()));
            i += 1;
        }
        NameMap { entries }
    }
}

spec fn ordered<V>(entries: Seq<(String, V)>) -> bool {
    forall|i: int, j: int|
        0 <= i < j < entries.len() ==> text_less(
            (#[trigger] entries[i]).0@,
            (#[trigger] entries[j]).0@,
        )
}

/// Each name stands in exactly one place.
pub proof fn lemma_index_of_name<V>(map: NameMap<V>, i: int)
    requires
        map.well_formed(),
        0 <= i < map.names().len(),
    ensures
        map.names().contains(map.names()[i]),
        map.names().index_of(map.names()[i]) == i,
        map.find(map.names()[i]) == Some(map.values()[i]),
{
    let name = map.names()[i];
    lemma_text_less_total(name, name);
}

proof fn lemma_ordered_inserted<V>(before: Seq<(String, V)>, after: Seq<(String, V)>, i: int)
    requires
        ordered(before),
        0 <= i <= before.len(),
        after == before.insert(i, after[i]),
        forall|k: int| 0 <= k < i ==> text_less((#[trigger] before[k]).0@, after[i].0@),
        i < before.len() ==> text_less(after[i].0@, before[i].0@),
    ensures
        ordered(after),
{
    assert forall|a: int, b: int| 0 <= a < b < after.len() implies text_less(
        (#[trigger] after[a]).0@,
        (#[trigger] after[b]).0@,
    ) by {
        let y = if b < i {
            b
        } else {
            b - 1
        };
        if a == i && y > i {
            lemma_text_less_transitive(after[i].0@, before[i].0@, before[y].0@);
        }
    }
}

/// One text comes before another exactly when it has the smaller character where the two first
/// differ, or ends where the other goes on.
pub proof fn lemma_first_difference_decides(
    common: Seq<char>,
    a: Seq<char>,
    b: Seq<char>,
    first: &str,
    second: &str,
    yes: bool,
)
    requires
        call_ensures(comes_before, (first, second), yes),
        first@ == common + a,
        second@ == common + b,
        a.len() == 0 || b.len() == 0 || a[0] != b[0],
    ensures
        yes <==> b.len() > 0 && (a.len() == 0 || a[0] < b[0]),
    decreases common.len(),
{
    lemma_common_start(common, a, b);
}

proof fn lemma_common_start(common: Seq<char>, a: Seq<char>, b: Seq<char>)
    ensures
        text_less(common + a, common + b) == text_less(a, b),
    decreases common.len(),
{
    if common.len() == 0 {
        assert(common + a =~= a);
        assert(common + b =~= b);
    } else {
        assert((common + a).skip(1) =~= common.skip(1) + a);
        assert((common + b).skip(1) =~= common.skip(1) + b);
        lemma_common_start(common.skip(1), a, b);
    }
}

} // verus!
