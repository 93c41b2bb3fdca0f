//! Maps from names to values that remember the order in which names came.

use crate::text::str_eq;
use crate::text::views;
use vstd::prelude::*;

verus! {

/// A map with text keys. A name occurs at most once, and the names stand in
/// the order in which they were first inserted.
#[derive(Debug)]
pub struct StrMap<V> {
    entries: Vec<(String, V)>,
}

/// The names of a list of entries, in order.
pub open spec fn entry_names<V>(entries: Seq<(String, V)>) -> Seq<Seq<char>> {
    Seq::new(entries.len(), |i: int| entries[i].0@)
}

/// The value that the entries give for `name`, at the position of `name`
/// among the names.
pub open spec fn entry_map<V>(entries: Seq<(String, V)>) -> Map<Seq<char>, V> {
    Map::new(
        |k: Seq<char>| entry_names(entries).contains(k),
        |k: Seq<char>| entries[entry_names(entries).index_of(k)].1,
    )
}

impl<V> View for StrMap<V> {
    type V = Map<Seq<char>, V>;

    closed spec fn view(&self) -> Map<Seq<char>, V> {
        entry_map(self.entries@)
    }
}

impl<V> StrMap<V> {
    #[verifier::type_invariant]
    spec fn distinct_names(self) -> bool {
        entry_names(self.entries@).no_duplicates()
    }

    /// The names, in the order in which they were first inserted.
    pub closed spec fn names(self) -> Seq<Seq<char>> {
        entry_names(self.entries@)
    }

    /// An empty map.
    pub fn new() -> (r: Self)
        ensures
            r@ == Map::<Seq<char>, V>::empty(),
            r.names() == Seq::<Seq<char>>::empty(),
    {
        let r = StrMap { entries: Vec::new() };
        assert(r.names() =~= Seq::<Seq<char>>::empty());
        assert(r@ =~= Map::<Seq<char>, V>::empty());
        r
    }

    /// The names, in order: the keys of the map, each of them once.
    pub fn keys(&self) -> (r: Vec<String>)
        ensures
            views(r@) == self.names(),
            self.names().no_duplicates(),
            forall|k: Seq<char>| self.names().contains(k) <==> #[trigger] self@.contains_key(k),
    {
        proof {
            use_type_invariant(self);
        }
        let mut out: Vec<String> = Vec::new();
        let mut i: usize = 0;
        while i < self.entries.len()
            invariant
                i <= self.entries@.len(),
                out@.len() == i,
                forall|j: int| 0 <= j < i ==> (#[trigger] out@[j])@ == self.names()[j],
            decreases self.entries.len() - i,
        {
            out.push(self.entries[i].0.clone());
            i = i + 1;
        }
        assert(views(out@) =~= self.names());
        out
    }

    /// How many names the map holds.
    pub fn len(&self) -> (r: usize)
        ensures
            r == self.names().len(),
    {
        self.entries.len()
    }

    /// Whether the map holds no name.
    pub fn is_empty(&self) -> (r: bool)
        ensures
            r == (self.names().len() == 0),
            r == (self@ == Map::<Seq<char>, V>::empty()),
    {
        proof {
            if self.names().len() == 0 {
                assert(self@ =~= Map::<Seq<char>, V>::empty());
            } else {
                assert(self.names().contains(self.names()[0]));
                assert(self@.contains_key(self.names()[0]));
            }
        }
        self.entries.len() == 0
    }

    /// Where `name` stands among the names.
    fn position(&self, name: &str) -> (r: Option<usize>)
        ensures
            r matches Some(i) ==> {
                &&& i < self.entries@.len()
                &&& self.entries@[i as int].0@ == name@
                &&& self@.contains_key(name@)
                &&& self@[name@] == self.entries@[i as int].1
            },
            r is None ==> !self@.contains_key(name@),
    {
        proof {
            use_type_invariant(self);
        }
        let ghost names = entry_names(self.entries@);
        let mut i: usize = 0;
        while i < self.entries.len()
            invariant
                i <= self.entries@.len(),
                names == entry_names(self.entries@),
                names.no_duplicates(),
                forall|j: int| 0 <= j < i ==> names[j] != name@,
            decreases self.entries.len() - i,
        {
            if str_eq(self.entries[i].0.as_str(), name) {
                assert(names[i as int] == name@);
                assert(names.index_of(name@) == i);
                return Some(i);
            }
            i = i + 1;
        }
        None
    }

    /// The value of `name`.
    pub fn get(&self, name: &str) -> (r: Option<&V>)
        ensures
            match r {
                Some(v) => self@.contains_key(name@) && self@[name@] == *v,
                None => !self@.contains_key(name@),
            },
    {
        match self.position(name) {
            Some(i) => Some(&self.entries[i].1),
            None => None,
        }
    }

    /// Whether the map holds `name`.
    pub fn contains_key(&self, name: &str) -> (r: bool)
        ensures
            r == self@.contains_key(name@),
    {
        self.position(name).is_some()
    }

    /// The name at position `i` and its value.
    pub fn entry(&self, i: usize) -> (r: (&str, &V))
        requires
            i < self.names().len(),
        ensures
            r.0@ == self.names()[i as int],
            self@.contains_key(r.0@),
            *r.1 == self@[r.0@],
    {
        proof {
            use_type_invariant(self);
            let names = entry_names(self.entries@);
            assert(names.contains(names[i as int]));
            assert(names.index_of(names[i as int]) == i);
        }
        (self.entries[i].0.as_str(), &self.entries[i].1)
    }

    /// Sets the value of `name`; a name that is new goes to the end.
    pub fn insert(&mut self, name: String, value: V) -> (r: Option<V>)
        ensures
            final(self)@ == old(self)@.insert(name@, value),
            final(self).names() == if old(self)@.contains_key(name@) {
                old(self).names()
            } else {
                old(self).names().push(name@)
            },
            match r {
                Some(v) => old(self)@.contains_key(name@) && v == old(self)@[name@],
                None => !old(self)@.contains_key(name@),
            },
    {
        proof {
            use_type_invariant(&*self);
        }
        let found = self.position(name.as_str());
        let ghost before = self.entries@;
        let ghost key = name@;
        let mut entries: Vec<(String, V)> = Vec::new();
        std::mem::swap(&mut entries, &mut self.entries);
        let r = match found {
            Some(i) => {
                let mut slot = (name, value);
                std::mem::swap(&mut entries[i], &mut slot);
                assert(entry_names(entries@) =~= entry_names(before));
                assert(entry_names(before)[i as int] == key);
                assert(entry_names(before).index_of(key) == i);
                assert(entry_map(entries@) =~= entry_map(before).insert(key, value));
                Some(slot.1)
            },
            None => {
                entries.push((name, value));
                proof {
                    lemma_push_entry(before, entries@.last());
                }
                assert(entries@ == before.push(entries@.last()));
                None
            },
        };
        self.entries = entries;
        r
    }
}

/// Adding an entry under a new name.
proof fn lemma_push_entry<V>(entries: Seq<(String, V)>, e: (String, V))
    requires
        entry_names(entries).no_duplicates(),
        !entry_map(entries).contains_key(e.0@),
    ensures
        entry_names(entries.push(e)) == entry_names(entries).push(e.0@),
        entry_names(entries.push(e)).no_duplicates(),
        entry_map(entries.push(e)) == entry_map(entries).insert(e.0@, e.1),
{
    let names = entry_names(entries);
    let after = entry_names(entries.push(e));
    assert(after =~= names.push(e.0@));
    assert(!names.contains(e.0@));
    assert(after.no_duplicates());
    assert(after[names.len() as int] == e.0@);
    assert(after.index_of(e.0@) == names.len());
    assert forall|k: Seq<char>| names.contains(k) implies after.contains(k) && after.index_of(k)
        == names.index_of(k) by {
        let i = names.index_of(k);
        assert(names[i] == k);
        assert(after[i] == k);
    }
    assert forall|k: Seq<char>| after.contains(k) implies names.contains(k) || k == e.0@ by {
        let i = after.index_of(k);
        assert(after[i] == k);
        if i < names.len() {
            assert(names[i] == k);
        }
    }
    assert(entry_map(entries.push(e)) =~= entry_map(entries).insert(e.0@, e.1));
}

// ---------------------------------------------------------------------------
// Maps of text
// ---------------------------------------------------------------------------

/// The texts that a map of strings holds under each name.
pub open spec fn single(m: Map<Seq<char>, String>) -> Map<Seq<char>, Seq<char>> {
    m.map_values(|v: String| v@)
}

/// The texts that a multimap holds under each name, in order.
pub open spec fn multi(m: Map<Seq<char>, Vec<String>>) -> Map<Seq<char>, Seq<Seq<char>>> {
    m.map_values(|v: Vec<String>| views(v@))
}

/// The texts under `name`; none where the name does not occur.
pub open spec fn values_under(m: Map<Seq<char>, Seq<Seq<char>>>, name: Seq<char>) -> Seq<
    Seq<char>,
> {
    if m.contains_key(name) {
        m[name]
    } else {
        Seq::empty()
    }
}

/// The multimap with one more text under `name`, behind those already there.
pub open spec fn appended(
    m: Map<Seq<char>, Seq<Seq<char>>>,
    name: Seq<char>,
    value: Seq<char>,
) -> Map<Seq<char>, Seq<Seq<char>>> {
    m.insert(name, values_under(m, name).push(value))
}

/// The texts of a list of pairs of strings.
pub open spec fn pair_views(pairs: Seq<(String, String)>) -> Seq<(Seq<char>, Seq<char>)> {
    Seq::new(pairs.len(), |i: int| (pairs[i].0@, pairs[i].1@))
}

/// The multimap with every pair appended, from the first to the last.
pub open spec fn folded(
    m: Map<Seq<char>, Seq<Seq<char>>>,
    pairs: Seq<(Seq<char>, Seq<char>)>,
) -> Map<Seq<char>, Seq<Seq<char>>>
    decreases pairs.len(),
{
    if pairs.len() == 0 {
        m
    } else {
        appended(folded(m, pairs.drop_last()), pairs.last().0, pairs.last().1)
    }
}

/// Names with those of a list of pairs behind them, each where it comes first.
pub open spec fn names_with(
    names: Seq<Seq<char>>,
    pairs: Seq<(Seq<char>, Seq<char>)>,
) -> Seq<Seq<char>>
    decreases pairs.len(),
{
    if pairs.len() == 0 {
        names
    } else {
        let before = names_with(names, pairs.drop_last());
        if before.contains(pairs.last().0) {
            before
        } else {
            before.push(pairs.last().0)
        }
    }
}

/// Whether names are the keys of a map, each of them once.
pub open spec fn lists_keys<V>(names: Seq<Seq<char>>, m: Map<Seq<char>, V>) -> bool {
    &&& names.no_duplicates()
    &&& forall|k: Seq<char>| names.contains(k) <==> #[trigger] m.contains_key(k)
}

/// The values of the pairs whose name is `name`, in order.
pub open spec fn values_named(pairs: Seq<(Seq<char>, Seq<char>)>, name: Seq<char>) -> Seq<Seq<char>>
    decreases pairs.len(),
{
    if pairs.len() == 0 {
        Seq::empty()
    } else if pairs.last().0 == name {
        values_named(pairs.drop_last(), name).push(pairs.last().1)
    } else {
        values_named(pairs.drop_last(), name)
    }
}

/// Repeated names accumulate: under each name stand the values that were
/// there, then those of the pairs with that name, in the order of the pairs.
pub proof fn law_repeated_names_accumulate(
    m: Map<Seq<char>, Seq<Seq<char>>>,
    pairs: Seq<(Seq<char>, Seq<char>)>,
    name: Seq<char>,
)
    ensures
        values_under(folded(m, pairs), name) == values_under(m, name) + values_named(pairs, name),
        folded(m, pairs).contains_key(name) <==> m.contains_key(name) || values_named(
            pairs,
            name,
        ).len() > 0,
    decreases pairs.len(),
{
    if pairs.len() == 0 {
        assert(values_under(m, name) + Seq::<Seq<char>>::empty() =~= values_under(m, name));
    } else {
        law_repeated_names_accumulate(m, pairs.drop_last(), name);
        let before = folded(m, pairs.drop_last());
        let last = pairs.last();
        if last.0 == name {
            assert(values_under(before, name).push(last.1) =~= values_under(m, name)
                + values_named(pairs, name));
        }
    }
}

/// A copy of a list of strings.
pub fn clone_strings(v: &[String]) -> (r: Vec<String>)
    ensures
        r@ == v@,
{
    let mut out: Vec<String> = Vec::new();
    let mut i: usize = 0;
    while i < v.len()
        invariant
            i <= v@.len(),
            out@ == v@.take(i as int),
        decreases v.len() - i,
    {
        out.push(v[i].clone());
        i = i + 1;
    }
    assert(v@.take(v@.len() as int) == v@);
    out
}

impl StrMap<Vec<String>> {
    /// A copy of a multimap.
    pub fn duplicate(&self) -> (r: Self)
        ensures
            multi(r@) == multi(self@),
            r.names() == self.names(),
    {
        let mut out: StrMap<Vec<String>> = StrMap::new();
        let ghost keys = self.names();
        let names = self.keys();
        let mut i: usize = 0;
        assert(keys.take(0) =~= out.names());
        while i < names.len()
            invariant
                i <= names@.len(),
                views(names@) == keys,
                keys == self.names(),
                keys.no_duplicates(),
                forall|k: Seq<char>| keys.contains(k) <==> #[trigger] self@.contains_key(k),
                out.names() == keys.take(i as int),
                forall|k: Seq<char>|
                    keys.take(i as int).contains(k) <==> #[trigger] out@.contains_key(k),
                forall|k: Seq<char>|
                    #[trigger] out@.contains_key(k) ==> self@.contains_key(k) && out@[k]@
                        == self@[k]@,
            decreases names.len() - i,
        {
            let ghost key = keys[i as int];
            assert(key == names@[i as int]@);
            assert(keys.contains(key));
            assert(!keys.take(i as int).contains(key));
            let ghost before = out@;
            if let Some(values) = self.get(names[i].as_str()) {
                out.insert(names[i].clone(), clone_strings(values));
            }
            assert(keys.take(i as int + 1) =~= keys.take(i as int).push(key));
            assert forall|k: Seq<char>|
                keys.take(i as int + 1).contains(k) <==> #[trigger] out@.contains_key(k) by {
                if keys.take(i as int).contains(k) {
                    let j = keys.take(i as int).index_of(k);
                    assert(keys.take(i as int + 1)[j] == k);
                }
                assert(keys.take(i as int + 1)[i as int] == key);
                if keys.take(i as int + 1).contains(k) && k != key {
                    let j = keys.take(i as int + 1).index_of(k);
                    assert(keys.take(i as int)[j] == k);
                }
                assert(before.contains_key(k) <==> keys.take(i as int).contains(k));
            }
            i = i + 1;
        }
        assert(keys.take(keys.len() as int) == keys);
        assert(multi(out@) =~= multi(self@));
        out
    }

    /// Appends `value` to the values of `name`.
    pub fn append(&mut self, name: String, value: String)
        ensures
            multi(final(self)@) == appended(multi(old(self)@), name@, value@),
            final(self).names() == if old(self)@.contains_key(name@) {
                old(self).names()
            } else {
                old(self).names().push(name@)
            },
    {
        let ghost before = self@;
        let mut values: Vec<String> = match self.get(name.as_str()) {
            Some(v) => clone_strings(v),
            None => Vec::new(),
        };
        assert(views(values@) =~= values_under(multi(before), name@));
        let ghost prev = values@;
        values.push(value);
        assert(views(values@) =~= views(prev).push(value@));
        let ghost key = name@;
        self.insert(name, values);
        assert(multi(self@) =~= appended(multi(before), key, value@));
    }

    /// Appends the pairs, from the first to the last.
    pub fn append_pairs(&mut self, pairs: Vec<(String, String)>)
        ensures
            multi(final(self)@) == folded(multi(old(self)@), pair_views(pairs@)),
            final(self).names() == names_with(old(self).names(), pair_views(pairs@)),
            lists_keys(final(self).names(), multi(final(self)@)),
    {
        let ghost all = pair_views(pairs@);
        let ghost start = multi(self@);
        let ghost names = self.names();
        let mut i: usize = 0;
        assert(all.take(0) =~= Seq::<(Seq<char>, Seq<char>)>::empty());
        while i < pairs.len()
            invariant
                i <= pairs@.len(),
                all == pair_views(pairs@),
                multi(self@) == folded(start, all.take(i as int)),
                self.names() == names_with(names, all.take(i as int)),
            decreases pairs.len() - i,
        {
            assert(all.take(i as int + 1).drop_last() == all.take(i as int));
            self.append(pairs[i].0.clone(), pairs[i].1.clone());
            i = i + 1;
        }
        assert(all.take(all.len() as int) == all);
        proof {
            use_type_invariant(&*self);
        }
    }
}

// ---------------------------------------------------------------------------
// Laws
// ---------------------------------------------------------------------------

/// The values under a name are those of the pairs that have it, in the order
/// of the pairs, none left out and none taken from another name.
pub proof fn law_values_of_a_name(pairs: Seq<(Seq<char>, Seq<char>)>, name: Seq<char>)
    ensures
        values_named(pairs, name) == pairs.filter(
            |p: (Seq<char>, Seq<char>)| p.0 == name,
        ).map_values(|p: (Seq<char>, Seq<char>)| p.1),
    decreases pairs.len(),
{
    let same = |p: (Seq<char>, Seq<char>)| p.0 == name;
    let value = |p: (Seq<char>, Seq<char>)| p.1;
    reveal(Seq::filter);
    if pairs.len() == 0 {
        assert(values_named(pairs, name) =~= pairs.filter(same).map_values(value));
    } else {
        law_values_of_a_name(pairs.drop_last(), name);
        assert(values_named(pairs, name) =~= pairs.filter(same).map_values(value));
    }
}

/// Pairs put their names behind those that are there, each once and where it
/// comes first: more pairs move no name.
pub proof fn law_names_stand_where_they_come_first(
    names: Seq<Seq<char>>,
    a: Seq<(Seq<char>, Seq<char>)>,
    b: Seq<(Seq<char>, Seq<char>)>,
    name: Seq<char>,
)
    ensures
        names.is_prefix_of(names_with(names, a)),
        names_with(names, a).is_prefix_of(names_with(names, a + b)),
        names_with(names, a).contains(name) <==> names.contains(name) || exists|i: int|
            0 <= i < a.len() && (#[trigger] a[i]).0 == name,
        names.no_duplicates() ==> names_with(names, a).no_duplicates(),
    decreases a.len() + b.len(),
{
    let all = names_with(names, a);
    if b.len() > 0 {
        law_names_stand_where_they_come_first(names, a, b.drop_last(), name);
        assert((a + b).drop_last() =~= a + b.drop_last());
    } else {
        assert(a + b =~= a);
        if a.len() > 0 {
            let front = a.drop_last();
            law_names_stand_where_they_come_first(names, front, b, name);
            assert(front + b =~= front);
            let before = names_with(names, front);
            if before.contains(name) {
                assert(all[before.index_of(name)] == name);
            }
            if a.last().0 == name && !before.contains(name) {
                assert(all[all.len() - 1] == name);
            }
            if all.contains(name) && !before.contains(name) {
                let k = all.index_of(name);
                if k < before.len() {
                    assert(before[k] == name);
                }
                assert(a[a.len() - 1].0 == name);
            }
            if exists|i: int| 0 <= i < a.len() && (#[trigger] a[i]).0 == name {
                let i = choose|i: int| 0 <= i < a.len() && (#[trigger] a[i]).0 == name;
                if i < front.len() {
                    assert(front[i].0 == name);
                }
            }
            if exists|i: int| 0 <= i < front.len() && (#[trigger] front[i]).0 == name {
                let i = choose|i: int| 0 <= i < front.len() && (#[trigger] front[i]).0 == name;
                assert(a[i].0 == name);
            }
        }
    }
}

} // verus!
