//! The extra request headers of a scan: a mapping from header name to value
//! in which no name occurs twice.
use crate::text::same_text;
use vstd::prelude::*;

verus! {

/// The mapping that a list of `(name, value)` entries denotes when it is read
/// from front to back and a later entry replaces an earlier one of the same name.
pub open spec fn map_of(entries: Seq<(Seq<char>, Seq<char>)>) -> Map<Seq<char>, Seq<char>>
    decreases entries.len(),
{
    if entries.len() == 0 {
        Map::empty()
    } else {
        map_of(entries.drop_last()).insert(entries.last().0, entries.last().1)
    }
}

/// No two entries carry the same name.
pub open spec fn distinct_names(entries: Seq<(Seq<char>, Seq<char>)>) -> bool {
    forall|i: int, j: int|
        0 <= i < entries.len() && 0 <= j < entries.len() && i != j ==> entries[i].0 != entries[j].0
}

/// `name` is the name of one of the entries.
pub open spec fn has_name(entries: Seq<(Seq<char>, Seq<char>)>, name: Seq<char>) -> bool {
    exists|i: int| 0 <= i < entries.len() && #[trigger] entries[i].0 == name
}

/// The names that `map_of` knows are the names of the entries.
pub proof fn lemma_map_of_dom(entries: Seq<(Seq<char>, Seq<char>)>, name: Seq<char>)
    ensures
        map_of(entries).dom().contains(name) <==> has_name(entries, name),
        map_of(entries).dom().finite(),
    decreases entries.len(),
{
    if entries.len() > 0 {
        let front = entries.drop_last();
        lemma_map_of_dom(front, name);
        if has_name(front, name) {
            let i = choose|i: int| 0 <= i < front.len() && #[trigger] front[i].0 == name;
            assert(entries[i].0 == name);
        }
        if has_name(entries, name) {
            let i = choose|i: int| 0 <= i < entries.len() && #[trigger] entries[i].0 == name;
            if i < front.len() {
                assert(front[i].0 == name);
            }
        }
        if entries.last().0 == name {
            assert(entries[entries.len() - 1].0 == name);
        }
    }
}

/// Where the names are distinct, each entry is what `map_of` holds for its name.
pub proof fn lemma_map_of_entry(entries: Seq<(Seq<char>, Seq<char>)>, i: int)
    requires
        distinct_names(entries),
        0 <= i < entries.len(),
    ensures
        map_of(entries).dom().contains(entries[i].0),
        map_of(entries)[entries[i].0] == entries[i].1,
    decreases entries.len(),
{
    let front = entries.drop_last();
    if i < entries.len() - 1 {
        assert(distinct_names(front)) by {
            assert forall|a: int, b: int|
                0 <= a < front.len() && 0 <= b < front.len() && a != b implies front[a].0
                != front[b].0 by {
                assert(front[a] == entries[a] && front[b] == entries[b]);
            }
        }
        lemma_map_of_entry(front, i);
        assert(front[i] == entries[i]);
        assert(entries[i].0 != entries[entries.len() - 1].0);
    }
}

/// Where the names are distinct, there are as many names as entries.
pub proof fn lemma_map_of_len(entries: Seq<(Seq<char>, Seq<char>)>)
    requires
        distinct_names(entries),
    ensures
        map_of(entries).dom().finite(),
        map_of(entries).dom().len() == entries.len(),
    decreases entries.len(),
{
    if entries.len() > 0 {
        let front = entries.drop_last();
        let last = entries.last();
        assert(distinct_names(front)) by {
            assert forall|a: int, b: int|
                0 <= a < front.len() && 0 <= b < front.len() && a != b implies front[a].0
                != front[b].0 by {
                assert(front[a] == entries[a] && front[b] == entries[b]);
            }
        }
        lemma_map_of_len(front);
        lemma_map_of_dom(front, last.0);
        if has_name(front, last.0) {
            let i = choose|i: int| 0 <= i < front.len() && #[trigger] front[i].0 == last.0;
            assert(entries[i].0 == entries[entries.len() - 1].0);
        }
        assert(map_of(entries).dom() == map_of(front).dom().insert(last.0));
    } else {
        assert(map_of(entries).dom() == Set::<Seq<char>>::empty());
    }
}

/// Replacing the value of the entry at `i` has the effect of an insertion
/// under that entry's name.
pub proof fn lemma_map_of_update(entries: Seq<(Seq<char>, Seq<char>)>, i: int, value: Seq<char>)
    requires
        distinct_names(entries),
        0 <= i < entries.len(),
    ensures
        map_of(entries.update(i, (entries[i].0, value))) == map_of(entries).insert(
            entries[i].0,
            value,
        ),
        distinct_names(entries.update(i, (entries[i].0, value))),
    decreases entries.len(),
{
    let name = entries[i].0;
    let changed = entries.update(i, (name, value));
    let front = entries.drop_last();
    assert(distinct_names(changed)) by {
        assert forall|a: int, b: int|
            0 <= a < changed.len() && 0 <= b < changed.len() && a != b implies changed[a].0
            != changed[b].0 by {
            assert(changed[a].0 == entries[a].0 && changed[b].0 == entries[b].0);
        }
    }
    if i == entries.len() - 1 {
        assert(changed.drop_last() == front);
        assert(map_of(changed) == map_of(entries).insert(name, value));
    } else {
        assert(distinct_names(front)) by {
            assert forall|a: int, b: int|
                0 <= a < front.len() && 0 <= b < front.len() && a != b implies front[a].0
                != front[b].0 by {
                assert(front[a] == entries[a] && front[b] == entries[b]);
            }
        }
        lemma_map_of_update(front, i, value);
        assert(front[i] == entries[i]);
        assert(changed.drop_last() == front.update(i, (name, value)));
        assert(changed.last() == entries.last());
        assert(entries[i].0 != entries[entries.len() - 1].0);
        assert(map_of(changed) == map_of(entries).insert(name, value));
    }
}

/// Header names with their values. A name occurs at most once.
#[derive(Debug)]
pub struct Headers {
    entries: Vec<(String, String)>,
}

impl View for Headers {
    type V = Map<Seq<char>, Seq<char>>;

    closed spec fn view(&self) -> Map<Seq<char>, Seq<char>> {
        map_of(self.entries.deep_view())
    }
}

impl Clone for Headers {
    fn clone(&self) -> (r: Self)
        ensures
            r@ == self@,
            r.listing() == self.listing(),
    {
        Headers { entries: self.to_pairs() }
    }
}

impl Headers {
    #[verifier::type_invariant]
    spec fn well_formed(&self) -> bool {
        distinct_names(self.entries.deep_view())
    }

    /// The headers in the order in which their names were first inserted.
    pub closed spec fn listing(&self) -> Seq<(Seq<char>, Seq<char>)> {
        self.entries.deep_view()
    }

    /// No headers at all.
    pub fn new() -> (r: Self)
        ensures
            r@ == Map::<Seq<char>, Seq<char>>::empty(),
            r.listing() == Seq::<(Seq<char>, Seq<char>)>::empty(),
    {
        let entries: Vec<(String, String)> = Vec::new();
        assert(entries.deep_view() == Seq::<(Seq<char>, Seq<char>)>::empty());
        Headers { entries }
    }

    /// The headers that a list of `(name, value)` pairs denotes. Of two pairs
    /// with one name the later one counts.
    pub fn from_pairs(pairs: &Vec<(String, String)>) -> (r: Self)
        ensures
            r@ == map_of(pairs.deep_view()),
    {
        let mut headers = Headers::new();
        let mut i: usize = 0;
        assert(pairs.deep_view().take(0) == Seq::<(Seq<char>, Seq<char>)>::empty());
        while i < pairs.len()
            invariant
                0 <= i <= pairs.len(),
                headers@ == map_of(pairs.deep_view().take(i as int)),
            decreases pairs.len() - i,
        {
            proof {
                let upto = pairs.deep_view().take(i + 1);
                assert(upto.drop_last() == pairs.deep_view().take(i as int));
                assert(upto.last() == pairs.deep_view()[i as int]);
            }
            headers.insert(pairs[i].0.clone(), pairs[i].1.clone());
            i += 1;
        }
        assert(pairs.deep_view().take(i as int) == pairs.deep_view());
        headers
    }

    /// The number of headers.
    pub fn len(&self) -> (n: usize)
        ensures
            self@.dom().finite(),
            n == self@.dom().len(),
            n == self.listing().len(),
    {
        proof {
            use_type_invariant(self);
            lemma_map_of_len(self.entries.deep_view());
        }
        self.entries.len()
    }

    /// Tells whether there is no header.
    pub fn is_empty(&self) -> (r: bool)
        ensures
            r == (self@ == Map::<Seq<char>, Seq<char>>::empty()),
            r == (self.listing().len() == 0),
    {
        proof {
            use_type_invariant(self);
            lemma_map_of_len(self.entries.deep_view());
            if self.entries.len() > 0 {
                assert(self@.dom().len() > 0);
                assert(self@ != Map::<Seq<char>, Seq<char>>::empty());
            }
        }
        self.entries.len() == 0
    }

    /// The position of the entry named `name`, if there is one.
    fn position(&self, name: &str) -> (r: Option<usize>)
        ensures
            match r {
                Some(i) => i < self.entries.len() && self.entries.deep_view()[i as int].0 == name@,
                None => !has_name(self.entries.deep_view(), name@),
            },
    {
        let mut i: usize = 0;
        while i < self.entries.len()
            invariant
                0 <= i <= self.entries.len(),
                forall|j: int| 0 <= j < i ==> self.entries.deep_view()[j].0 != name@,
            decreases self.entries.len() - i,
        {
            if same_text(self.entries[i].0.as_str(), name) {
                return Some(i);
            }
            i += 1;
        }
        None
    }

    /// The value of the header named `name`.
    pub fn get(&self, name: &str) -> (r: Option<&String>)
        ensures
            match r {
                Some(value) => self@.dom().contains(name@) && self@[name@] == value@,
                None => !self@.dom().contains(name@),
            },
    {
        proof {
            use_type_invariant(self);
            lemma_map_of_dom(self.entries.deep_view(), name@);
        }
        match self.position(name) {
            Some(i) => {
                proof {
                    lemma_map_of_entry(self.entries.deep_view(), i as int);
                }
                Some(&self.entries[i].1)
            },
            None => None,
        }
    }

    /// Sets the header named `name` to `value`, whether or not it had one.
    pub fn insert(&mut self, name: String, value: String)
        ensures
            final(self)@ == old(self)@.insert(name@, value@),
    {
        proof {
            use_type_invariant(&*self);
        }
        let found = self.position(name.as_str());
        let mut taken = Headers::new();
        core::mem::swap(self, &mut taken);
        let mut entries = taken.entries;
        let ghost before = entries.deep_view();
        match found {
            Some(i) => {
                proof {
                    lemma_map_of_update(before, i as int, value@);
                }
                entries.set(i, (name, value));
                assert(entries.deep_view() == before.update(i as int, (name@, value@)));
            },
            None => {
                entries.push((name, value));
                proof {
                    let after = entries.deep_view();
                    assert(after == before.push((name@, value@)));
                    assert(after.drop_last() == before);
                    assert forall|a: int, b: int|
                        0 <= a < after.len() && 0 <= b < after.len() && a != b implies after[a].0
                        != after[b].0 by {
                        if a < before.len() {
                            assert(before[a].0 == after[a].0);
                        }
                        if b < before.len() {
                            assert(before[b].0 == after[b].0);
                        }
                    }
                }
            },
        }
        *self = Headers { entries };
    }

    /// A copy of the headers as `(name, value)` pairs, each name once.
    pub fn to_pairs(&self) -> (r: Vec<(String, String)>)
        ensures
            r.deep_view() == self.listing(),
            distinct_names(r.deep_view()),
            map_of(r.deep_view()) == self@,
    {
        proof {
            use_type_invariant(self);
        }
        let mut pairs: Vec<(String, String)> = Vec::new();
        let mut i: usize = 0;
        while i < self.entries.len()
            invariant
                0 <= i <= self.entries.len(),
                pairs.deep_view() == self.entries.deep_view().take(i as int),
            decreases self.entries.len() - i,
        {
            let ghost before = pairs.deep_view();
            pairs.push((self.entries[i].0.clone(), self.entries[i].1.clone()));
            proof {
                assert(pairs.deep_view() == before.push(self.entries.deep_view()[i as int]));
                assert(self.entries.deep_view().take(i + 1) == self.entries.deep_view().take(
                    i as int,
                ).push(self.entries.deep_view()[i as int]));
            }
            i += 1;
        }
        assert(self.entries.deep_view().take(i as int) == self.entries.deep_view());
        pairs
    }
}

} // verus!
