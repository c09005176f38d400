//! One entry of a header dictionary: a small mapping from attribute names to
//! their values.

use crate::text::same_text;
use vstd::prelude::*;

verus! {

/// The mapping that a list of pairs builds when each pair is inserted in
/// turn, a later pair replacing an earlier one with the same key.
pub open spec fn map_of(pairs: Seq<(Seq<char>, Seq<char>)>) -> Map<Seq<char>, Seq<char>>
    decreases pairs.len(),
{
    if pairs.len() == 0 {
        Map::empty()
    } else {
        map_of(pairs.drop_last()).insert(pairs.last().0, pairs.last().1)
    }
}

/// No key occurs twice.
pub open spec fn distinct_keys(pairs: Seq<(Seq<char>, Seq<char>)>) -> bool {
    forall|i: int, j: int|
        0 <= i < pairs.len() && 0 <= j < pairs.len() && i != j ==> pairs[i].0 != pairs[j].0
}

pub proof fn lemma_map_of_absent(pairs: Seq<(Seq<char>, Seq<char>)>, key: Seq<char>)
    requires
        forall|i: int| 0 <= i < pairs.len() ==> pairs[i].0 != key,
    ensures
        !map_of(pairs).dom().contains(key),
    decreases pairs.len(),
{
    if pairs.len() > 0 {
        lemma_map_of_absent(pairs.drop_last(), key);
    }
}

pub proof fn lemma_map_of_present(pairs: Seq<(Seq<char>, Seq<char>)>, i: int)
    requires
        distinct_keys(pairs),
        0 <= i < pairs.len(),
    ensures
        map_of(pairs).dom().contains(pairs[i].0),
        map_of(pairs)[pairs[i].0] == pairs[i].1,
    decreases pairs.len(),
{
    if i < pairs.len() - 1 {
        lemma_map_of_present(pairs.drop_last(), i);
    }
}

pub proof fn lemma_map_of_replace(pairs: Seq<(Seq<char>, Seq<char>)>, i: int, value: Seq<char>)
    requires
        distinct_keys(pairs),
        0 <= i < pairs.len(),
    ensures
        map_of(pairs.update(i, (pairs[i].0, value))) == map_of(pairs).insert(pairs[i].0, value),
    decreases pairs.len(),
{
    let changed = pairs.update(i, (pairs[i].0, value));
    if i == pairs.len() - 1 {
        assert(changed.drop_last() == pairs.drop_last());
        assert(map_of(changed) =~= map_of(pairs).insert(pairs[i].0, value));
    } else {
        lemma_map_of_replace(pairs.drop_last(), i, value);
        assert(changed.drop_last() == pairs.drop_last().update(i, (pairs[i].0, value)));
        assert(map_of(changed) =~= map_of(pairs).insert(pairs[i].0, value));
    }
}

/// Pairs with distinct keys build a mapping with as many keys as there are
/// pairs.
pub proof fn lemma_map_of_len(pairs: Seq<(Seq<char>, Seq<char>)>)
    requires
        distinct_keys(pairs),
    ensures
        map_of(pairs).dom().finite(),
        map_of(pairs).dom().len() == pairs.len(),
    decreases pairs.len(),
{
    if pairs.len() > 0 {
        lemma_map_of_len(pairs.drop_last());
        lemma_map_of_absent(pairs.drop_last(), pairs.last().0);
    }
}

/// The pairs after `key` is set to `value`: where a pair has the key, that
/// pair holds the new value in its old place; where none has, the new pair
/// stands at the end.
pub open spec fn with_pair(
    pairs: Seq<(Seq<char>, Seq<char>)>,
    key: Seq<char>,
    value: Seq<char>,
) -> Seq<(Seq<char>, Seq<char>)> {
    if exists|i: int| 0 <= i < pairs.len() && pairs[i].0 == key {
        pairs.update(choose|i: int| 0 <= i < pairs.len() && pairs[i].0 == key, (key, value))
    } else {
        pairs.push((key, value))
    }
}

/// What the strings of each pair hold.
pub open spec fn pair_texts(v: Seq<(String, String)>) -> Seq<(Seq<char>, Seq<char>)> {
    Seq::new(v.len(), |i: int| (v[i].0@, v[i].1@))
}

/// An entry of a header dictionary: the attributes of one structured header
/// line, each under its name.
#[derive(Debug)]
pub struct DictEntry {
    pairs: Vec<(String, String)>,
}

impl View for DictEntry {
    type V = Map<Seq<char>, Seq<char>>;

    closed spec fn view(&self) -> Map<Seq<char>, Seq<char>> {
        map_of(self.model())
    }
}

impl DictEntry {
    /// The attributes as pairs of name and value, in the order in which
    /// their names first came.
    pub closed spec fn model(&self) -> Seq<(Seq<char>, Seq<char>)> {
        pair_texts(self.pairs@)
    }

    #[verifier::type_invariant]
    spec fn keys_are_distinct(&self) -> bool {
        distinct_keys(self.model())
    }

    /// An entry without attributes.
    pub fn new() -> (e: Self)
        ensures
            e@ == Map::<Seq<char>, Seq<char>>::empty(),
            e.model() == Seq::<(Seq<char>, Seq<char>)>::empty(),
    {
        DictEntry { pairs: Vec::new() }
    }

    /// The number of attributes.
    pub fn len(&self) -> (n: usize)
        ensures
            n == self.model().len(),
            self@.dom().finite(),
            n == self@.dom().len(),
    {
        proof {
            use_type_invariant(self);
            lemma_map_of_len(self.model());
        }
        self.pairs.len()
    }

    /// The attributes as pairs of name and value, in the order in which
    /// their names first came. No name comes twice, and the pairs are all
    /// that the entry holds.
    pub fn pairs(&self) -> (v: &Vec<(String, String)>)
        ensures
            pair_texts(v@) == self.model(),
            distinct_keys(self.model()),
            self@ == map_of(self.model()),
    {
        proof {
            use_type_invariant(self);
        }
        &self.pairs
    }

    /// Where `key` is held, if it is.
    fn position(&self, key: &str) -> (r: Option<usize>)
        ensures
            match r {
                Some(i) => i < self.model().len() && self.model()[i as int].0 == key@,
                None => forall|i: int| 0 <= i < self.model().len() ==> self.model()[i].0 != key@,
            },
    {
        let mut i: usize = 0;
        while i < self.pairs.len()
            invariant
                i <= self.pairs.len(),
                forall|j: int| 0 <= j < i ==> self.model()[j].0 != key@,
            decreases self.pairs.len() - i,
        {
            if same_text(self.pairs[i].0.as_str(), key) {
                return Some(i);
            }
            i = i + 1;
        }
        None
    }

    /// Sets the attribute `key` to `value`, whether or not it had one. An
    /// attribute that is there keeps its place among the pairs; a new one
    /// goes to their end.
    pub fn insert(&mut self, key: String, value: String)
        ensures
            final(self)@ == old(self)@.insert(key@, value@),
            final(self).model() == with_pair(old(self).model(), key@, value@),
    {
        proof {
            use_type_invariant(&*self);
        }
        let ghost before = self.model();
        let found = self.position(key.as_str());
        let mut pairs: Vec<(String, String)> = Vec::new();
        core::mem::swap(&mut pairs, &mut self.pairs);
        match found {
            Some(i) => {
                proof {
                    lemma_map_of_replace(before, i as int, value@);
                }
                pairs.set(i, (key, value));
            },
            None => {
                pairs.push((key, value));
            },
        }
        let ghost after = Seq::new(pairs@.len(), |i: int| (pairs@[i].0@, pairs@[i].1@));
        assert(found is Some ==> after == before.update(
            found->0 as int,
            (before[found->0 as int].0, value@),
        ));
        assert(found is None ==> after == before.push((key@, value@)) && after.drop_last()
            == before);
        self.pairs = pairs;
        assert(self.model() == after);
    }

    /// The value of the attribute `key`, if the entry has one.
    pub fn get(&self, key: &str) -> (r: Option<&str>)
        ensures
            match r {
                Some(v) => self@.dom().contains(key@) && v@ == self@[key@],
                None => !self@.dom().contains(key@),
            },
    {
        proof {
            use_type_invariant(self);
        }
        match self.position(key) {
            Some(i) => {
                proof {
                    lemma_map_of_present(self.model(), i as int);
                }
                Some(self.pairs[i].1.as_str())
            },
            None => {
                proof {
                    lemma_map_of_absent(self.model(), key@);
                }
                None
            },
        }
    }
}

} // verus!
