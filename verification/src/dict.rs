//! The word dictionary: a mapping from word names to their bodies,
//! built up line by line, where a later definition of a name silently
//! replaces an earlier one.

use vstd::prelude::*;

use crate::parser::{instrs_v, Body, InstrG};

verus! {

/// The persistent word dictionary. Its view is the mapping from word
/// names to the images of their bodies.
#[derive(Debug)]
pub struct Dict {
    entries: Vec<(String, Body)>,
}

/// The mapping a sequence of entries denotes: entries apply in order,
/// a later entry for a name replacing an earlier one.
pub open spec fn map_of(s: Seq<(String, Body)>) -> Map<Seq<char>, Seq<InstrG>>
    decreases s.len(),
{
    if s.len() == 0 {
        Map::empty()
    } else {
        map_of(s.drop_last()).insert(s.last().0@, instrs_v(s.last().1@))
    }
}

impl View for Dict {
    type V = Map<Seq<char>, Seq<InstrG>>;

    closed spec fn view(&self) -> Map<Seq<char>, Seq<InstrG>> {
        map_of(self.entries@)
    }
}

proof fn lemma_map_of_concat(a: Seq<(String, Body)>, b: Seq<(String, Body)>)
    ensures
        map_of(a + b) == map_of(a).union_prefer_right(map_of(b)),
    decreases b.len(),
{
    if b.len() == 0 {
        assert(a + b =~= a);
        assert(map_of(a).union_prefer_right(Map::empty()) =~= map_of(a));
    } else {
        lemma_map_of_concat(a, b.drop_last());
        assert((a + b).drop_last() =~= a + b.drop_last());
        assert((a + b).last() == b.last());
        assert(map_of(a).union_prefer_right(map_of(b.drop_last())).insert(
            b.last().0@,
            instrs_v(b.last().1@),
        ) =~= map_of(a).union_prefer_right(
            map_of(b.drop_last()).insert(b.last().0@, instrs_v(b.last().1@)),
        ));
    }
}

proof fn lemma_map_of_found(s: Seq<(String, Body)>, k: int)
    requires
        0 <= k < s.len(),
        forall|j: int| k < j < s.len() ==> #[trigger] s[j].0@ != s[k].0@,
    ensures
        map_of(s).contains_key(s[k].0@),
        map_of(s)[s[k].0@] == instrs_v(s[k].1@),
    decreases s.len(),
{
    if k < s.len() - 1 {
        assert(s.drop_last()[k] == s[k]);
        assert(forall|j: int|
            k < j < s.drop_last().len() ==> #[trigger] s.drop_last()[j].0@ != s.drop_last()[k].0@);
        lemma_map_of_found(s.drop_last(), k);
        assert(s.last() == s[s.len() - 1]);
        assert(s.last().0@ != s[k].0@);
    }
}

proof fn lemma_map_of_absent(s: Seq<(String, Body)>, key: Seq<char>)
    requires
        forall|j: int| 0 <= j < s.len() ==> #[trigger] s[j].0@ != key,
    ensures
        !map_of(s).contains_key(key),
    decreases s.len(),
{
    if s.len() > 0 {
        assert(forall|j: int|
            0 <= j < s.drop_last().len() ==> #[trigger] s.drop_last()[j].0@ != key);
        lemma_map_of_absent(s.drop_last(), key);
        assert(s.last() == s[s.len() - 1]);
    }
}

impl Dict {
    /// An empty dictionary.
    pub fn new() -> (r: Dict)
        ensures
            r@ == Map::<Seq<char>, Seq<InstrG>>::empty(),
    {
        Dict { entries: Vec::new() }
    }

    /// Define `name` as `body`, replacing any earlier definition.
    pub fn insert(&mut self, name: String, body: Body)
        ensures
            final(self)@ == old(self)@.insert(name@, instrs_v(body@)),
    {
        let ghost n = name@;
        let ghost b = instrs_v(body@);
        self.entries.push((name, body));
        proof {
            assert(self.entries@.drop_last() =~= old(self).entries@);
            assert(self.entries@.last().0@ == n);
            assert(instrs_v(self.entries@.last().1@) == b);
        }
    }

    /// Look a name up: the body of its latest definition, if any.
    pub fn get(&self, name: &String) -> (r: Option<&Body>)
        ensures
            match r {
                Some(b) => self@.contains_key(name@) && instrs_v(b@) == self@[name@],
                None => !self@.contains_key(name@),
            },
    {
        let mut k: usize = self.entries.len();
        while k > 0
            invariant
                k <= self.entries@.len(),
                forall|j: int|
                    k <= j < self.entries@.len() ==> #[trigger] self.entries@[j].0@ != name@,
            decreases k,
        {
            k = k - 1;
            if self.entries[k].0 == *name {
                proof {
                    lemma_map_of_found(self.entries@, k as int);
                }
                return Some(&self.entries[k].1);
            }
        }
        proof {
            lemma_map_of_absent(self.entries@, name@);
        }
        None
    }

    /// Take every definition of `other` into this dictionary, `other`'s
    /// entries replacing this one's where names collide.
    pub fn extend(&mut self, other: Dict)
        ensures
            final(self)@ == old(self)@.union_prefer_right(other@),
    {
        let ghost se0 = self.entries@;
        let ghost oe0 = other.entries@;
        let mut other = other;
        while other.entries.len() > 0
            invariant
                se0 + oe0 == self.entries@ + other.entries@,
            decreases other.entries@.len(),
        {
            let e = other.entries.remove(0);
            self.entries.push(e);
            proof {
                assert(self.entries@ + other.entries@ =~= se0 + oe0);
            }
        }
        proof {
            assert(self.entries@ =~= se0 + oe0);
            lemma_map_of_concat(se0, oe0);
        }
    }
}

} // verus!
