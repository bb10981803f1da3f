//! The request map: an immutable mapping from attribute names to string
//! values, as handed over by the host shell.
//!
//! Lookups are total: a missing attribute is an ordinary outcome. The view
//! is a `Map` from name characters to value characters; a later insertion of
//! the same name wins, as with a hash map.

use vstd::prelude::*;

verus! {

/// The map denoted by an insertion-ordered list of pairs.
pub open spec fn map_of(pairs: Seq<(String, String)>) -> Map<Seq<char>, Seq<char>>
    decreases pairs.len(),
{
    if pairs.len() == 0 {
        Map::empty()
    } else {
        map_of(pairs.drop_last()).insert(pairs.last().0@, pairs.last().1@)
    }
}

/// A request: attribute names mapped to attribute values.
pub struct Request {
    /// Insertion-ordered attribute pairs; a later pair with the same name
    /// shadows an earlier one.
    pub pairs: Vec<(String, String)>,
}

impl View for Request {
    type V = Map<Seq<char>, Seq<char>>;

    open spec fn view(&self) -> Map<Seq<char>, Seq<char>> {
        map_of(self.pairs@)
    }
}

proof fn lemma_map_of_untouched_tail(pairs: Seq<(String, String)>, k: Seq<char>, i: int)
    requires
        0 <= i <= pairs.len(),
        forall|j: int| i <= j < pairs.len() ==> (#[trigger] pairs[j]).0@ != k,
    ensures
        map_of(pairs).contains_key(k) <==> map_of(pairs.take(i)).contains_key(k),
        map_of(pairs).contains_key(k) ==> map_of(pairs)[k] == map_of(pairs.take(i))[k],
    decreases pairs.len() - i,
{
    if i == pairs.len() {
        assert(pairs.take(i) =~= pairs);
    } else {
        lemma_map_of_untouched_tail(pairs, k, i + 1);
        let p = pairs.take(i + 1);
        assert(p.drop_last() =~= pairs.take(i));
        assert(p.last() == pairs[i]);
        assert(map_of(pairs.take(i + 1)) == map_of(pairs.take(i)).insert(
            pairs[i].0@,
            pairs[i].1@,
        ));
    }
}

impl Request {
    /// An empty request.
    pub fn new() -> (r: Request)
        ensures
            r@ == Map::<Seq<char>, Seq<char>>::empty(),
    {
        Request { pairs: Vec::new() }
    }

    /// Adds an attribute; a later insertion of the same name wins.
    pub fn insert(&mut self, name: String, value: String)
        ensures
            final(self)@ == old(self)@.insert(name@, value@),
    {
        let ghost p0 = self.pairs@;
        self.pairs.push((name, value));
        proof {
            assert(self.pairs@.drop_last() =~= p0);
            assert(self.pairs@.last() == (name, value));
        }
    }

    /// Looks the attribute `name` up; `None` when it is absent.
    pub fn get<'a>(&'a self, name: &str) -> (r: Option<&'a String>)
        ensures
            match r {
                Some(v) => self@.contains_key(name@) && v@ == self@[name@],
                None => !self@.contains_key(name@),
            },
    {
        let key: String = name.to_owned();
        let mut i: usize = self.pairs.len();
        loop
            invariant
                0 <= i <= self.pairs.len(),
                key@ == name@,
                forall|j: int| i <= j < self.pairs@.len() ==> (#[trigger] self.pairs@[j]).0@
                    != name@,
            decreases i,
        {
            if i == 0 {
                proof {
                    lemma_map_of_untouched_tail(self.pairs@, name@, 0);
                    assert(self.pairs@.take(0) =~= Seq::<(String, String)>::empty());
                }
                return None;
            }
            i = i - 1;
            if self.pairs[i].0 == key {
                proof {
                    lemma_map_of_untouched_tail(self.pairs@, name@, i + 1);
                    let p = self.pairs@.take(i + 1);
                    assert(p.drop_last() =~= self.pairs@.take(i as int));
                    assert(p.last() == self.pairs@[i as int]);
                    assert(map_of(p) == map_of(self.pairs@.take(i as int)).insert(
                        self.pairs@[i as int].0@,
                        self.pairs@[i as int].1@,
                    ));
                }
                return Some(&self.pairs[i].1);
            }
        }
    }

    /// Whether the attribute `name` is present.
    pub fn contains(&self, name: &str) -> (r: bool)
        ensures
            r == self@.contains_key(name@),
    {
        match self.get(name) {
            Some(_) => true,
            None => false,
        }
    }
}

} // verus!
