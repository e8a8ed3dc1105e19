//! The variable table: a name-to-text mapping, populated by the caller and
//! handed to the evaluator as an immutable snapshot for the duration of one
//! evaluation call.

use vstd::prelude::*;

verus! {

/// The mathematical content of a sequence of name/value pairs: a later entry
/// shadows an earlier one with the same name.
pub open spec fn map_of(ps: Seq<(String, String)>) -> Map<Seq<char>, Seq<char>>
    decreases ps.len(),
{
    if ps.len() == 0 {
        Map::empty()
    } else {
        map_of(ps.drop_last()).insert(ps.last().0@, ps.last().1@)
    }
}

/// A mapping from variable names to their textual values.
pub struct VariableTable {
    pairs: Vec<(String, String)>,
}

impl View for VariableTable {
    type V = Map<Seq<char>, Seq<char>>;

    closed spec fn view(&self) -> Map<Seq<char>, Seq<char>> {
        map_of(self.pairs@)
    }
}

impl VariableTable {
    /// An empty table.
    pub fn new() -> (t: Self)
        ensures
            t@ == Map::<Seq<char>, Seq<char>>::empty(),
    {
        VariableTable { pairs: Vec::new() }
    }

    /// Binds `name` to `value`, replacing any earlier binding of `name`.
    pub fn insert(&mut self, name: String, value: String)
        ensures
            final(self)@ == old(self)@.insert(name@, value@),
    {
        let ghost pre = self.pairs@;
        let ghost n = name@;
        let ghost v = value@;
        self.pairs.push((name, value));
        proof {
            assert(self.pairs@.drop_last() =~= pre);
            assert(self.pairs@.last().0@ == n && self.pairs@.last().1@ == v);
        }
    }

    /// Looks `name` up: the value bound to it, or `None` when it is unbound.
    pub fn lookup(&self, name: &str) -> (r: Option<String>)
        ensures
            match r {
                Some(v) => self@.contains_key(name@) && v@ == self@[name@],
                None => !self@.contains_key(name@),
            },
    {
        let ghost n = name@;
        let ghost ps = self.pairs@;
        let key = name.to_owned();
        let mut j = self.pairs.len();
        proof {
            assert(ps.take(j as int) =~= ps);
        }
        while j > 0
            invariant
                j <= self.pairs.len(),
                ps == self.pairs@,
                n == name@,
                key@ == n,
                map_of(ps).contains_key(n) == map_of(ps.take(j as int)).contains_key(n),
                map_of(ps.take(j as int)).contains_key(n) ==> map_of(ps)[n] == map_of(
                    ps.take(j as int),
                )[n],
            decreases j,
        {
            j = j - 1;
            proof {
                assert(ps.take(j as int + 1).drop_last() =~= ps.take(j as int));
                assert(ps.take(j as int + 1).last() == ps[j as int]);
            }
            let entry = &self.pairs[j];
            if entry.0 == key {
                proof {
                    assert(map_of(ps.take(j as int + 1)).contains_key(n));
                    assert(map_of(ps.take(j as int + 1))[n] == ps[j as int].1@);
                }
                return Some(entry.1.clone());
            }
        }
        proof {
            assert(ps.take(0) =~= Seq::<(String, String)>::empty());
        }
        None
    }
}

} // verus!
