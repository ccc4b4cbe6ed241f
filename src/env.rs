//! The variable environment of one branch of a walk.
use vstd::prelude::*;
use crate::value::{Value, ValueModel};

verus! {

/// The value bound to `k` in `s`: the latest binding wins.
pub open spec fn lookup(s: Seq<(Seq<char>, ValueModel)>, k: Seq<char>) -> Option<ValueModel>
    decreases s.len(),
{
    if s.len() == 0 {
        None
    } else if s.last().0 == k {
        Some(s.last().1)
    } else {
        lookup(s.drop_last(), k)
    }
}

/// An ordered list of bindings from variable names to values. A later
/// binding of a name hides an earlier one.
#[derive(Debug)]
pub struct Env {
    entries: Vec<(String, Value)>,
}

impl View for Env {
    type V = Seq<(Seq<char>, ValueModel)>;

    closed spec fn view(&self) -> Seq<(Seq<char>, ValueModel)> {
        self.entries@.map_values(|e: (String, Value)| (e.0@, e.1@))
    }
}

impl Env {
    /// The empty environment.
    pub fn new() -> (r: Env)
        ensures
            r@ == Seq::<(Seq<char>, ValueModel)>::empty(),
    {
        let r = Env { entries: Vec::new() };
        assert(r@ =~= Seq::<(Seq<char>, ValueModel)>::empty());
        r
    }

    /// The number of bindings made.
    pub fn len(&self) -> (r: usize)
        ensures
            r == self@.len(),
    {
        self.entries.len()
    }

    /// The value bound to `name`, if any.
    pub fn get(&self, name: &String) -> (r: Option<Value>)
        ensures
            match r {
                Some(v) => lookup(self@, name@) == Some(v@),
                None => lookup(self@, name@).is_none(),
            },
    {
        let mut i = self.entries.len();
        assert(self@.take(i as int) =~= self@);
        while i > 0
            invariant
                i <= self.entries.len(),
                lookup(self@, name@) == lookup(self@.take(i as int), name@),
            decreases i,
        {
            let ghost before = self@.take(i as int);
            assert(before.drop_last() =~= self@.take(i - 1));
            if self.entries[i - 1].0 == *name {
                return Some(self.entries[i - 1].1.copy());
            }
            i = i - 1;
        }
        None
    }

    /// Binds `name` to `v`, after every earlier binding.
    pub fn insert(&mut self, name: String, v: Value)
        ensures
            final(self)@ == old(self)@.push((name@, v@)),
    {
        self.entries.push((name, v));
        assert(self@ =~= old(self)@.push((name@, v@)));
    }

    /// A copy of the environment, for a branch of its own.
    pub fn copy(&self) -> (r: Env)
        ensures
            r@ == self@,
    {
        let mut entries: Vec<(String, Value)> = Vec::new();
        let mut i: usize = 0;
        while i < self.entries.len()
            invariant
                i <= self.entries.len(),
                entries@.len() == i,
                forall|k: int|
                    0 <= k < i ==> (#[trigger] entries@[k]).0@ == self.entries@[k].0@
                        && entries@[k].1@ == self.entries@[k].1@,
            decreases self.entries.len() - i,
        {
            let e = &self.entries[i];
            entries.push((e.0.clone(), e.1.copy()));
            i = i + 1;
        }
        let r = Env { entries };
        assert(r@ =~= self@);
        r
    }
}

} // verus!
