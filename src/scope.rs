//! Name bindings: label and constant names mapped to 16-bit values.

use vstd::prelude::*;

verus! {

/// What a list of bindings gives for `name`: the latest binding wins.
pub open spec fn lookup(entries: Seq<(Seq<char>, u16)>, name: Seq<char>) -> Option<u16>
    decreases entries.len(),
{
    if entries.len() == 0 {
        None
    } else if entries.last().0 == name {
        Some(entries.last().1)
    } else {
        lookup(entries.drop_last(), name)
    }
}

/// The names and values of stored bindings.
pub closed spec fn entries_view(entries: Seq<(String, u16)>) -> Seq<(Seq<char>, u16)> {
    entries.map_values(|e: (String, u16)| (e.0@, e.1))
}

/// A flat scope. Later bindings shadow earlier ones, so copying an outer
/// scope and then binding inner names gives the inner names priority.
#[derive(Debug)]
pub struct Scope {
    entries: Vec<(String, u16)>,
}

impl View for Scope {
    type V = Seq<(Seq<char>, u16)>;

    closed spec fn view(&self) -> Seq<(Seq<char>, u16)> {
        entries_view(self.entries@)
    }
}

impl Scope {
    /// What this scope binds `name` to.
    pub open spec fn get_spec(&self, name: Seq<char>) -> Option<u16> {
        lookup(self@, name)
    }

    /// An empty scope.
    pub fn new() -> (r: Scope)
        ensures
            r@ == Seq::<(Seq<char>, u16)>::empty(),
    {
        Scope { entries: Vec::new() }
    }

    /// Binds `name` to `value`, shadowing any earlier binding.
    pub fn insert(&mut self, name: String, value: u16)
        ensures
            final(self)@ == old(self)@.push((name@, value)),
    {
        self.entries.push((name, value));
        assert(self@ =~= old(self)@.push((name@, value)));
    }

    /// The value bound to `name`, if any.
    pub fn get(&self, name: &String) -> (r: Option<u16>)
        ensures
            r == self.get_spec(name@),
    {
        let mut i: usize = self.entries.len();
        assert(self@.subrange(0, i as int) =~= self@);
        while i > 0
            invariant
                i <= self.entries.len(),
                lookup(self@, name@) == lookup(self@.subrange(0, i as int), name@),
            decreases i,
        {
            let e = &self.entries[i - 1];
            assert(self@.subrange(0, i as int).drop_last() =~= self@.subrange(0, i - 1));
            if e.0 == *name {
                return Some(e.1);
            }
            i = i - 1;
        }
        assert(self@.subrange(0, 0) =~= Seq::<(Seq<char>, u16)>::empty());
        None
    }

    /// Whether `name` is bound.
    pub fn contains_key(&self, name: &String) -> (r: bool)
        ensures
            r == self.get_spec(name@).is_some(),
    {
        self.get(name).is_some()
    }

    /// A copy of this scope.
    pub fn copy(&self) -> (r: Scope)
        ensures
            r@ == self@,
    {
        let mut entries: Vec<(String, u16)> = Vec::new();
        let mut i: usize = 0;
        while i < self.entries.len()
            invariant
                i <= self.entries.len(),
                entries@.len() == i,
                entries_view(entries@) =~= self@.subrange(0, i as int),
            decreases self.entries.len() - i,
        {
            let e = &self.entries[i];
            let name = e.0.clone();
            entries.push((name, e.1));
            assert(self@[i as int] == (self.entries@[i as int].0@, self.entries@[i as int].1));
            i = i + 1;
            assert(entries_view(entries@) =~= self@.subrange(0, i as int));
        }
        let r = Scope { entries };
        assert(r@ =~= self@);
        r
    }
}

} // verus!
