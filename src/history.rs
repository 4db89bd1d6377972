use vstd::prelude::*;

use std::collections::VecDeque;

verus! {

/// A store of earlier lines. Offset 0 is the most recent line.
pub trait History {
    /// The lines held, most recent first.
    spec fn lines(&self) -> Seq<Seq<char>>;

    /// The line at `pos`, counting back from the most recent, if there is one.
    fn read(&self, pos: usize) -> (r: Option<String>)
        ensures
            pos < self.lines().len() ==> (r matches Some(s) && s@ == self.lines()[pos as int]),
            pos >= self.lines().len() ==> r is None,
    ;

    /// Records `val` as the most recent line.
    fn write(&mut self, val: &str)
        ensures
            final(self).lines() == seq![val@] + old(self).lines(),
    ;
}

/// A history held in memory.
pub struct BasicHistory {
    deque: VecDeque<String>,
}

impl View for BasicHistory {
    type V = Seq<Seq<char>>;

    /// The lines, most recent first.
    closed spec fn view(&self) -> Seq<Seq<char>> {
        self.deque@.map_values(|s: String| s@)
    }
}

impl BasicHistory {
    /// An empty history.
    pub fn new() -> (r: BasicHistory)
        ensures
            r@ == Seq::<Seq<char>>::empty(),
    {
        BasicHistory { deque: VecDeque::new() }
    }

    /// The line at `pos`, counting back from the most recent.
    pub fn entry(&self, pos: usize) -> (r: Option<String>)
        ensures
            pos < self@.len() ==> (r matches Some(s) && s@ == self@[pos as int]),
            pos >= self@.len() ==> r is None,
    {
        if pos < self.deque.len() {
            Some(self.deque[pos].clone())
        } else {
            None
        }
    }

    /// Records `val` as the most recent line.
    pub fn push(&mut self, val: &str)
        ensures
            final(self)@ == seq![val@] + old(self)@,
    {
        self.deque.push_front(val.to_owned());
        assert(self.deque@.map_values(|s: String| s@) =~= seq![val@] + old(self).deque@.map_values(
            |s: String| s@,
        ));
    }
}

impl History for BasicHistory {
    open spec fn lines(&self) -> Seq<Seq<char>> {
        self@
    }

    fn read(&self, pos: usize) -> Option<String> {
        self.entry(pos)
    }

    fn write(&mut self, val: &str) {
        self.push(val)
    }
}

} // verus!
