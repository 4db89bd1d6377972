use vstd::prelude::*;

verus! {

/// Why an update of a system prompt failed.
#[derive(Clone, Copy, Debug, PartialEq, Eq, Structural)]
pub enum SystemPromptsError {
    /// No prompt has that name.
    FailedToFindPrompt,
}

/// The name of the prompt that a store without prompts starts with.
pub open spec fn default_name() -> Seq<char> {
    seq!['d', 'e', 'f', 'a', 'u', 'l', 't']
}

/// Named system prompts, each name once, in the order in which they were added. They are
/// kept as a list of pairs: vstd gives a `HashMap` keyed by `String` no model of its keys,
/// so nothing about lookups in one could be proved.
pub struct SystemPrompts {
    prompts: Vec<(String, String)>,
}

pub open spec fn pairs_view(p: Seq<(String, String)>) -> Seq<(Seq<char>, Seq<char>)> {
    p.map_values(|e: (String, String)| (e.0@, e.1@))
}

/// The names, in order.
pub open spec fn names(s: Seq<(Seq<char>, Seq<char>)>) -> Seq<Seq<char>> {
    s.map_values(|e: (Seq<char>, Seq<char>)| e.0)
}

pub open spec fn unique_names(s: Seq<(Seq<char>, Seq<char>)>) -> bool {
    forall|i: int, j: int| 0 <= i < j < s.len() ==> s[i].0 != s[j].0
}

pub open spec fn has_name(s: Seq<(Seq<char>, Seq<char>)>, name: Seq<char>) -> bool {
    exists|i: int| 0 <= i < s.len() && s[i].0 == name
}

/// The contents of the prompt called `name`, if there is one.
pub open spec fn lookup(s: Seq<(Seq<char>, Seq<char>)>, name: Seq<char>) -> Option<Seq<char>> {
    if has_name(s, name) {
        Some(s[choose|i: int| 0 <= i < s.len() && s[i].0 == name].1)
    } else {
        None
    }
}

/// Where the names are unique, the entry with a name is the one that `lookup` finds.
pub proof fn lemma_lookup_at(s: Seq<(Seq<char>, Seq<char>)>, i: int)
    requires
        unique_names(s),
        0 <= i < s.len(),
    ensures
        lookup(s, s[i].0) == Some(s[i].1),
{
    let j = choose|j: int| 0 <= j < s.len() && s[j].0 == s[i].0;
    assert(j == i);
}

impl View for SystemPrompts {
    type V = Seq<(Seq<char>, Seq<char>)>;

    closed spec fn view(&self) -> Seq<(Seq<char>, Seq<char>)> {
        pairs_view(self.prompts@)
    }
}

impl SystemPrompts {
    pub open spec fn wf(&self) -> bool {
        unique_names(self@)
    }

    /// A store with no prompts.
    pub fn empty() -> (r: SystemPrompts)
        ensures
            r.wf(),
            r@ == Seq::<(Seq<char>, Seq<char>)>::empty(),
    {
        let r = SystemPrompts { prompts: Vec::new() };
        assert(r@ =~= Seq::<(Seq<char>, Seq<char>)>::empty());
        r
    }

    /// A store that holds only the default prompt.
    pub fn new() -> (r: SystemPrompts)
        ensures
            r.wf(),
            r@ == seq![(default_name(), "You are a helpful assistant."@)],
    {
        let mut r = SystemPrompts::empty();
        r.ensure_default();
        r
    }

    /// Adds the default prompt if the store has none at all.
    pub fn ensure_default(&mut self)
        requires
            old(self).wf(),
        ensures
            final(self).wf(),
            old(self)@.len() == 0 ==> final(self)@ == seq![
                (default_name(), "You are a helpful assistant."@),
            ],
            old(self)@.len() > 0 ==> final(self)@ == old(self)@,
    {
        if self.prompts.len() == 0 {
            let name = String::from_str("default");
            let contents = String::from_str("You are a helpful assistant.");
            proof {
                reveal_strlit("default");
            }
            assert(name@ =~= default_name());
            let ghost entry = (name@, contents@);
            self.prompts.push((name, contents));
            assert(self.prompts@.len() == 1);
            assert(self@[0] == entry);
            assert(self@ =~= seq![(default_name(), "You are a helpful assistant."@)]);
        }
    }

    /// A store with the given prompts (a later one replaces an earlier one of the same
    /// name); where none is given, it holds the default prompt.
    pub fn from_pairs(pairs: Vec<(String, String)>) -> (r: SystemPrompts)
        ensures
            r.wf(),
            pairs@.len() == 0 ==> r@ == seq![(default_name(), "You are a helpful assistant."@)],
            forall|i: int|
                0 <= i < pairs@.len() ==> #[trigger] has_name(r@, pairs@[i].0@),
            pairs@.len() > 0 ==> forall|name: Seq<char>| #[trigger] has_name(r@, name)
                ==> exists|i: int| 0 <= i < pairs@.len() && pairs@[i].0@ == name,
    {
        let mut r = SystemPrompts::empty();
        let mut i: usize = 0;
        while i < pairs.len()
            invariant
                i <= pairs@.len(),
                r.wf(),
                i == 0 ==> r@.len() == 0,
                i > 0 ==> r@.len() > 0,
                forall|j: int| 0 <= j < i ==> #[trigger] has_name(r@, pairs@[j].0@),
                forall|name: Seq<char>| #[trigger] has_name(r@, name) ==> exists|j: int|
                    0 <= j < i && pairs@[j].0@ == name,
            decreases pairs@.len() - i,
        {
            let ghost before = r@;
            r.update_or_create(pairs[i].0.as_str(), pairs[i].1.as_str());
            assert forall|j: int| 0 <= j < i + 1 implies #[trigger] has_name(r@, pairs@[j].0@) by {
                if j < i {
                    assert(has_name(before, pairs@[j].0@));
                }
            }
            assert forall|name: Seq<char>| #[trigger] has_name(r@, name) implies exists|j: int|
                0 <= j < i + 1 && pairs@[j].0@ == name by {
                if name != pairs@[i as int].0@ {
                    assert(has_name(before, name));
                    let j = choose|j: int| 0 <= j < i && pairs@[j].0@ == name;
                    assert(0 <= j < i + 1 && pairs@[j].0@ == name);
                } else {
                    assert(0 <= i < i + 1 && pairs@[i as int].0@ == name);
                }
            }
            i += 1;
        }
        r.ensure_default();
        r
    }

    /// The prompts, as name and contents.
    pub fn entries(&self) -> (r: &[(String, String)])
        ensures
            pairs_view(r@) == self@,
    {
        self.prompts.as_slice()
    }

    /// The names of all prompts, in order.
    pub fn get_available(&self) -> (r: Vec<String>)
        ensures
            r@.map_values(|s: String| s@) == names(self@),
    {
        let mut r: Vec<String> = Vec::new();
        let mut i: usize = 0;
        while i < self.prompts.len()
            invariant
                i <= self.prompts@.len(),
                r@.len() == i,
                r@.map_values(|s: String| s@) == names(self@).subrange(0, i as int),
            decreases self.prompts@.len() - i,
        {
            let ghost before = r@;
            r.push(self.prompts[i].0.clone());
            assert forall|j: int| 0 <= j < i implies r@[j]@ == names(self@)[j] by {
                assert(r@[j] == before[j]);
                assert(before.map_values(|s: String| s@)[j] == names(self@).subrange(0, i as int)[j]);
            }
            i += 1;
            assert(r@.map_values(|s: String| s@) =~= names(self@).subrange(0, i as int));
        }
        assert(names(self@).subrange(0, i as int) =~= names(self@));
        r
    }

    /// Where the prompt called `name` stands, if there is one.
    fn position(&self, name: &str) -> (r: Option<usize>)
        requires
            self.wf(),
        ensures
            r matches Some(i) ==> i < self@.len() && self@[i as int].0 == name@,
            r is None ==> !has_name(self@, name@),
    {
        let key = String::from_str(name);
        let mut i: usize = 0;
        while i < self.prompts.len()
            invariant
                i <= self.prompts@.len(),
                key@ == name@,
                forall|j: int| 0 <= j < i ==> self@[j].0 != name@,
            decreases self.prompts@.len() - i,
        {
            if self.prompts[i].0 == key {
                return Some(i);
            }
            i += 1;
        }
        None
    }

    /// The contents of the prompt called `name`.
    pub fn get(&self, name: &str) -> (r: Option<&String>)
        requires
            self.wf(),
        ensures
            r matches Some(s) ==> lookup(self@, name@) == Some(s@),
            r is None ==> lookup(self@, name@) is None,
    {
        match self.position(name) {
            Some(i) => {
                proof {
                    lemma_lookup_at(self@, i as int);
                }
                Some(&self.prompts[i].1)
            },
            None => None,
        }
    }

    /// Replaces the contents of the prompt called `name`; fails if there is none.
    pub fn update(&mut self, name: &str, contents: &str) -> (r: Result<(), SystemPromptsError>)
        requires
            old(self).wf(),
        ensures
            final(self).wf(),
            r is Ok <==> has_name(old(self)@, name@),
            r is Ok ==> exists|i: int|
                0 <= i < old(self)@.len() && old(self)@[i].0 == name@ && final(self)@ == old(self)@.update(i, (name@, contents@)),
            r is Err ==> r == Err::<(), _>(SystemPromptsError::FailedToFindPrompt) && final(self)@ == old(self)@,
    {
        match self.position(name) {
            Some(i) => {
                let key = self.prompts[i].0.clone();
                self.prompts.set(i, (key, String::from_str(contents)));
                assert(self@ =~= old(self)@.update(i as int, (name@, contents@)));
                assert(names(self@) =~= names(old(self)@));
                assert forall|a: int, b: int| 0 <= a < b < self@.len() implies self@[a].0
                    != self@[b].0 by {
                    assert(self@[a].0 == names(self@)[a]);
                    assert(self@[b].0 == names(self@)[b]);
                    assert(old(self)@[a].0 == names(old(self)@)[a]);
                    assert(old(self)@[b].0 == names(old(self)@)[b]);
                }
                Ok(())
            },
            None => Err(SystemPromptsError::FailedToFindPrompt),
        }
    }

    /// Replaces the contents of the prompt called `name`, or adds it at the end.
    pub fn update_or_create(&mut self, name: &str, contents: &str) -> (r: Result<
        (),
        SystemPromptsError,
    >)
        requires
            old(self).wf(),
        ensures
            final(self).wf(),
            r is Ok,
            has_name(old(self)@, name@) ==> exists|i: int|
                0 <= i < old(self)@.len() && old(self)@[i].0 == name@ && final(self)@ == old(self)@.update(i, (name@, contents@)),
            !has_name(old(self)@, name@) ==> final(self)@ == old(self)@.push((name@, contents@)),
            lookup(final(self)@, name@) == Some(contents@),
            forall|other: Seq<char>|
                other != name@ ==> (#[trigger] has_name(final(self)@, other) == has_name(
                    old(self)@,
                    other,
                ) && lookup(final(self)@, other) == lookup(old(self)@, other)),
    {
        let ghost s0 = self@;
        let ghost k: int;
        match self.position(name) {
            Some(i) => {
                let r = self.update(name, contents);
                proof {
                    k = i as int;
                    let w = choose|w: int|
                        0 <= w < s0.len() && s0[w].0 == name@ && self@ == s0.update(
                            w,
                            (name@, contents@),
                        );
                    assert(w == k);
                }
            },
            None => {
                self.prompts.push((String::from_str(name), String::from_str(contents)));
                assert(self@ =~= s0.push((name@, contents@)));
                proof {
                    k = s0.len() as int;
                }
            },
        }
        proof {
            let s1 = self@;
            assert(s1[k] == (name@, contents@));
            lemma_lookup_at(s1, k);
            assert forall|other: Seq<char>| other != name@ implies (#[trigger] has_name(s1, other)
                == has_name(s0, other) && lookup(s1, other) == lookup(s0, other)) by {
                if has_name(s1, other) {
                    let j = choose|j: int| 0 <= j < s1.len() && s1[j].0 == other;
                    assert(j != k);
                    assert(s0[j] == s1[j]);
                    lemma_lookup_at(s1, j);
                    lemma_lookup_at(s0, j);
                }
                if has_name(s0, other) {
                    let j = choose|j: int| 0 <= j < s0.len() && s0[j].0 == other;
                    assert(s1[j] == s0[j]);
                }
            }
        }
        Ok(())
    }

    /// Removes the prompt called `name`, if there is one.
    pub fn remove(&mut self, name: &str)
        requires
            old(self).wf(),
        ensures
            final(self).wf(),
            has_name(old(self)@, name@) ==> exists|i: int|
                0 <= i < old(self)@.len() && old(self)@[i].0 == name@ && final(self)@ == old(self)@.remove(i),
            !has_name(old(self)@, name@) ==> final(self)@ == old(self)@,
            !has_name(final(self)@, name@),
    {
        match self.position(name) {
            Some(i) => {
                self.prompts.remove(i);
                assert(self@ =~= old(self)@.remove(i as int));
                assert forall|j: int| 0 <= j < self@.len() implies self@[j].0 != name@ by {
                    if j < i {
                        assert(self@[j] == old(self)@[j]);
                    } else {
                        assert(self@[j] == old(self)@[j + 1]);
                    }
                }
            },
            None => {},
        }
    }
}

} // verus!
