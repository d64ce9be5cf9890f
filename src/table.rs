//! The table of macro definitions: names mapped to templates.
use vstd::prelude::*;

verus! {

/// Whether two character vectors hold the same characters.
pub fn same_chars(a: &Vec<char>, b: &Vec<char>) -> (r: bool)
    ensures
        r == (a@ == b@),
{
    if a.len() != b.len() {
        return false;
    }
    let mut i: usize = 0;
    while i < a.len()
        invariant
            i <= a@.len(),
            a@.len() == b@.len(),
            forall|k: int| 0 <= k < i ==> a@[k] == b@[k],
        decreases a@.len() - i,
    {
        if a[i] != b[i] {
            return false;
        }
        i += 1;
    }
    assert(a@ =~= b@);
    true
}

/// Macro definitions, each name at most once, in the order first defined.
pub struct MacroTable {
    entries: Vec<(Vec<char>, Vec<char>)>,
}

impl View for MacroTable {
    type V = Map<Seq<char>, Seq<char>>;

    closed spec fn view(&self) -> Map<Seq<char>, Seq<char>> {
        Map::new(
            |k: Seq<char>| exists|i: int| 0 <= i < self.entries@.len() && #[trigger] self.entries@[i].0@ == k,
            |k: Seq<char>|
                self.entries@[choose|i: int| 0 <= i < self.entries@.len() && #[trigger] self.entries@[i].0@ == k].1@,
        )
    }
}

impl MacroTable {
    pub closed spec fn wf(&self) -> bool {
        forall|i: int, j: int|
            0 <= i < self.entries@.len() && 0 <= j < self.entries@.len() && #[trigger] self.entries@[i].0@
                == #[trigger] self.entries@[j].0@ ==> i == j
    }

    /// An empty table.
    pub fn new() -> (r: Self)
        ensures
            r.wf(),
            r@ == Map::<Seq<char>, Seq<char>>::empty(),
    {
        let r = MacroTable { entries: Vec::new() };
        assert(r@ =~= Map::<Seq<char>, Seq<char>>::empty());
        r
    }

    /// The index of the entry for `name`, if there is one.
    fn find(&self, name: &Vec<char>) -> (r: Option<usize>)
        requires
            self.wf(),
        ensures
            match r {
                Some(i) => i < self.entries@.len() && self.entries@[i as int].0@ == name@,
                None => forall|i: int| 0 <= i < self.entries@.len() ==> #[trigger] self.entries@[i].0@ != name@,
            },
    {
        let mut i: usize = 0;
        while i < self.entries.len()
            invariant
                i <= self.entries@.len(),
                forall|k: int| 0 <= k < i ==> #[trigger] self.entries@[k].0@ != name@,
            decreases self.entries@.len() - i,
        {
            if same_chars(&self.entries[i].0, name) {
                return Some(i);
            }
            i += 1;
        }
        None
    }

    /// The template defined for `name`, if any.
    pub fn get(&self, name: &Vec<char>) -> (r: Option<Vec<char>>)
        requires
            self.wf(),
        ensures
            match r {
                Some(v) => self@.contains_key(name@) && v@ == self@[name@],
                None => !self@.contains_key(name@),
            },
    {
        match self.find(name) {
            Some(i) => {
                let ghost k = name@;
                assert(self.entries@[i as int].0@ == k);
                let ghost j = choose|j: int| 0 <= j < self.entries@.len() && #[trigger] self.entries@[j].0@ == k;
                assert(self.entries@[j].0@ == self.entries@[i as int].0@);
                let mut v: Vec<char> = Vec::new();
                crate::text::append_chars(&mut v, &self.entries[i].1);
                Some(v)
            },
            None => {
                assert(!self@.contains_key(name@));
                None
            },
        }
    }

    /// Defines `name` as `value`, replacing an earlier definition.
    pub fn insert(&mut self, name: &Vec<char>, value: &Vec<char>)
        requires
            old(self).wf(),
        ensures
            final(self).wf(),
            final(self)@ == old(self)@.insert(name@, value@),
    {
        let mut n: Vec<char> = Vec::new();
        crate::text::append_chars(&mut n, name);
        let mut v: Vec<char> = Vec::new();
        crate::text::append_chars(&mut v, value);
        let ghost before = self.entries@;
        let ghost target = old(self)@.insert(name@, value@);
        match self.find(name) {
            Some(i) => {
                self.entries.set(i, (n, v));
                assert forall|k: Seq<char>| #[trigger] self@.contains_key(k) == target.contains_key(k) by {
                    if target.contains_key(k) && k != name@ {
                        let j = choose|j: int| 0 <= j < before.len() && #[trigger] before[j].0@ == k;
                        assert(self.entries@[j].0@ == k);
                    }
                    if self@.contains_key(k) && k != name@ {
                        let j = choose|j: int| 0 <= j < self.entries@.len() && #[trigger] self.entries@[j].0@ == k;
                        assert(before[j].0@ == k);
                    }
                    if k == name@ {
                        assert(self.entries@[i as int].0@ == k);
                    }
                }
                assert forall|k: Seq<char>| #[trigger] self@.contains_key(k) ==> self@[k] == target[k] by {
                    if self@.contains_key(k) {
                        let j = choose|j: int| 0 <= j < self.entries@.len() && #[trigger] self.entries@[j].0@ == k;
                        if k != name@ {
                            assert(before[j].0@ == k);
                            let j2 = choose|j2: int| 0 <= j2 < before.len() && #[trigger] before[j2].0@ == k;
                            assert(before[j2].0@ == before[j].0@);
                        } else {
                            assert(self.entries@[i as int].0@ == self.entries@[j].0@);
                        }
                    }
                }
                assert(self@ =~= target);
            },
            None => {
                self.entries.push((n, v));
                let ghost last = before.len() as int;
                assert forall|k: Seq<char>| #[trigger] self@.contains_key(k) == target.contains_key(k) by {
                    if target.contains_key(k) && k != name@ {
                        let j = choose|j: int| 0 <= j < before.len() && #[trigger] before[j].0@ == k;
                        assert(self.entries@[j].0@ == k);
                    }
                    if self@.contains_key(k) && k != name@ {
                        let j = choose|j: int| 0 <= j < self.entries@.len() && #[trigger] self.entries@[j].0@ == k;
                        assert(before[j].0@ == k);
                    }
                    if k == name@ {
                        assert(self.entries@[last].0@ == k);
                    }
                }
                assert forall|k: Seq<char>| #[trigger] self@.contains_key(k) ==> self@[k] == target[k] by {
                    if self@.contains_key(k) {
                        let j = choose|j: int| 0 <= j < self.entries@.len() && #[trigger] self.entries@[j].0@ == k;
                        if k != name@ {
                            assert(before[j].0@ == k);
                            let j2 = choose|j2: int| 0 <= j2 < before.len() && #[trigger] before[j2].0@ == k;
                            assert(before[j2].0@ == before[j].0@);
                        } else {
                            assert(self.entries@[last].0@ == self.entries@[j].0@);
                        }
                    }
                }
                assert(self@ =~= target);
            },
        }
    }
}

} // verus!
