//! Reference tables: reference name to commit id, one entry per name.
use vstd::prelude::*;

verus! {

/// No two entries share a reference name.
pub open spec fn keys_unique(s: Seq<(Seq<char>, Seq<char>)>) -> bool {
    forall|i: int, j: int|
        0 <= i < s.len() && 0 <= j < s.len() && i != j ==> #[trigger] s[i].0 != #[trigger] s[j].0
}

/// The map that a list of entries stands for; a later entry wins.
pub open spec fn entries_map(s: Seq<(Seq<char>, Seq<char>)>) -> Map<Seq<char>, Seq<char>>
    decreases s.len(),
{
    if s.len() == 0 {
        Map::empty()
    } else {
        entries_map(s.drop_last()).insert(s.last().0, s.last().1)
    }
}

pub open spec fn lookup(m: Map<Seq<char>, Seq<char>>, k: Seq<char>) -> Option<Seq<char>> {
    if m.contains_key(k) {
        Some(m[k])
    } else {
        None
    }
}

/// A name is in the map of a list of unique entries exactly when some entry
/// carries it, and then the map holds that entry's commit id.
pub proof fn lemma_entries_map(s: Seq<(Seq<char>, Seq<char>)>, k: Seq<char>)
    requires
        keys_unique(s),
    ensures
        entries_map(s).contains_key(k) <==> exists|i: int| 0 <= i < s.len() && #[trigger] s[i].0
            == k,
        forall|i: int| 0 <= i < s.len() && #[trigger] s[i].0 == k ==> entries_map(s)[k] == s[i].1,
    decreases s.len(),
{
    if s.len() > 0 {
        let t = s.drop_last();
        assert forall|i: int, j: int|
            0 <= i < t.len() && 0 <= j < t.len() && i != j implies #[trigger] t[i].0
            != #[trigger] t[j].0 by {
            assert(t[i] == s[i] && t[j] == s[j]);
        }
        lemma_entries_map(t, k);
        if k != s.last().0 {
            if exists|i: int| 0 <= i < s.len() && #[trigger] s[i].0 == k {
                let i = choose|i: int| 0 <= i < s.len() && #[trigger] s[i].0 == k;
                assert(t[i] == s[i]);
            }
            assert forall|i: int| 0 <= i < s.len() && #[trigger] s[i].0 == k implies entries_map(
                s,
            )[k] == s[i].1 by {
                assert(t[i] == s[i]);
            }
        } else {
            let n = s.len() - 1;
            assert(s[n].0 == k);
        }
    }
}

/// The references of one repository, each name at most once.
pub struct RefTable {
    entries: Vec<(String, String)>,
}

impl View for RefTable {
    type V = Map<Seq<char>, Seq<char>>;

    open spec fn view(&self) -> Map<Seq<char>, Seq<char>> {
        entries_map(self.entries_view())
    }
}

impl RefTable {
    /// The entries in the order in which their names were first inserted.
    pub closed spec fn entries_view(&self) -> Seq<(Seq<char>, Seq<char>)> {
        self.entries@.map_values(|e: (String, String)| (e.0@, e.1@))
    }

    pub open spec fn wf(&self) -> bool {
        keys_unique(self.entries_view())
    }

    pub fn new() -> (r: Self)
        ensures
            r.wf(),
            r.entries_view() == Seq::<(Seq<char>, Seq<char>)>::empty(),
            r@ == Map::<Seq<char>, Seq<char>>::empty(),
    {
        let r = RefTable { entries: Vec::new() };
        assert(r.entries_view() =~= Seq::<(Seq<char>, Seq<char>)>::empty());
        r
    }

    pub fn len(&self) -> (r: usize)
        ensures
            r == self.entries_view().len(),
    {
        self.entries.len()
    }

    pub fn entry(&self, i: usize) -> (r: (&String, &String))
        requires
            i < self.entries_view().len(),
        ensures
            (r.0@, r.1@) == self.entries_view()[i as int],
    {
        let e = &self.entries[i];
        (&e.0, &e.1)
    }

    fn find(&self, name: &String) -> (r: Option<usize>)
        ensures
            match r {
                Some(i) => i < self.entries_view().len() && self.entries_view()[i as int].0
                    == name@,
                None => forall|i: int|
                    0 <= i < self.entries_view().len() ==> #[trigger] self.entries_view()[i].0
                        != name@,
            },
    {
        let mut i: usize = 0;
        while i < self.entries.len()
            invariant
                i <= self.entries_view().len(),
                self.entries_view().len() == self.entries@.len(),
                forall|j: int| 0 <= j < i ==> #[trigger] self.entries_view()[j].0 != name@,
            decreases self.entries@.len() - i,
        {
            if self.entries[i].0 == *name {
                return Some(i);
            }
            i += 1;
        }
        None
    }

    /// The commit id recorded for `name`.
    pub fn get(&self, name: &String) -> (r: Option<&String>)
        requires
            self.wf(),
        ensures
            match r {
                Some(v) => lookup(self@, name@) == Some(v@),
                None => lookup(self@, name@) == None::<Seq<char>>,
            },
    {
        proof {
            lemma_entries_map(self.entries_view(), name@);
        }
        match self.find(name) {
            Some(i) => Some(&self.entries[i].1),
            None => None,
        }
    }

    /// Records `sha` for `name`, replacing what was recorded before.
    pub fn insert(&mut self, name: String, sha: String)
        requires
            old(self).wf(),
        ensures
            final(self).wf(),
            final(self)@ == old(self)@.insert(name@, sha@),
            !old(self)@.contains_key(name@) ==> final(self).entries_view() == old(
                self,
            ).entries_view().push((name@, sha@)),
            old(self)@.contains_key(name@) ==> exists|i: int|
                0 <= i < old(self).entries_view().len() && #[trigger] old(
                    self,
                ).entries_view()[i].0 == name@ && final(self).entries_view() == old(
                    self,
                ).entries_view().update(i, (name@, sha@)),
    {
        proof {
            lemma_entries_map(self.entries_view(), name@);
        }
        let ghost s = self.entries_view();
        let ghost k = name@;
        let ghost v = sha@;
        match self.find(&name) {
            Some(i) => {
                self.entries.set(i, (name, sha));
                let ghost t = self.entries_view();
                assert(t =~= s.update(i as int, (k, v)));
                assert forall|a: int, b: int|
                    0 <= a < t.len() && 0 <= b < t.len() && a != b implies #[trigger] t[a].0
                    != #[trigger] t[b].0 by {
                    assert(t[a].0 == s[a].0 && t[b].0 == s[b].0);
                }
                assert forall|x: Seq<char>| #[trigger]
                    entries_map(t).contains_key(x) == entries_map(s).insert(k, v).contains_key(
                        x,
                    ) by {
                    lemma_entries_map(s, x);
                    lemma_entries_map(t, x);
                    if entries_map(s).contains_key(x) {
                        let j = choose|j: int| 0 <= j < s.len() && #[trigger] s[j].0 == x;
                        assert(t[j].0 == x);
                    }
                    if entries_map(t).contains_key(x) {
                        let j = choose|j: int| 0 <= j < t.len() && #[trigger] t[j].0 == x;
                        assert(s[j].0 == x);
                    }
                    assert(s[i as int].0 == k);
                }
                assert forall|x: Seq<char>| #[trigger]
                    entries_map(t).contains_key(x) implies entries_map(t)[x] == entries_map(
                        s,
                    ).insert(k, v)[x] by {
                    lemma_entries_map(s, x);
                    lemma_entries_map(t, x);
                    let j = choose|j: int| 0 <= j < t.len() && #[trigger] t[j].0 == x;
                    assert(s[j].0 == x);
                    if x == k {
                        assert(t[i as int].0 == k);
                    }
                }
                assert(entries_map(t) =~= entries_map(s).insert(k, v));
            },
            None => {
                self.entries.push((name, sha));
                let ghost t = self.entries_view();
                assert(t =~= s.push((k, v)));
                assert(t.drop_last() =~= s);
                assert forall|a: int, b: int|
                    0 <= a < t.len() && 0 <= b < t.len() && a != b implies #[trigger] t[a].0
                    != #[trigger] t[b].0 by {
                    if a < s.len() && b < s.len() {
                        assert(t[a].0 == s[a].0 && t[b].0 == s[b].0);
                    } else if a < s.len() {
                        assert(t[a].0 == s[a].0);
                    } else {
                        assert(t[b].0 == s[b].0);
                    }
                }
            },
        }
    }
}

} // verus!
