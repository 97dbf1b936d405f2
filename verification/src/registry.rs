//! The members of a chat server, each name with the handle used to write to
//! that member. A name occurs at most once; registering a name again
//! replaces its handle.

use vstd::prelude::*;

verus! {

/// The chat's members: names with their write handles.
pub struct ClientRegistry<W> {
    entries: Vec<(String, W)>,
}

impl<W> ClientRegistry<W> {
    /// The names of a list of entries, in order.
    closed spec fn names_of(entries: Seq<(String, W)>) -> Seq<Seq<char>> {
        entries.map_values(|e: (String, W)| e.0@)
    }

    /// The members' names, in registration order.
    pub closed spec fn names(&self) -> Seq<Seq<char>> {
        Self::names_of(self.entries@)
    }

    /// The write handle of the member at position `i`.
    pub closed spec fn handle_at(&self, i: int) -> W {
        self.entries@[i].1
    }

    /// No name occurs twice.
    #[verifier::type_invariant]
    pub open spec fn wf(&self) -> bool {
        self.names().no_duplicates()
    }

    /// The position of `name` among the members.
    pub open spec fn position_of(&self, name: Seq<char>) -> int {
        choose|i: int| 0 <= i < self.names().len() && self.names()[i] == name
    }

    /// The members as a map from name to handle.
    pub open spec fn members(&self) -> Map<Seq<char>, W> {
        Map::new(
            |name: Seq<char>| self.names().contains(name),
            |name: Seq<char>| self.handle_at(self.position_of(name)),
        )
    }

    /// An empty registry.
    pub fn new() -> (r: Self)
        ensures
            r.members() == Map::<Seq<char>, W>::empty(),
            r.names().len() == 0,
    {
        let r = ClientRegistry { entries: Vec::new() };
        assert(r.members() =~= Map::<Seq<char>, W>::empty());
        r
    }

    /// The number of members.
    pub fn len(&self) -> (n: usize)
        ensures
            n == self.names().len(),
    {
        self.entries.len()
    }

    /// The position of the member called `name`, if there is one.
    fn find(&self, name: &String) -> (pos: Option<usize>)
        ensures
            match pos {
                Some(i) => i < self.names().len() && self.names()[i as int] == name@,
                None => !self.names().contains(name@),
            },
    {
        let mut i: usize = 0;
        while i < self.entries.len()
            invariant
                i <= self.entries@.len(),
                self.names().len() == self.entries@.len(),
                forall|k: int| 0 <= k < i ==> self.names()[k] != name@,
            decreases self.entries@.len() - i,
        {
            if self.entries[i].0 == *name {
                return Some(i);
            }
            i = i + 1;
        }
        None
    }

    proof fn lemma_member_at(&self, i: int)
        requires
            self.wf(),
            0 <= i < self.names().len(),
        ensures
            self.members().contains_key(self.names()[i]),
            self.members()[self.names()[i]] == self.handle_at(i),
    {
        let name = self.names()[i];
        assert(self.names().contains(name));
        let j = self.position_of(name);
        assert(self.names()[j] == name);
    }

    /// Registers `writer` under `name`, replacing the handle of a member of
    /// that name.
    pub fn insert(&mut self, name: String, writer: W)
        ensures
            final(self).members() == old(self).members().insert(name@, writer),
    {
        proof {
            use_type_invariant(&*self);
        }
        let ghost old_self = *self;
        let ghost key = name@;
        self.remove(&name);
        proof {
            use_type_invariant(&*self);
        }
        let ghost mid = *self;
        assert(!mid.names().contains(key)) by {
            assert(!mid.members().contains_key(key));
        }
        assert(Self::names_of(self.entries@.push((name, writer))).no_duplicates()) by {
            assert(Self::names_of(self.entries@.push((name, writer))) =~= mid.names().push(key));
        }
        let mut entries: Vec<(String, W)> = Vec::new();
        assert(Self::names_of(entries@) =~= Seq::<Seq<char>>::empty());
        std::mem::swap(&mut entries, &mut self.entries);
        entries.push((name, writer));
        self.entries = entries;
        proof {
            let new_self = *self;
            let last = mid.names().len() as int;
            assert(new_self.names() =~= mid.names().push(key));
            assert(new_self.handle_at(last) == writer);
            assert forall|k: int| 0 <= k < last implies new_self.handle_at(k) == mid.handle_at(k)
                && new_self.names()[k] == mid.names()[k] by {}
            assert forall|n: Seq<char>| #[trigger] new_self.members().contains_key(n)
                <==> mid.members().insert(key, writer).contains_key(n) by {
                if new_self.names().contains(n) && n != key {
                    let k = choose|k: int| 0 <= k < new_self.names().len() && new_self.names()[k] == n;
                    assert(k < last);
                    assert(mid.names()[k] == n);
                }
                if mid.names().contains(n) {
                    let k = choose|k: int| 0 <= k < mid.names().len() && mid.names()[k] == n;
                    assert(new_self.names()[k] == n);
                }
                if n == key {
                    assert(new_self.names()[last] == key);
                }
            }
            assert forall|n: Seq<char>| #[trigger] new_self.members().contains_key(n)
                implies new_self.members()[n] == mid.members().insert(key, writer)[n] by {
                let k = choose|k: int| 0 <= k < new_self.names().len() && new_self.names()[k] == n;
                assert(new_self.names()[k] == n);
                new_self.lemma_member_at(k);
                if n != key {
                    assert(k < last);
                    mid.lemma_member_at(k);
                }
            }
            assert(new_self.members() =~= mid.members().insert(key, writer));
            assert(mid.members().insert(key, writer) =~= old_self.members().insert(key, writer));
        }
    }

    /// Removes the member called `name`, if there is one.
    pub fn remove(&mut self, name: &String)
        ensures
            final(self).members() == old(self).members().remove(name@),
    {
        proof {
            use_type_invariant(&*self);
        }
        let ghost old_self = *self;
        let ghost key = name@;
        match self.find(name) {
            Some(i) => {
                let ghost ii = i as int;
                let ghost rest = old_self.names().remove(ii);
                assert(Self::names_of(self.entries@.remove(ii)).no_duplicates()) by {
                    assert(Self::names_of(self.entries@.remove(ii)) =~= rest);
                    assert forall|a: int, b: int|
                        0 <= a < rest.len() && 0 <= b < rest.len() && a != b implies rest[a]
                        != rest[b] by {
                        let oa = if a < ii { a } else { a + 1 };
                        let ob = if b < ii { b } else { b + 1 };
                        assert(rest[a] == old_self.names()[oa]);
                        assert(rest[b] == old_self.names()[ob]);
                    }
                }
                let mut entries: Vec<(String, W)> = Vec::new();
                assert(Self::names_of(entries@) =~= Seq::<Seq<char>>::empty());
                std::mem::swap(&mut entries, &mut self.entries);
                entries.remove(i);
                self.entries = entries;
                proof {
                    let new_self = *self;
                    assert(new_self.names() =~= old_self.names().remove(ii));
                    assert forall|n: Seq<char>| #[trigger] new_self.members().contains_key(n)
                        <==> old_self.members().remove(key).contains_key(n) by {
                        if new_self.names().contains(n) {
                            let k = choose|k: int|
                                0 <= k < new_self.names().len() && new_self.names()[k] == n;
                            let ok = if k < ii { k } else { k + 1 };
                            assert(new_self.names()[k] == old_self.names()[ok]);
                            assert(old_self.names().contains(n));
                        }
                        if old_self.names().contains(n) && n != key {
                            let k = choose|k: int|
                                0 <= k < old_self.names().len() && old_self.names()[k] == n;
                            assert(old_self.names()[k] == n);
                            assert(k != ii);
                            let nk = if k < ii { k } else { k - 1 };
                            assert(new_self.names()[nk] == n);
                        }
                    }
                    assert forall|n: Seq<char>| #[trigger] new_self.members().contains_key(n)
                        implies new_self.members()[n] == old_self.members().remove(key)[n] by {
                        let k = choose|k: int|
                            0 <= k < new_self.names().len() && new_self.names()[k] == n;
                        assert(new_self.names()[k] == n);
                        let ok = if k < ii { k } else { k + 1 };
                        assert(new_self.names()[k] == old_self.names()[ok]);
                        assert(new_self.handle_at(k) == old_self.handle_at(ok));
                        new_self.lemma_member_at(k);
                        old_self.lemma_member_at(ok);
                    }
                    assert(new_self.members() =~= old_self.members().remove(key));
                }
            },
            None => {
                assert(old_self.members().remove(key) =~= old_self.members());
            },
        }
    }

    /// The handle of the member called `name`, if there is one.
    pub fn get(&self, name: &String) -> (w: Option<&W>)
        ensures
            match w {
                Some(w) => self.members().contains_pair(name@, *w),
                None => !self.members().contains_key(name@),
            },
    {
        proof {
            use_type_invariant(self);
        }
        match self.find(name) {
            Some(i) => {
                proof {
                    self.lemma_member_at(i as int);
                }
                Some(&self.entries[i].1)
            },
            None => None,
        }
    }

    /// The name of the member at position `i`.
    pub fn name(&self, i: usize) -> (n: &String)
        requires
            i < self.names().len(),
        ensures
            n@ == self.names()[i as int],
    {
        &self.entries[i].0
    }

    /// The write handle of the member at position `i`.
    pub fn handle(&self, i: usize) -> (w: &W)
        requires
            i < self.names().len(),
        ensures
            self.members().contains_pair(self.names()[i as int], *w),
    {
        proof {
            use_type_invariant(self);
            self.lemma_member_at(i as int);
        }
        &self.entries[i].1
    }

    /// Each member sits at exactly one position, so going through the
    /// positions in turn reaches every member once.
    pub proof fn lemma_each_member_once(&self)
        requires
            self.wf(),
        ensures
            self.members().dom() == self.names().to_set(),
            self.members().dom().len() == self.names().len(),
    {
        assert(self.members().dom() =~= self.names().to_set());
        self.names().unique_seq_to_set();
    }
}

} // verus!
