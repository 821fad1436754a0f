use crate::data::SessionId;
use crate::session::{index_of, lemma_index_of_first, lemma_index_of};
use vstd::prelude::*;

verus! {

/// The live sessions, each id with the endpoint that reaches its session.
pub struct Registry<E> {
    entries: Vec<(SessionId, E)>,
}

impl<E> Registry<E> {
    /// The session ids, in order of registration.
    pub closed spec fn ids(self) -> Seq<Seq<char>> {
        self.entries@.map_values(|e: (SessionId, E)| e.0@)
    }

    /// The endpoints, in the order of `ids`.
    pub closed spec fn endpoints(self) -> Seq<E> {
        self.entries@.map_values(|e: (SessionId, E)| e.1)
    }

    /// Where `id` stands among the registered ids.
    pub open spec fn position(self, id: Seq<char>) -> Option<nat> {
        index_of(self.ids(), id)
    }

    pub closed spec fn wf(self) -> bool {
        forall|i: int, j: int|
            0 <= i < j < self.entries@.len() ==> #[trigger] self.entries@[i].0@ != #[trigger] self.entries@[j].0@
    }

    proof fn lemma_views(self)
        ensures
            self.ids().len() == self.entries@.len(),
            self.endpoints().len() == self.entries@.len(),
            forall|i: int|
                0 <= i < self.entries@.len() ==> #[trigger] self.ids()[i] == self.entries@[i].0@
                    && self.endpoints()[i] == self.entries@[i].1,
    {
    }

    pub fn new() -> (r: Registry<E>)
        ensures
            r.wf(),
            r.ids().len() == 0,
    {
        let r = Registry { entries: Vec::new() };
        proof {
            r.lemma_views();
        }
        r
    }

    pub fn len(&self) -> (r: usize)
        ensures
            r == self.ids().len(),
    {
        proof {
            self.lemma_views();
        }
        self.entries.len()
    }

    fn find(&self, id: &SessionId) -> (r: Option<usize>)
        ensures
            r matches Some(i) ==> i < self.entries@.len() && self.position(id@) == Some(i as nat),
            r is None ==> self.position(id@) is None,
    {
        proof {
            self.lemma_views();
            lemma_index_of(self.ids(), id@);
        }
        let mut i: usize = 0;
        while i < self.entries.len()
            invariant
                i <= self.entries@.len(),
                self.ids().len() == self.entries@.len(),
                forall|j: int| 0 <= j < i ==> self.ids()[j] != id@,
            decreases self.entries@.len() - i,
        {
            if self.entries[i].0.same(id) {
                proof {
                    self.lemma_views();
                    lemma_index_of_first(self.ids(), id@, i as int);
                }
                return Some(i);
            }
            proof {
                self.lemma_views();
            }
            i += 1;
        }
        None
    }

    /// The endpoint of session `id`.
    pub fn get(&self, id: &SessionId) -> (r: Option<&E>)
        ensures
            r is Some <==> self.position(id@) is Some,
            r matches Some(e) ==> *e == self.endpoints()[self.position(id@)->Some_0 as int],
    {
        match self.find(id) {
            Some(i) => {
                proof {
                    self.lemma_views();
                    lemma_index_of(self.ids(), id@);
                    assert(self.position(id@) == Some(i as nat));
                    assert(self.endpoints()[i as int] == self.entries@[i as int].1);
                }
                let e = &self.entries[i].1;
                assert(*e == self.entries@[i as int].1);
                Some(e)
            },
            None => None,
        }
    }

    /// Registers session `id`; an id already registered is refused and left
    /// as it was.
    pub fn insert(&mut self, id: SessionId, endpoint: E) -> (r: bool)
        requires
            old(self).wf(),
        ensures
            final(self).wf(),
            r == (old(self).position(id@) is None),
            r ==> final(self).ids() == old(self).ids().push(id@) && final(self).endpoints() == old(
                self,
            ).endpoints().push(endpoint),
            !r ==> final(self).ids() == old(self).ids() && final(self).endpoints() == old(self).endpoints(),
    {
        if self.find(&id).is_some() {
            return false;
        }
        let ghost old_self = *self;
        let ghost key = id@;
        proof {
            old_self.lemma_views();
            lemma_index_of(old_self.ids(), id@);
        }
        self.entries.push((id, endpoint));
        proof {
            self.lemma_views();
            assert(self.ids() =~= old_self.ids().push(key));
            assert(self.endpoints() =~= old_self.endpoints().push(endpoint));
            assert forall|i: int, j: int| 0 <= i < j < self.entries@.len() implies #[trigger] self.entries@[i].0@
                != #[trigger] self.entries@[j].0@ by {
                assert(self.entries@[i] == old_self.entries@[i]);
                if j < old_self.entries@.len() {
                    assert(self.entries@[j] == old_self.entries@[j]);
                } else {
                    assert(old_self.ids()[i] != key);
                }
            }
        }
        true
    }

    /// Forgets session `id`, handing back its endpoint.
    pub fn remove(&mut self, id: &SessionId) -> (r: Option<E>)
        requires
            old(self).wf(),
        ensures
            final(self).wf(),
            r is Some <==> old(self).position(id@) is Some,
            old(self).position(id@) matches Some(i) ==> {
                &&& r == Some(old(self).endpoints()[i as int])
                &&& final(self).ids() == old(self).ids().remove(i as int)
                &&& final(self).endpoints() == old(self).endpoints().remove(i as int)
            },
            old(self).position(id@) is None ==> final(self).ids() == old(self).ids()
                && final(self).endpoints() == old(self).endpoints(),
    {
        match self.find(id) {
            Some(i) => {
                let ghost old_self = *self;
                proof {
                    old_self.lemma_views();
                    lemma_index_of(old_self.ids(), id@);
                }
                let (_, e) = self.entries.remove(i);
                proof {
                    self.lemma_views();
                    old_self.lemma_views();
                    assert(self.ids() =~= old_self.ids().remove(i as int));
                    assert(self.endpoints() =~= old_self.endpoints().remove(i as int));
                    assert forall|a: int, b: int| 0 <= a < b < self.entries@.len() implies #[trigger] self.entries@[a].0@
                        != #[trigger] self.entries@[b].0@ by {
                        let oa = if a < i { a } else { a + 1 };
                        let ob = if b < i { b } else { b + 1 };
                        assert(self.entries@[a] == old_self.entries@[oa]);
                        assert(self.entries@[b] == old_self.entries@[ob]);
                    }
                }
                Some(e)
            },
            None => None,
        }
    }

    /// The registered ids, in order of registration.
    pub fn session_ids(&self) -> (r: Vec<SessionId>)
        ensures
            r@.map_values(|s: SessionId| s@) == self.ids(),
    {
        let mut v: Vec<SessionId> = Vec::new();
        let mut i: usize = 0;
        proof {
            self.lemma_views();
        }
        while i < self.entries.len()
            invariant
                i <= self.entries@.len(),
                self.ids().len() == self.entries@.len(),
                forall|k: int| 0 <= k < self.entries@.len() ==> #[trigger] self.ids()[k] == self.entries@[k].0@,
                v@.map_values(|s: SessionId| s@) == self.ids().take(i as int),
            decreases self.entries@.len() - i,
        {
            let ghost prev = v@;
            let d = self.entries[i].0.duplicate();
            v.push(d);
            assert(v@.map_values(|s: SessionId| s@) =~= prev.map_values(|s: SessionId| s@).push(d@));
            assert(self.ids().take(i as int + 1) =~= self.ids().take(i as int).push(self.ids()[i as int]));
            i += 1;
        }
        assert(self.ids().take(i as int) =~= self.ids());
        v
    }
}

} // verus!
