//! The table of live sessions, keyed by session id.

use vstd::prelude::*;
use vstd::string::*;

verus! {

/// The live sessions of one connection: each session id names one handle.
pub struct SessionTable<H> {
    ids: Vec<String>,
    handles: Vec<H>,
    model: Ghost<Map<Seq<char>, H>>,
}

impl<H> View for SessionTable<H> {
    type V = Map<Seq<char>, H>;

    closed spec fn view(&self) -> Map<Seq<char>, H> {
        self.model@
    }
}

impl<H> SessionTable<H> {
    /// Ids are unique, and the two vectors hold exactly the entries of the model.
    pub closed spec fn wf(&self) -> bool {
        &&& self.ids@.len() == self.handles@.len()
        &&& forall|i: int, j: int|
            0 <= i < j < self.ids@.len() ==> #[trigger] self.ids@[i]@ != #[trigger] self.ids@[j]@
        &&& forall|i: int|
            0 <= i < self.ids@.len() ==> #[trigger] self.model@.contains_key(self.ids@[i]@)
                && self.model@[self.ids@[i]@] == self.handles@[i]
        &&& forall|k: Seq<char>|
            #[trigger] self.model@.contains_key(k) ==> exists|i: int|
                0 <= i < self.ids@.len() && #[trigger] self.ids@[i]@ == k
    }

    pub fn new() -> (r: Self)
        ensures
            r.wf(),
            r@ == Map::<Seq<char>, H>::empty(),
    {
        SessionTable { ids: Vec::new(), handles: Vec::new(), model: Ghost(Map::empty()) }
    }

    /// The position of `id`, if it is registered.
    fn position(&self, id: &str) -> (r: Option<usize>)
        requires
            self.wf(),
        ensures
            match r {
                Some(i) => i < self.ids@.len() && self.ids@[i as int]@ == id@,
                None => !self@.contains_key(id@),
            },
    {
        let key = String::from_str(id);
        let mut i: usize = 0;
        while i < self.ids.len()
            invariant
                self.wf(),
                key@ == id@,
                i <= self.ids@.len(),
                forall|j: int| 0 <= j < i ==> #[trigger] self.ids@[j]@ != id@,
            decreases self.ids@.len() - i,
        {
            if self.ids[i] == key {
                return Some(i);
            }
            i = i + 1;
        }
        None
    }

    /// Whether a session is registered under `id`.
    pub fn contains(&self, id: &str) -> (r: bool)
        requires
            self.wf(),
        ensures
            r == self@.contains_key(id@),
    {
        match self.position(id) {
            Some(_) => true,
            None => false,
        }
    }

    /// The handle registered under `id`.
    pub fn lookup(&self, id: &str) -> (r: Option<&H>)
        requires
            self.wf(),
        ensures
            match r {
                Some(h) => self@.contains_key(id@) && *h == self@[id@],
                None => !self@.contains_key(id@),
            },
    {
        match self.position(id) {
            Some(i) => {
                assert(self.model@.contains_key(self.ids@[i as int]@));
                Some(&self.handles[i])
            },
            None => None,
        }
    }

    /// Registers `handle` under `id`. An id that is already live is refused,
    /// and the handle comes back unregistered.
    pub fn register(&mut self, id: String, handle: H) -> (r: Result<(), H>)
        requires
            old(self).wf(),
        ensures
            final(self).wf(),
            old(self)@.contains_key(id@) ==> r == Err::<(), H>(handle) && final(self)@ == old(
                self,
            )@,
            !old(self)@.contains_key(id@) ==> r is Ok && final(self)@ == old(self)@.insert(
                id@,
                handle,
            ),
    {
        if self.contains(id.as_str()) {
            return Err(handle);
        }
        let ghost key = id@;
        let ghost old_ids = self.ids@;
        self.ids.push(id);
        self.handles.push(handle);
        self.model = Ghost(self.model@.insert(key, handle));
        assert forall|k: Seq<char>| #[trigger] self.model@.contains_key(k) implies exists|i: int|
            0 <= i < self.ids@.len() && #[trigger] self.ids@[i]@ == k by {
            if k == key {
                assert(self.ids@[old_ids.len() as int]@ == k);
            } else {
                let i = choose|i: int| 0 <= i < old_ids.len() && #[trigger] old_ids[i]@ == k;
                assert(self.ids@[i]@ == k);
            }
        }
        Ok(())
    }

    /// Takes the session registered under `id` out of the table, if there is
    /// one. Removing an id that is not there changes nothing.
    pub fn remove(&mut self, id: &str) -> (r: Option<H>)
        requires
            old(self).wf(),
        ensures
            final(self).wf(),
            final(self)@ == old(self)@.remove(id@),
            !old(self)@.contains_key(id@) ==> final(self)@ == old(self)@,
            match r {
                Some(h) => old(self)@.contains_key(id@) && h == old(self)@[id@],
                None => !old(self)@.contains_key(id@),
            },
    {
        match self.position(id) {
            None => {
                assert(self.model@.remove(id@) =~= self.model@);
                None
            },
            Some(p) => {
                let ghost old_ids = self.ids@;
                let ghost old_handles = self.handles@;
                let ghost key = id@;
                let ghost old_model = self.model@;
                assert(old_model.contains_key(old_ids[p as int]@));
                let _gone = self.ids.remove(p);
                let h = self.handles.remove(p);
                self.model = Ghost(self.model@.remove(key));
                assert forall|i: int| 0 <= i < self.ids@.len() implies #[trigger] self.model@.contains_key(
                    self.ids@[i]@,
                ) && self.model@[self.ids@[i]@] == self.handles@[i] by {
                    let oi = if i < p { i } else { i + 1 };
                    assert(self.ids@[i] == old_ids[oi]);
                    assert(self.handles@[i] == old_handles[oi]);
                    assert(old_ids[oi]@ != old_ids[p as int]@);
                    assert(old_model.contains_key(old_ids[oi]@));
                }
                assert forall|i: int, j: int|
                    0 <= i < j < self.ids@.len() implies #[trigger] self.ids@[i]@
                    != #[trigger] self.ids@[j]@ by {
                    let oi = if i < p { i } else { i + 1 };
                    let oj = if j < p { j } else { j + 1 };
                    assert(self.ids@[i] == old_ids[oi]);
                    assert(self.ids@[j] == old_ids[oj]);
                }
                assert forall|k: Seq<char>| #[trigger] self.model@.contains_key(k) implies exists|
                    i: int,
                | 0 <= i < self.ids@.len() && #[trigger] self.ids@[i]@ == k by {
                    let oi = choose|i: int| 0 <= i < old_ids.len() && #[trigger] old_ids[i]@ == k;
                    assert(oi != p);
                    if oi < p {
                        assert(self.ids@[oi]@ == k);
                    } else {
                        assert(self.ids@[oi - 1]@ == k);
                    }
                }
                assert(h == old_handles[p as int]);
                Some(h)
            },
        }
    }

    /// Empties the table and hands out every entry, each exactly once.
    pub fn drain(&mut self) -> (r: Vec<(String, H)>)
        requires
            old(self).wf(),
        ensures
            final(self).wf(),
            final(self)@ == Map::<Seq<char>, H>::empty(),
            forall|i: int, j: int|
                0 <= i < j < r@.len() ==> #[trigger] r@[i].0@ != #[trigger] r@[j].0@,
            forall|i: int|
                0 <= i < r@.len() ==> #[trigger] old(self)@.contains_key(r@[i].0@) && old(
                    self,
                )@[r@[i].0@] == r@[i].1,
            forall|k: Seq<char>| #[trigger]
                old(self)@.contains_key(k) ==> exists|i: int|
                    0 <= i < r@.len() && #[trigger] r@[i].0@ == k,
    {
        let ghost old_ids = self.ids@;
        let ghost old_handles = self.handles@;
        let ghost n = old_ids.len();
        let mut out: Vec<(String, H)> = Vec::new();
        while self.ids.len() > 0
            invariant
                self.ids@.len() == self.handles@.len(),
                self.ids@.len() + out@.len() == n,
                self.ids@ == old_ids.take(self.ids@.len() as int),
                self.handles@ == old_handles.take(self.handles@.len() as int),
                old_ids.len() == n,
                old_handles.len() == n,
                forall|j: int|
                    0 <= j < out@.len() ==> #[trigger] out@[j] == (
                        old_ids[n - 1 - j],
                        old_handles[n - 1 - j],
                    ),
            decreases self.ids@.len(),
        {
            let id = self.ids.pop().unwrap();
            let h = self.handles.pop().unwrap();
            out.push((id, h));
        }
        self.model = Ghost(Map::empty());
        assert forall|i: int, j: int| 0 <= i < j < out@.len() implies #[trigger] out@[i].0@
            != #[trigger] out@[j].0@ by {
            assert(out@[i] == (old_ids[n - 1 - i], old_handles[n - 1 - i]));
            assert(out@[j] == (old_ids[n - 1 - j], old_handles[n - 1 - j]));
        }
        assert forall|i: int| 0 <= i < out@.len() implies #[trigger] old(self)@.contains_key(
            out@[i].0@,
        ) && old(self)@[out@[i].0@] == out@[i].1 by {
            assert(out@[i] == (old_ids[n - 1 - i], old_handles[n - 1 - i]));
        }
        assert forall|k: Seq<char>| #[trigger] old(self)@.contains_key(k) implies exists|i: int|
            0 <= i < out@.len() && #[trigger] out@[i].0@ == k by {
            let oi = choose|i: int| 0 <= i < old_ids.len() && #[trigger] old_ids[i]@ == k;
            assert(out@[n - 1 - oi] == (old_ids[oi], old_handles[oi]));
            assert(out@[n - 1 - oi].0@ == k);
        }
        out
    }
}

} // verus!
