use vstd::prelude::*;

use crate::data::{requests_view, OfferView, Request, UserData, UserView};
use crate::text::str_eq;

verus! {

/// The users that are online: one record per handle.
pub struct Registry {
    users: Vec<(String, UserData)>,
}

/// The records of a list of entries, keyed by handle; a later entry wins.
pub open spec fn records(s: Seq<(String, UserData)>) -> Map<Seq<char>, UserView>
    decreases s.len(),
{
    if s.len() == 0 {
        Map::empty()
    } else {
        records(s.drop_last()).insert(s.last().0@, s.last().1@)
    }
}

/// No handle occurs twice.
pub open spec fn distinct_handles(s: Seq<(String, UserData)>) -> bool {
    forall|i: int, j: int|
        0 <= i < s.len() && 0 <= j < s.len() && i != j ==> #[trigger] s[i].0@ != #[trigger] s[j].0@
}

/// `i` is the position of the first offer in `q` that comes from `from`.
pub open spec fn first_from(q: Seq<OfferView>, from: Seq<char>, i: int) -> bool {
    &&& 0 <= i < q.len()
    &&& q[i].0 == from
    &&& forall|j: int| 0 <= j < i ==> #[trigger] q[j].0 != from
}

/// Some offer in `q` comes from `from`.
pub open spec fn has_from(q: Seq<OfferView>, from: Seq<char>) -> bool {
    exists|j: int| 0 <= j < q.len() && #[trigger] q[j].0 == from
}

proof fn lemma_records_contains(s: Seq<(String, UserData)>, k: Seq<char>)
    ensures
        records(s).contains_key(k) <==> exists|i: int| 0 <= i < s.len() && #[trigger] s[i].0@ == k,
    decreases s.len(),
{
    if s.len() > 0 {
        lemma_records_contains(s.drop_last(), k);
        if records(s.drop_last()).contains_key(k) {
            let i = choose|i: int| 0 <= i < s.len() - 1 && #[trigger] s.drop_last()[i].0@ == k;
            assert(s[i].0@ == k);
        }
        if exists|i: int| 0 <= i < s.len() && #[trigger] s[i].0@ == k {
            let i = choose|i: int| 0 <= i < s.len() && #[trigger] s[i].0@ == k;
            if i < s.len() - 1 {
                assert(s.drop_last()[i].0@ == k);
            }
        }
    }
}

proof fn lemma_records_at(s: Seq<(String, UserData)>, i: int)
    requires
        distinct_handles(s),
        0 <= i < s.len(),
    ensures
        records(s).contains_key(s[i].0@),
        records(s)[s[i].0@] == s[i].1@,
    decreases s.len(),
{
    if i < s.len() - 1 {
        let d = s.drop_last();
        assert(d[i] == s[i]);
        assert(s[i].0@ != s[s.len() - 1].0@);
        lemma_records_at(d, i);
    }
}

proof fn lemma_records_update(s: Seq<(String, UserData)>, i: int, x: (String, UserData))
    requires
        distinct_handles(s),
        0 <= i < s.len(),
        x.0@ == s[i].0@,
    ensures
        records(s.update(i, x)) == records(s).insert(x.0@, x.1@),
        distinct_handles(s.update(i, x)),
    decreases s.len(),
{
    let t = s.update(i, x);
    assert(distinct_handles(t)) by {
        assert forall|a: int, b: int|
            0 <= a < t.len() && 0 <= b < t.len() && a != b implies #[trigger] t[a].0@
            != #[trigger] t[b].0@ by {
            assert(s[a].0@ != s[b].0@);
        }
    }
    if i == s.len() - 1 {
        assert(t.drop_last() =~= s.drop_last());
        assert(records(t) =~= records(s).insert(x.0@, x.1@));
    } else {
        let d = s.drop_last();
        assert(t.drop_last() =~= d.update(i, x));
        assert(d[i] == s[i]);
        assert(distinct_handles(d));
        lemma_records_update(d, i, x);
        assert(s[i].0@ != s[s.len() - 1].0@);
        assert(records(t) =~= records(s).insert(x.0@, x.1@));
    }
}

proof fn lemma_records_remove(s: Seq<(String, UserData)>, i: int)
    requires
        distinct_handles(s),
        0 <= i < s.len(),
    ensures
        records(s.remove(i)) == records(s).remove(s[i].0@),
        distinct_handles(s.remove(i)),
    decreases s.len(),
{
    let t = s.remove(i);
    let d = s.drop_last();
    assert(distinct_handles(d));
    assert(distinct_handles(t)) by {
        assert forall|a: int, b: int|
            0 <= a < t.len() && 0 <= b < t.len() && a != b implies #[trigger] t[a].0@
            != #[trigger] t[b].0@ by {
            let a2 = if a < i { a } else { a + 1 };
            let b2 = if b < i { b } else { b + 1 };
            assert(t[a] == s[a2]);
            assert(t[b] == s[b2]);
            assert(s[a2].0@ != s[b2].0@);
        }
    }
    if i == s.len() - 1 {
        assert(t =~= d);
        lemma_records_contains(d, s[i].0@);
        if exists|j: int| 0 <= j < d.len() && #[trigger] d[j].0@ == s[i].0@ {
            let j = choose|j: int| 0 <= j < d.len() && #[trigger] d[j].0@ == s[i].0@;
            assert(s[j].0@ == s[i].0@);
        }
        assert(records(t) =~= records(s).remove(s[i].0@));
    } else {
        assert(t.drop_last() =~= d.remove(i));
        assert(t.last() == s.last());
        assert(d[i] == s[i]);
        lemma_records_remove(d, i);
        assert(s[i].0@ != s[s.len() - 1].0@);
        assert(records(t) =~= records(s).remove(s[i].0@));
    }
}

fn position_from(q: &Vec<Request>, from: &str) -> (r: Option<usize>)
    ensures
        r matches Some(i) ==> first_from(requests_view(q@), from@, i as int),
        r is None ==> !has_from(requests_view(q@), from@),
{
    let ghost v = requests_view(q@);
    let mut i: usize = 0;
    while i < q.len()
        invariant
            v == requests_view(q@),
            i <= q@.len(),
            forall|j: int| 0 <= j < i ==> #[trigger] v[j].0 != from@,
        decreases q@.len() - i,
    {
        if str_eq(q[i].sender.as_str(), from) {
            return Some(i);
        }
        i = i + 1;
    }
    None
}

/// The record `u` with `q` as its queue.
pub open spec fn with_queue(u: UserView, q: Seq<OfferView>) -> UserView {
    UserView { socket: u.socket, queue: q }
}

impl View for Registry {
    type V = Map<Seq<char>, UserView>;

    closed spec fn view(&self) -> Map<Seq<char>, UserView> {
        records(self.users@)
    }
}

impl Registry {
    /// The registry is well formed: no handle occurs twice.
    pub closed spec fn wf(&self) -> bool {
        distinct_handles(self.users@)
    }

    /// An empty registry.
    pub fn new() -> (r: Registry)
        ensures
            r.wf(),
            r@ == Map::<Seq<char>, UserView>::empty(),
    {
        Registry { users: Vec::new() }
    }

    fn find(&self, h: &str) -> (r: Option<usize>)
        requires
            self.wf(),
        ensures
            r matches Some(i) ==> i < self.users@.len() && self.users@[i as int].0@ == h@
                && self@.contains_key(h@) && self@[h@] == self.users@[i as int].1@,
            r is None ==> !self@.contains_key(h@),
    {
        let mut i: usize = 0;
        while i < self.users.len()
            invariant
                self.wf(),
                i <= self.users@.len(),
                forall|j: int| 0 <= j < i ==> #[trigger] self.users@[j].0@ != h@,
            decreases self.users@.len() - i,
        {
            if str_eq(self.users[i].0.as_str(), h) {
                proof {
                    lemma_records_at(self.users@, i as int);
                }
                return Some(i);
            }
            i = i + 1;
        }
        proof {
            lemma_records_contains(self.users@, h@);
        }
        None
    }

    /// Whether a user with this handle is online.
    pub fn contains(&self, h: &str) -> (r: bool)
        requires
            self.wf(),
        ensures
            r == self@.contains_key(h@),
    {
        self.find(h).is_some()
    }

    /// Adds a user with an empty queue, unless the handle is taken already.
    /// Returns whether the user was added.
    pub fn insert_if_absent(&mut self, h: &str, socket: &str) -> (r: bool)
        requires
            old(self).wf(),
        ensures
            final(self).wf(),
            r == !old(self)@.contains_key(h@),
            final(self)@ == if r {
                old(self)@.insert(h@, UserView { socket: socket@, queue: seq![] })
            } else {
                old(self)@
            },
    {
        if self.find(h).is_some() {
            return false;
        }
        let data = UserData { socket: socket.to_owned(), incoming_requests: Vec::new() };
        proof {
            lemma_records_contains(self.users@, h@);
            assert(data@.queue =~= seq![]);
        }
        let ghost before = self.users@;
        self.users.push((h.to_owned(), data));
        proof {
            assert(self.users@.drop_last() =~= before);
            assert forall|i: int, j: int|
                0 <= i < self.users@.len() && 0 <= j < self.users@.len() && i != j implies #[trigger] self.users@[i].0@
                != #[trigger] self.users@[j].0@ by {
                if i < before.len() && j < before.len() {
                    assert(before[i] == self.users@[i]);
                    assert(before[j] == self.users@[j]);
                } else if i < before.len() {
                    assert(before[i] == self.users@[i]);
                } else {
                    assert(before[j] == self.users@[j]);
                }
            }
        }
        true
    }

    /// Removes the user with this handle, if online.
    pub fn remove(&mut self, h: &str)
        requires
            old(self).wf(),
        ensures
            final(self).wf(),
            final(self)@ == old(self)@.remove(h@),
    {
        match self.find(h) {
            Some(i) => {
                proof {
                    lemma_records_remove(self.users@, i as int);
                }
                self.users.remove(i);
            },
            None => {
                assert(self@ =~= self@.remove(h@));
            },
        }
    }

    /// The handles of all online users but `me`, each once.
    pub fn others(&self, me: &str) -> (r: Vec<String>)
        requires
            self.wf(),
        ensures
            forall|i: int| 0 <= i < r@.len() ==> #[trigger] r@[i]@ != me@ && self@.contains_key(r@[i]@),
            forall|h: Seq<char>| #[trigger] self@.contains_key(h) && h != me@ ==> exists|i: int|
                0 <= i < r@.len() && #[trigger] r@[i]@ == h,
            forall|i: int, j: int| 0 <= i < j < r@.len() ==> #[trigger] r@[i]@ != #[trigger] r@[j]@,
    {
        let mut r: Vec<String> = Vec::new();
        let ghost mut idx: Seq<int> = seq![];
        let mut i: usize = 0;
        while i < self.users.len()
            invariant
                self.wf(),
                i <= self.users@.len(),
                idx.len() == r@.len(),
                forall|k: int|
                    0 <= k < r@.len() ==> 0 <= #[trigger] idx[k] < i && r@[k]@ == self.users@[idx[k]].0@
                        && r@[k]@ != me@,
                forall|a: int, b: int| 0 <= a < b < idx.len() ==> #[trigger] idx[a] < #[trigger] idx[b],
                forall|j: int|
                    0 <= j < i && #[trigger] self.users@[j].0@ != me@ ==> exists|k: int|
                        0 <= k < idx.len() && #[trigger] idx[k] == j,
            decreases self.users@.len() - i,
        {
            let ghost old_idx = idx;
            if !str_eq(self.users[i].0.as_str(), me) {
                let h = self.users[i].0.clone();
                r.push(h);
                proof {
                    idx = idx.push(i as int);
                    assert(idx[idx.len() - 1] == i);
                }
            }
            proof {
                assert forall|j: int|
                    0 <= j < i + 1 && #[trigger] self.users@[j].0@ != me@ implies exists|k: int|
                    0 <= k < idx.len() && #[trigger] idx[k] == j by {
                    if j == i {
                        assert(idx[idx.len() - 1] == i);
                    } else {
                        let k = choose|k: int| 0 <= k < old_idx.len() && #[trigger] old_idx[k] == j;
                        assert(idx[k] == old_idx[k]);
                    }
                }
            }
            i = i + 1;
        }
        proof {
            assert forall|k: int| 0 <= k < r@.len() implies #[trigger] r@[k]@ != me@
                && self@.contains_key(r@[k]@) by {
                lemma_records_at(self.users@, idx[k]);
            }
            assert forall|h: Seq<char>| #[trigger] self@.contains_key(h) && h != me@ implies exists|k: int|
                0 <= k < r@.len() && #[trigger] r@[k]@ == h by {
                lemma_records_contains(self.users@, h);
                let j = choose|j: int| 0 <= j < self.users@.len() && #[trigger] self.users@[j].0@ == h;
                let k = choose|k: int| 0 <= k < idx.len() && #[trigger] idx[k] == j;
                assert(r@[k]@ == h);
            }
            assert forall|a: int, b: int| 0 <= a < b < r@.len() implies #[trigger] r@[a]@ != #[trigger] r@[b]@ by {
                assert(idx[a] < idx[b]);
                assert(self.users@[idx[a]].0@ != self.users@[idx[b]].0@);
            }
        }
        r
    }

    /// A copy of the queue of `me`, if `me` is online.
    pub fn offers(&self, me: &str) -> (r: Option<Vec<Request>>)
        requires
            self.wf(),
        ensures
            r is Some == self@.contains_key(me@),
            r matches Some(v) ==> requests_view(v@) == self@[me@].queue,
    {
        match self.find(me) {
            Some(i) => {
                let q = &self.users[i].1.incoming_requests;
                let mut v: Vec<Request> = Vec::new();
                let mut k: usize = 0;
                while k < q.len()
                    invariant
                        k <= q@.len(),
                        requests_view(v@) == requests_view(q@).subrange(0, k as int),
                    decreases q@.len() - k,
                {
                    let d = q[k].duplicate();
                    let ghost pv = v@;
                    v.push(d);
                    assert(requests_view(v@) =~= requests_view(pv).push(d@));
                    k = k + 1;
                    assert(requests_view(v@) =~= requests_view(q@).subrange(0, k as int));
                }
                assert(requests_view(v@) =~= requests_view(q@));
                Some(v)
            },
            None => None,
        }
    }

    /// Appends `offer` to the queue of `to`, if `to` is online. Returns
    /// whether it did.
    pub fn add_offer(&mut self, to: &str, offer: Request) -> (r: bool)
        requires
            old(self).wf(),
        ensures
            final(self).wf(),
            r == old(self)@.contains_key(to@),
            final(self)@ == if r {
                old(self)@.insert(to@, with_queue(old(self)@[to@], old(self)@[to@].queue.push(offer@)))
            } else {
                old(self)@
            },
    {
        match self.find(to) {
            Some(i) => {
                let ghost before = self.users@;
                let ghost offer_view = offer@;
                self.users[i].1.incoming_requests.push(offer);
                proof {
                    let x = self.users@[i as int];
                    assert(self.users@ == before.update(i as int, x));
                    assert(x.1@.queue =~= before[i as int].1@.queue.push(offer_view));
                    lemma_records_update(before, i as int, x);
                    assert(x.1@ == with_queue(before[i as int].1@, before[i as int].1@.queue.push(offer_view)));
                }
                true
            },
            None => false,
        }
    }

    /// Whether `me` is online and has an offer from `from`.
    pub fn has_offer_from(&self, me: &str, from: &str) -> (r: bool)
        requires
            self.wf(),
        ensures
            r == (self@.contains_key(me@) && has_from(self@[me@].queue, from@)),
    {
        match self.find(me) {
            Some(i) => {
                let p = position_from(&self.users[i].1.incoming_requests, from);
                p.is_some()
            },
            None => false,
        }
    }

    /// A copy of the first offer from `from` in the queue of `me`.
    pub fn first_offer_from(&self, me: &str, from: &str) -> (r: Option<Request>)
        requires
            self.wf(),
        ensures
            r is Some == (self@.contains_key(me@) && has_from(self@[me@].queue, from@)),
            r matches Some(o) ==> exists|i: int|
                first_from(self@[me@].queue, from@, i) && #[trigger] self@[me@].queue[i] == o@,
    {
        match self.find(me) {
            Some(i) => {
                let q = &self.users[i].1.incoming_requests;
                match position_from(q, from) {
                    Some(k) => {
                        let o = q[k].duplicate();
                        assert(self@[me@].queue[k as int] == o@);
                        Some(o)
                    },
                    None => None,
                }
            },
            None => None,
        }
    }

    /// Takes the first offer from `from` out of the queue of `me`.
    pub fn take_offer_from(&mut self, me: &str, from: &str) -> (r: Option<Request>)
        requires
            old(self).wf(),
        ensures
            final(self).wf(),
            r is Some == (old(self)@.contains_key(me@) && has_from(old(self)@[me@].queue, from@)),
            r is None ==> final(self)@ == old(self)@,
            r matches Some(o) ==> exists|i: int|
                first_from(old(self)@[me@].queue, from@, i) && #[trigger] old(self)@[me@].queue[i]
                    == o@ && final(self)@ == old(self)@.insert(
                    me@,
                    with_queue(old(self)@[me@], old(self)@[me@].queue.remove(i)),
                ),
    {
        match self.find(me) {
            Some(i) => {
                match position_from(&self.users[i].1.incoming_requests, from) {
                    Some(k) => {
                        let ghost before = self.users@;
                        let ghost q0 = before[i as int].1@.queue;
                        let o = self.users[i].1.incoming_requests.remove(k);
                        proof {
                            let x = self.users@[i as int];
                            assert(self.users@ == before.update(i as int, x));
                            assert(x.1@.queue =~= q0.remove(k as int));
                            lemma_records_update(before, i as int, x);
                            assert(x.1@ == with_queue(before[i as int].1@, q0.remove(k as int)));
                            assert(q0[k as int] == o@);
                        }
                        Some(o)
                    },
                    None => None,
                }
            },
            None => None,
        }
    }
}

} // verus!
