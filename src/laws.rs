use vstd::multiset::Multiset;
use vstd::prelude::*;

use crate::commands::{executed, glide_accepted, CommandView};
use crate::data::{OfferView, UserView};
use crate::protocol::Message;
use crate::registry::{first_from, has_from, with_queue};
use crate::session::{after_login, login_reply};
use crate::text::file_name_of;

verus! {

broadcast use vstd::seq_lib::group_to_multiset_ensures;

/// A glide aimed at its own sender is refused and leaves every queue as it
/// was.
pub proof fn lemma_self_glide_changes_nothing(
    reg: Map<Seq<char>, UserView>,
    me: Seq<char>,
    path: Seq<char>,
    r: Message,
    reg2: Map<Seq<char>, UserView>,
)
    requires
        executed(reg, me, CommandView::Glide { path, to: me }, r, reg2),
    ensures
        r == Message::UsernameInvalid,
        reg2 == reg,
{
}

/// Two glides to the same online recipient, from two other users, both
/// succeed one after the other, and the recipient's queue then holds both
/// offers behind the ones it held before; no other record changes.
pub proof fn lemma_two_glides_both_queued(
    reg: Map<Seq<char>, UserView>,
    a: Seq<char>,
    pa: Seq<char>,
    b: Seq<char>,
    pb: Seq<char>,
    to: Seq<char>,
    r1: Message,
    reg1: Map<Seq<char>, UserView>,
    r2: Message,
    reg2: Map<Seq<char>, UserView>,
)
    requires
        reg.contains_key(to),
        a != to,
        b != to,
        file_name_of(pa) is Some,
        file_name_of(pb) is Some,
        executed(reg, a, CommandView::Glide { path: pa, to }, r1, reg1),
        executed(reg1, b, CommandView::Glide { path: pb, to }, r2, reg2),
    ensures
        r1 == Message::GlideRequestSent,
        r2 == Message::GlideRequestSent,
        reg2.dom() == reg.dom(),
        reg2[to] == with_queue(
            reg[to],
            reg[to].queue.push((a, file_name_of(pa)->Some_0)).push((b, file_name_of(pb)->Some_0)),
        ),
        forall|u: Seq<char>| #[trigger] reg.contains_key(u) && u != to ==> reg2[u] == reg[u],
{
    assert(glide_accepted(reg, a, pa, to));
    assert(glide_accepted(reg1, b, pb, to));
    assert(reg2.dom() =~= reg.dom());
}

/// The position of the first offer from `from` in `q`.
pub open spec fn first_index(q: Seq<OfferView>, from: Seq<char>) -> int {
    choose|i: int| first_from(q, from, i)
}

/// The registry after `me` runs `c`, as a function.
pub open spec fn run_effect(
    reg: Map<Seq<char>, UserView>,
    me: Seq<char>,
    c: CommandView,
) -> Map<Seq<char>, UserView> {
    match c {
        CommandView::Glide { path, to } => if glide_accepted(reg, me, path, to) {
            reg.insert(to, with_queue(reg[to], reg[to].queue.push((me, file_name_of(path)->Some_0))))
        } else {
            reg
        },
        CommandView::No(from) => delivered_effect(reg, me, from),
        _ => reg,
    }
}

/// The registry after the first offer from `from` has left the queue of
/// `me`, if there is one.
pub open spec fn delivered_effect(
    reg: Map<Seq<char>, UserView>,
    me: Seq<char>,
    from: Seq<char>,
) -> Map<Seq<char>, UserView> {
    if reg.contains_key(me) && has_from(reg[me].queue, from) {
        reg.insert(me, with_queue(reg[me], reg[me].queue.remove(first_index(reg[me].queue, from))))
    } else {
        reg
    }
}

proof fn lemma_first_index(q: Seq<OfferView>, from: Seq<char>, i: int)
    requires
        first_from(q, from, i),
    ensures
        first_index(q, from) == i,
{
    let j = first_index(q, from);
    assert(first_from(q, from, j));
    if j < i {
        assert(q[j].0 != from);
    } else if i < j {
        assert(q[i].0 != from);
    }
}

proof fn lemma_has_first(q: Seq<OfferView>, from: Seq<char>)
    requires
        has_from(q, from),
    ensures
        first_from(q, from, first_index(q, from)),
    decreases q.len(),
{
    let k = choose|k: int| 0 <= k < q.len() && #[trigger] q[k].0 == from;
    if exists|j: int| 0 <= j < k && #[trigger] q[j].0 == from {
        let j = choose|j: int| 0 <= j < k && #[trigger] q[j].0 == from;
        assert(q.subrange(0, k)[j].0 == from);
        lemma_has_first(q.subrange(0, k), from);
        let i = first_index(q.subrange(0, k), from);
        assert(first_from(q, from, i)) by {
            assert forall|t: int| 0 <= t < i implies #[trigger] q[t].0 != from by {
                assert(q.subrange(0, k)[t] == q[t]);
            }
            assert(q.subrange(0, k)[i] == q[i]);
        }
    } else {
        assert(first_from(q, from, k));
    }
}

/// The registry effect of a command is the function `run_effect`.
pub proof fn lemma_executed_is_run_effect(
    reg: Map<Seq<char>, UserView>,
    me: Seq<char>,
    c: CommandView,
    r: Message,
    reg2: Map<Seq<char>, UserView>,
)
    requires
        executed(reg, me, c, r, reg2),
    ensures
        reg2 == run_effect(reg, me, c),
{
    match c {
        CommandView::No(from) => {
            if reg.contains_key(me) && has_from(reg[me].queue, from) {
                let i = choose|i: int|
                    first_from(reg[me].queue, from, i) && reg2 == reg.insert(
                        me,
                        with_queue(reg[me], reg[me].queue.remove(i)),
                    );
                lemma_first_index(reg[me].queue, from, i);
            }
        },
        _ => {},
    }
}

/// What `Registry::take_offer_from` promises is the function
/// `delivered_effect`.
pub proof fn lemma_take_is_delivered_effect(
    reg: Map<Seq<char>, UserView>,
    me: Seq<char>,
    from: Seq<char>,
    taken: Option<OfferView>,
    reg2: Map<Seq<char>, UserView>,
)
    requires
        taken is Some == (reg.contains_key(me) && has_from(reg[me].queue, from)),
        taken is None ==> reg2 == reg,
        taken matches Some(o) ==> exists|i: int|
            first_from(reg[me].queue, from, i) && #[trigger] reg[me].queue[i] == o && reg2
                == reg.insert(me, with_queue(reg[me], reg[me].queue.remove(i))),
    ensures
        reg2 == delivered_effect(reg, me, from),
{
    if taken is Some {
        let o = taken->Some_0;
        let i = choose|i: int|
            first_from(reg[me].queue, from, i) && #[trigger] reg[me].queue[i] == o && reg2
                == reg.insert(me, with_queue(reg[me], reg[me].queue.remove(i)));
        lemma_first_index(reg[me].queue, from, i);
    }
}

/// One thing that happens to the registry.
pub enum RegistryEvent {
    /// Session `session` asks to log in as `handle` from `socket`.
    Login { session: nat, handle: Seq<char>, socket: Seq<char> },
    /// Session `session` ends; its user, if it logged in, leaves.
    Logout { session: nat },
    /// User `user` runs `command`.
    Run { user: Seq<char>, command: CommandView },
    /// User `user` has received the file offered by `from`, whose offer
    /// then leaves the queue.
    Delivered { user: Seq<char>, from: Seq<char> },
}

/// The registry, the handle of each session that is logged in, and per
/// recipient the offers that accepted glides made and those its answers
/// took out of its queue.
pub struct History {
    pub reg: Map<Seq<char>, UserView>,
    pub live: Map<nat, Seq<char>>,
    pub offered: Map<Seq<char>, Multiset<OfferView>>,
    pub answered: Map<Seq<char>, Multiset<OfferView>>,
}

/// The offers recorded for `u`; none if there is no entry.
pub open spec fn offers_of(m: Map<Seq<char>, Multiset<OfferView>>, u: Seq<char>) -> Multiset<
    OfferView,
> {
    if m.contains_key(u) {
        m[u]
    } else {
        Multiset::empty()
    }
}

/// `user` answers the first offer from `from`, if there is one.
pub open spec fn answer(h: History, user: Seq<char>, from: Seq<char>) -> History {
    if h.reg.contains_key(user) && has_from(h.reg[user].queue, from) {
        History {
            reg: delivered_effect(h.reg, user, from),
            live: h.live,
            offered: h.offered,
            answered: h.answered.insert(
                user,
                offers_of(h.answered, user).insert(
                    h.reg[user].queue[first_index(h.reg[user].queue, from)],
                ),
            ),
        }
    } else {
        h
    }
}

/// The history after one more event.
pub open spec fn step(h: History, e: RegistryEvent) -> History {
    match e {
        RegistryEvent::Login { session, handle, socket } => if !h.live.contains_key(session)
            && login_reply(h.reg, handle) == Message::UsernameOk {
            History {
                reg: after_login(h.reg, handle, socket),
                live: h.live.insert(session, handle),
                offered: h.offered,
                answered: h.answered,
            }
        } else {
            h
        },
        RegistryEvent::Logout { session } => if h.live.contains_key(session) {
            History {
                reg: h.reg.remove(h.live[session]),
                live: h.live.remove(session),
                offered: h.offered,
                answered: h.answered,
            }
        } else {
            h
        },
        RegistryEvent::Run { user, command } => match command {
            CommandView::Glide { path, to } => if glide_accepted(h.reg, user, path, to) {
                History {
                    reg: run_effect(h.reg, user, command),
                    live: h.live,
                    offered: h.offered.insert(
                        to,
                        offers_of(h.offered, to).insert((user, file_name_of(path)->Some_0)),
                    ),
                    answered: h.answered,
                }
            } else {
                h
            },
            CommandView::No(from) => answer(h, user, from),
            _ => h,
        },
        RegistryEvent::Delivered { user, from } => answer(h, user, from),
    }
}

/// The history after a sequence of events, from an empty registry.
pub open spec fn replay(events: Seq<RegistryEvent>) -> History
    decreases events.len(),
{
    if events.len() == 0 {
        History {
            reg: Map::empty(),
            live: Map::empty(),
            offered: Map::empty(),
            answered: Map::empty(),
        }
    } else {
        step(replay(events.drop_last()), events.last())
    }
}

pub open spec fn history_ok(h: History) -> bool {
    &&& forall|s1: nat, s2: nat|
        #[trigger] h.live.contains_key(s1) && #[trigger] h.live.contains_key(s2) && s1 != s2
            ==> h.live[s1] != h.live[s2]
    &&& h.reg.dom() == h.live.values()
    &&& forall|u: Seq<char>| #[trigger]
        offers_of(h.answered, u).subset_of(offers_of(h.offered, u))
    &&& forall|u: Seq<char>| #[trigger]
        h.reg.contains_key(u) ==> h.reg[u].queue.to_multiset().add(
            offers_of(h.answered, u),
        ).subset_of(offers_of(h.offered, u))
}

proof fn lemma_answer_ok(h: History, user: Seq<char>, from: Seq<char>)
    requires
        history_ok(h),
    ensures
        history_ok(answer(h, user, from)),
{
    if h.reg.contains_key(user) && has_from(h.reg[user].queue, from) {
        let q = h.reg[user].queue;
        lemma_has_first(q, from);
        let i = first_index(q, from);
        let o = q[i];
        let h2 = answer(h, user, from);
        assert(h2.reg.dom() =~= h.reg.dom());
        let a = offers_of(h.answered, user);
        let f = offers_of(h.offered, user);
        assert(q.to_multiset().add(a).subset_of(f));
        assert(q.to_multiset().count(o) > 0);
        assert(offers_of(h2.answered, user) == a.insert(o));
        assert(h2.reg[user].queue == q.remove(i));
        assert(q.remove(i).to_multiset() =~= q.to_multiset().remove(o));
        assert forall|x: OfferView| #[trigger] a.insert(o).count(x) <= f.count(x) by {
            assert(q.to_multiset().add(a).count(x) <= f.count(x));
        }
        assert forall|x: OfferView| #[trigger] q.remove(i).to_multiset().add(a.insert(o)).count(x)
            <= f.count(x) by {
            assert(q.to_multiset().add(a).count(x) <= f.count(x));
        }
        assert forall|u: Seq<char>| #[trigger]
            offers_of(h2.answered, u).subset_of(offers_of(h2.offered, u)) by {
            if u == user {
                assert(a.insert(o).subset_of(f));
            } else {
                assert(offers_of(h.answered, u).subset_of(offers_of(h.offered, u)));
            }
        }
        assert forall|u: Seq<char>| #[trigger] h2.reg.contains_key(u) implies h2.reg[u].queue.to_multiset().add(
            offers_of(h2.answered, u),
        ).subset_of(offers_of(h2.offered, u)) by {
            if u == user {
                assert(q.remove(i).to_multiset().add(a.insert(o)).subset_of(f));
            } else {
                assert(h.reg.contains_key(u));
            }
        }
    }
}

proof fn lemma_step_ok(h: History, e: RegistryEvent)
    requires
        history_ok(h),
    ensures
        history_ok(step(h, e)),
{
    let h2 = step(h, e);
    match e {
        RegistryEvent::Login { session, handle, socket } => {
            if !h.live.contains_key(session) && login_reply(h.reg, handle) == Message::UsernameOk {
                assert(!h.live.values().contains(handle));
                assert forall|s1: nat, s2: nat|
                    #[trigger] h2.live.contains_key(s1) && #[trigger] h2.live.contains_key(s2) && s1
                        != s2 implies h2.live[s1] != h2.live[s2] by {
                    if s1 == session {
                        assert(h.live.values().contains(h.live[s2]));
                    } else if s2 == session {
                        assert(h.live.values().contains(h.live[s1]));
                    }
                }
                assert forall|x: Seq<char>| h2.live.values().contains(x) <==> h2.reg.dom().contains(x) by {
                    if h2.live.values().contains(x) {
                        let s = choose|s: nat| #[trigger] h2.live.contains_key(s) && h2.live[s] == x;
                        if s != session {
                            assert(h.live.values().contains(x));
                        }
                    }
                    if h2.reg.dom().contains(x) && x != handle {
                        assert(h.live.values().contains(x));
                        let s = choose|s: nat| #[trigger] h.live.contains_key(s) && h.live[s] == x;
                        assert(h2.live.contains_key(s) && h2.live[s] == x);
                    }
                    if x == handle {
                        assert(h2.live.contains_key(session) && h2.live[session] == x);
                    }
                }
                assert(h2.reg.dom() =~= h2.live.values());
                assert forall|u: Seq<char>| #[trigger] h2.reg.contains_key(u) implies h2.reg[u].queue.to_multiset().add(
                    offers_of(h2.answered, u),
                ).subset_of(offers_of(h2.offered, u)) by {
                    if u == handle {
                        assert(h2.reg[u].queue.to_multiset() =~= Multiset::empty());
                        assert(Multiset::<OfferView>::empty().add(offers_of(h.answered, u)) =~= offers_of(h.answered, u));
                        assert(offers_of(h.answered, u).subset_of(offers_of(h.offered, u)));
                    } else {
                        assert(h.reg.contains_key(u));
                    }
                }
            }
        },
        RegistryEvent::Logout { session } => {
            if h.live.contains_key(session) {
                let x0 = h.live[session];
                assert forall|x: Seq<char>| h2.live.values().contains(x) <==> h2.reg.dom().contains(x) by {
                    if h2.live.values().contains(x) {
                        let s = choose|s: nat| #[trigger] h2.live.contains_key(s) && h2.live[s] == x;
                        assert(h.live.values().contains(x));
                        assert(s != session);
                        assert(h.live[s] != h.live[session]);
                    }
                    if h2.reg.dom().contains(x) {
                        assert(h.live.values().contains(x));
                        let s = choose|s: nat| #[trigger] h.live.contains_key(s) && h.live[s] == x;
                        assert(s != session);
                        assert(h2.live.contains_key(s) && h2.live[s] == x);
                    }
                }
                assert(h2.reg.dom() =~= h2.live.values());
                assert forall|u: Seq<char>| #[trigger] h2.reg.contains_key(u) implies h2.reg[u].queue.to_multiset().add(
                    offers_of(h2.answered, u),
                ).subset_of(offers_of(h2.offered, u)) by {
                    assert(h.reg.contains_key(u));
                }
            }
        },
        RegistryEvent::Run { user, command } => {
            match command {
                CommandView::Glide { path, to } => {
                    if glide_accepted(h.reg, user, path, to) {
                        let o = (user, file_name_of(path)->Some_0);
                        let q = h.reg[to].queue;
                        let a = offers_of(h.answered, to);
                        let f = offers_of(h.offered, to);
                        assert(h2.reg.dom() =~= h.reg.dom());
                        assert(offers_of(h2.offered, to) == f.insert(o));
                        assert(q.push(o).to_multiset() =~= q.to_multiset().insert(o));
                        assert(q.to_multiset().add(a).subset_of(f));
                        assert forall|x: OfferView| #[trigger] q.push(o).to_multiset().add(a).count(x)
                            <= f.insert(o).count(x) by {
                            assert(q.to_multiset().add(a).count(x) <= f.count(x));
                        }
                        assert forall|u: Seq<char>| #[trigger]
                            offers_of(h2.answered, u).subset_of(offers_of(h2.offered, u)) by {
                            assert(offers_of(h.answered, u).subset_of(offers_of(h.offered, u)));
                            if u == to {
                                assert forall|x: OfferView| #[trigger] a.count(x) <= f.insert(o).count(x) by {
                                    assert(a.count(x) <= f.count(x));
                                }
                            }
                        }
                        assert forall|u: Seq<char>| #[trigger] h2.reg.contains_key(u) implies h2.reg[u].queue.to_multiset().add(
                            offers_of(h2.answered, u),
                        ).subset_of(offers_of(h2.offered, u)) by {
                            if u != to {
                                assert(h.reg.contains_key(u));
                            } else {
                                assert(h2.reg[u].queue == q.push(o));
                            }
                        }
                    }
                },
                CommandView::No(from) => lemma_answer_ok(h, user, from),
                _ => {},
            }
        },
        RegistryEvent::Delivered { user, from } => lemma_answer_ok(h, user, from),
    }
}

proof fn lemma_replay_ok(events: Seq<RegistryEvent>)
    ensures
        history_ok(replay(events)),
    decreases events.len(),
{
    if events.len() == 0 {
        let h = replay(events);
        assert(h.reg.dom() =~= h.live.values());
        assert forall|u: Seq<char>| #[trigger]
            offers_of(h.answered, u).subset_of(offers_of(h.offered, u)) by {
            assert(offers_of(h.answered, u) =~= Multiset::empty());
        }
    } else {
        lemma_replay_ok(events.drop_last());
        lemma_step_ok(replay(events.drop_last()), events.last());
    }
}

/// Whatever the events and their order, the handles online are exactly the
/// handles of the sessions that logged in and have not ended.
pub proof fn lemma_online_handles_are_live_sessions(events: Seq<RegistryEvent>)
    ensures
        replay(events).reg.dom() == replay(events).live.values(),
{
    lemma_replay_ok(events);
}

/// Whatever the events and their order, each offer in a user's queue was
/// made by an accepted glide to that user and has not yet been answered:
/// the queue and the answered offers together are among the offers made.
pub proof fn lemma_queued_offers_are_pending(events: Seq<RegistryEvent>, u: Seq<char>)
    requires
        replay(events).reg.contains_key(u),
    ensures
        replay(events).reg[u].queue.to_multiset().add(offers_of(replay(events).answered, u)).subset_of(
            offers_of(replay(events).offered, u),
        ),
{
    lemma_replay_ok(events);
}

} // verus!
