//! The subscription registry: a mapping from topic to the set of currently
//! subscribed workers, each paired with its private delivery handle.
//!
//! The registry is mutated only from the single thread that runs the
//! dispatch loop, so it needs no internal locking; what it owes its callers
//! is stated over the per-topic subscriber sequences. The handle type `S` is
//! opaque to the registry: it is stored and handed back, never inspected.

use vstd::prelude::*;

use crate::event::WorkerId;

verus! {

/// One registered topic: its key and the `(worker, handle)` pairs currently
/// subscribed to it, in subscription order.
pub struct TopicEntry<S> {
    /// The topic key.
    pub topic: String,
    /// The subscribed workers, each with the delivery handle given at
    /// subscription time; at most one pair per worker.
    pub subs: Vec<(WorkerId, S)>,
}

/// The registry itself: a list of topic entries with pairwise distinct topics.
pub struct Board<S> {
    entries: Vec<TopicEntry<S>>,
}

/// Index of the first entry for topic `t`, or `-1` when no entry has it.
pub open spec fn topic_at<S>(entries: Seq<TopicEntry<S>>, t: Seq<char>) -> int
    decreases entries.len(),
{
    if entries.len() == 0 {
        -1
    } else if entries[0].topic@ == t {
        0
    } else {
        let r = topic_at(entries.drop_first(), t);
        if r == -1 {
            -1
        } else {
            r + 1
        }
    }
}

/// The subscriber sequence that `entries` registers for topic `t`; empty
/// when no entry has that topic.
pub open spec fn subs_at<S>(entries: Seq<TopicEntry<S>>, t: Seq<char>) -> Seq<(WorkerId, S)> {
    if topic_at(entries, t) == -1 {
        Seq::empty()
    } else {
        entries[topic_at(entries, t)].subs@
    }
}

/// Whether some pair of `subs` belongs to worker `w`.
pub open spec fn has_worker<S>(subs: Seq<(WorkerId, S)>, w: WorkerId) -> bool {
    exists|i: int| 0 <= i < subs.len() && subs[i].0 == w
}

/// Index of the first pair of `subs` that belongs to worker `w`, or `-1`.
pub open spec fn worker_at<S>(subs: Seq<(WorkerId, S)>, w: WorkerId) -> int
    decreases subs.len(),
{
    if subs.len() == 0 {
        -1
    } else if subs[0].0 == w {
        0
    } else {
        let r = worker_at(subs.drop_first(), w);
        if r == -1 {
            -1
        } else {
            r + 1
        }
    }
}

/// No worker owns two pairs of `subs`: the registry's per-topic invariant,
/// which is what makes a repeated subscribe a no-op rather than a duplicate
/// delivery path.
pub open spec fn unique_workers<S>(subs: Seq<(WorkerId, S)>) -> bool {
    forall|i: int, j: int| 0 <= i < j < subs.len() ==> (#[trigger] subs[i]).0 != (#[trigger] subs[j]).0
}

/// What one subscribe call does to a topic's subscriber sequence: nothing if
/// the worker is already registered, else the new pair is appended.
pub open spec fn sub_step<S>(subs: Seq<(WorkerId, S)>, w: WorkerId, s: S) -> Seq<(WorkerId, S)> {
    if has_worker(subs, w) {
        subs
    } else {
        subs.push((w, s))
    }
}

/// What one unsubscribe call does to a topic's subscriber sequence: the
/// worker's pair is removed if present, else nothing.
pub open spec fn unsub_step<S>(subs: Seq<(WorkerId, S)>, w: WorkerId) -> Seq<(WorkerId, S)> {
    if has_worker(subs, w) {
        subs.remove(worker_at(subs, w))
    } else {
        subs
    }
}

proof fn lemma_topic_at_lb<S>(entries: Seq<TopicEntry<S>>, t: Seq<char>)
    ensures
        topic_at(entries, t) == -1 || topic_at(entries, t) >= 0,
    decreases entries.len(),
{
    if entries.len() > 0 && entries[0].topic@ != t {
        lemma_topic_at_lb(entries.drop_first(), t);
    }
}

proof fn lemma_topic_at_props<S>(entries: Seq<TopicEntry<S>>, t: Seq<char>)
    ensures
        topic_at(entries, t) == -1 ==> forall|j: int|
            0 <= j < entries.len() ==> (#[trigger] entries[j]).topic@ != t,
        topic_at(entries, t) != -1 ==> {
            &&& 0 <= topic_at(entries, t) < entries.len()
            &&& entries[topic_at(entries, t)].topic@ == t
            &&& forall|j: int| 0 <= j < topic_at(entries, t) ==> (#[trigger] entries[j]).topic@ != t
        },
    decreases entries.len(),
{
    if entries.len() > 0 && entries[0].topic@ != t {
        let tail = entries.drop_first();
        lemma_topic_at_props(tail, t);
        if topic_at(entries, t) == -1 {
            assert forall|j: int| 0 <= j < entries.len() implies (#[trigger] entries[j]).topic@
                != t by {
                if j > 0 {
                    assert(tail[j - 1] == entries[j]);
                }
            }
        } else {
            let ta = topic_at(entries, t);
            assert(tail[ta - 1] == entries[ta]);
            assert forall|j: int| 0 <= j < ta implies (#[trigger] entries[j]).topic@ != t by {
                if j > 0 {
                    assert(tail[j - 1] == entries[j]);
                }
            }
        }
    }
}

proof fn lemma_topic_at_first<S>(entries: Seq<TopicEntry<S>>, t: Seq<char>, i: int)
    requires
        0 <= i < entries.len(),
        entries[i].topic@ == t,
        forall|j: int| 0 <= j < i ==> (#[trigger] entries[j]).topic@ != t,
    ensures
        topic_at(entries, t) == i,
    decreases i,
{
    if i > 0 {
        assert(forall|j: int|
            0 <= j < entries.drop_first().len() ==> entries.drop_first()[j] == entries[j + 1]);
        lemma_topic_at_first(entries.drop_first(), t, i - 1);
    }
}

proof fn lemma_worker_at_props<S>(subs: Seq<(WorkerId, S)>, w: WorkerId)
    ensures
        worker_at(subs, w) == -1 <==> !has_worker(subs, w),
        has_worker(subs, w) ==> {
            &&& 0 <= worker_at(subs, w) < subs.len()
            &&& subs[worker_at(subs, w)].0 == w
            &&& forall|j: int| 0 <= j < worker_at(subs, w) ==> (#[trigger] subs[j]).0 != w
        },
    decreases subs.len(),
{
    if subs.len() == 0 {
    } else if subs[0].0 == w {
        assert(has_worker(subs, w));
    } else {
        let tail = subs.drop_first();
        lemma_worker_at_props(tail, w);
        if has_worker(subs, w) {
            let i = choose|i: int| 0 <= i < subs.len() && subs[i].0 == w;
            assert(tail[i - 1] == subs[i]);
            assert(has_worker(tail, w));
        }
        if has_worker(tail, w) {
            let i = choose|i: int| 0 <= i < tail.len() && tail[i].0 == w;
            assert(subs[i + 1].0 == w);
            assert(has_worker(subs, w));
        }
        if has_worker(subs, w) {
            let wa = worker_at(subs, w);
            assert(tail[wa - 1] == subs[wa]);
            assert forall|j: int| 0 <= j < wa implies (#[trigger] subs[j]).0 != w by {
                if j > 0 {
                    assert(tail[j - 1] == subs[j]);
                }
            }
        }
    }
}

proof fn lemma_worker_at_first<S>(subs: Seq<(WorkerId, S)>, w: WorkerId, i: int)
    requires
        0 <= i < subs.len(),
        subs[i].0 == w,
        forall|j: int| 0 <= j < i ==> (#[trigger] subs[j]).0 != w,
    ensures
        worker_at(subs, w) == i,
        has_worker(subs, w),
    decreases i,
{
    if i > 0 {
        assert(forall|j: int|
            0 <= j < subs.drop_first().len() ==> subs.drop_first()[j] == subs[j + 1]);
        lemma_worker_at_first(subs.drop_first(), w, i - 1);
    }
}

/// `topic_at` reads only the topic keys, so two entry sequences with equal
/// keys agree on it everywhere.
proof fn lemma_topic_at_same_topics<S>(a: Seq<TopicEntry<S>>, b: Seq<TopicEntry<S>>)
    requires
        a.len() == b.len(),
        forall|j: int| 0 <= j < a.len() ==> (#[trigger] a[j]).topic@ == (#[trigger] b[j]).topic@,
    ensures
        forall|u: Seq<char>| topic_at(a, u) == topic_at(b, u),
    decreases a.len(),
{
    if a.len() > 0 {
        assert(forall|j: int| 0 <= j < a.drop_first().len() ==> a.drop_first()[j] == a[j + 1]);
        assert(forall|j: int| 0 <= j < b.drop_first().len() ==> b.drop_first()[j] == b[j + 1]);
        lemma_topic_at_same_topics(a.drop_first(), b.drop_first());
        assert forall|u: Seq<char>| topic_at(a, u) == topic_at(b, u) by {
            assert(topic_at(a.drop_first(), u) == topic_at(b.drop_first(), u));
        }
    }
}

/// Appending an entry leaves every present topic where it was and registers
/// the new entry's topic at the end if it was absent.
proof fn lemma_topic_at_push<S>(entries: Seq<TopicEntry<S>>, e: TopicEntry<S>)
    ensures
        forall|u: Seq<char>| #![trigger topic_at(entries.push(e), u)]
            topic_at(entries.push(e), u) == if topic_at(entries, u) != -1 {
                topic_at(entries, u)
            } else if e.topic@ == u {
                entries.len() as int
            } else {
                -1
            },
    decreases entries.len(),
{
    if entries.len() == 0 {
        assert forall|u: Seq<char>| #[trigger] topic_at(entries.push(e), u) == if topic_at(
            entries,
            u,
        ) != -1 {
            topic_at(entries, u)
        } else if e.topic@ == u {
            entries.len() as int
        } else {
            -1
        } by {
            assert(entries.push(e)[0] == e);
            assert(entries.push(e).drop_first() =~= Seq::<TopicEntry<S>>::empty());
            assert(topic_at(entries, u) == -1);
            assert(topic_at(Seq::<TopicEntry<S>>::empty(), u) == -1);
        }
    } else {
        let tail = entries.drop_first();
        lemma_topic_at_push(tail, e);
        assert forall|u: Seq<char>| #[trigger] topic_at(entries.push(e), u) == if topic_at(
            entries,
            u,
        ) != -1 {
            topic_at(entries, u)
        } else if e.topic@ == u {
            entries.len() as int
        } else {
            -1
        } by {
            lemma_topic_at_lb(tail, u);
            assert(entries.push(e)[0] == entries[0]);
            assert(entries.push(e).drop_first() =~= tail.push(e));
            assert(entries.push(e).drop_first() == tail.push(e));
            assert(topic_at(tail.push(e), u) == if topic_at(tail, u) != -1 {
                topic_at(tail, u)
            } else if e.topic@ == u {
                tail.len() as int
            } else {
                -1
            });
            if entries[0].topic@ == u {
                assert(topic_at(entries, u) == 0);
                assert(topic_at(entries.push(e), u) == 0);
            } else {
                assert(topic_at(entries.push(e), u) == if topic_at(tail.push(e), u) == -1 {
                    -1
                } else {
                    topic_at(tail.push(e), u) + 1
                });
                assert(topic_at(entries, u) == if topic_at(tail, u) == -1 {
                    -1
                } else {
                    topic_at(tail, u) + 1
                });
            }
        }
    }
}

/// Index of the first pair of `subs` that belongs to worker `w`, if any.
fn find_worker<S>(subs: &Vec<(WorkerId, S)>, w: WorkerId) -> (r: Option<usize>)
    ensures
        match r {
            Some(k) => k < subs@.len() && worker_at(subs@, w) == k as int && has_worker(subs@, w),
            None => !has_worker(subs@, w),
        },
{
    let n = subs.len();
    let mut k: usize = 0;
    while k < n
        invariant
            n == subs@.len(),
            k <= n,
            forall|j: int| 0 <= j < k ==> (#[trigger] subs@[j]).0 != w,
        decreases n - k,
    {
        if subs[k].0 == w {
            proof {
                lemma_worker_at_first(subs@, w, k as int);
            }
            return Some(k);
        }
        k = k + 1;
    }
    None
}

impl<S> Board<S> {
    /// The subscriber sequence currently registered for topic `t`; empty for
    /// an unknown topic.
    pub closed spec fn subs_of(self, t: Seq<char>) -> Seq<(WorkerId, S)> {
        subs_at(self.entries@, t)
    }

    /// The registry's invariant: topics are pairwise distinct and no topic
    /// registers the same worker twice.
    pub closed spec fn wf(self) -> bool {
        &&& forall|i: int, j: int|
            0 <= i < j < self.entries@.len() ==> (#[trigger] self.entries@[i]).topic@ != (
            #[trigger] self.entries@[j]).topic@
        &&& forall|k: int|
            0 <= k < self.entries@.len() ==> unique_workers((#[trigger] self.entries@[k]).subs@)
    }

    /// Every topic of a well-formed registry registers each worker at most
    /// once.
    pub proof fn lemma_wf_unique(self, t: Seq<char>)
        requires
            self.wf(),
        ensures
            unique_workers(self.subs_of(t)),
    {
        if topic_at(self.entries@, t) != -1 {
            lemma_topic_at_props(self.entries@, t);
        }
    }

    /// An empty registry: no topic has subscribers.
    pub fn new() -> (b: Board<S>)
        ensures
            b.wf(),
            forall|u: Seq<char>| (#[trigger] b.subs_of(u)).len() == 0,
    {
        let b = Board { entries: Vec::new() };
        proof {
            assert forall|u: Seq<char>| (#[trigger] b.subs_of(u)).len() == 0 by {
                assert(topic_at(b.entries@, u) == -1);
            }
        }
        b
    }

    /// Index of this registry's entry for `t`, if one exists.
    fn find_topic(&self, t: &String) -> (r: Option<usize>)
        ensures
            match r {
                Some(i) => i < self.entries@.len() && topic_at(self.entries@, t@) == i as int,
                None => topic_at(self.entries@, t@) == -1,
            },
    {
        let n = self.entries.len();
        let mut i: usize = 0;
        while i < n
            invariant
                n == self.entries@.len(),
                i <= n,
                forall|j: int| 0 <= j < i ==> (#[trigger] self.entries@[j]).topic@ != t@,
            decreases n - i,
        {
            if self.entries[i].topic == *t {
                proof {
                    lemma_topic_at_first(self.entries@, t@, i as int);
                }
                return Some(i);
            }
            i = i + 1;
        }
        proof {
            lemma_topic_at_props(self.entries@, t@);
            if topic_at(self.entries@, t@) != -1 {
                assert(self.entries@[topic_at(self.entries@, t@)].topic@ == t@);
            }
        }
        None
    }

    /// Registers worker `worker` with delivery handle `sender` for `topic`.
    /// Idempotent: if the worker already listens to the topic, nothing
    /// changes, so a repeated subscribe never creates a duplicate delivery
    /// path. Other topics are untouched.
    pub fn subscribe(&mut self, topic: String, worker: WorkerId, sender: S)
        requires
            old(self).wf(),
        ensures
            final(self).wf(),
            final(self).subs_of(topic@) == sub_step(old(self).subs_of(topic@), worker, sender),
            forall|u: Seq<char>| u != topic@ ==> final(self).subs_of(u) == old(self).subs_of(u),
    {
        let ghost entries0 = self.entries@;
        match self.find_topic(&topic) {
            Some(i) => {
                proof {
                    lemma_topic_at_props(entries0, topic@);
                }
                let mut e = self.entries.remove(i);
                let ghost subs0 = e.subs@;
                let already = find_worker(&e.subs, worker);
                if already.is_none() {
                    e.subs.push((worker, sender));
                }
                let ghost e2 = e;
                self.entries.insert(i, e);
                proof {
                    assert(self.entries@ =~= entries0.update(i as int, e2));
                    lemma_lookup_after_update(entries0, self.entries@, i as int, topic@);
                    if already is Some {
                        assert(sub_step(subs0, worker, sender) == subs0);
                    } else {
                        assert(sub_step(subs0, worker, sender) == subs0.push((worker, sender)));
                    }
                    assert forall|x: int, y: int|
                        0 <= x < y < e2.subs@.len() implies (#[trigger] e2.subs@[x]).0 != (
                    #[trigger] e2.subs@[y]).0 by {
                        assert(unique_workers(subs0));
                        if y < subs0.len() as int {
                            assert(e2.subs@[x] == subs0[x] && e2.subs@[y] == subs0[y]);
                        } else {
                            assert(e2.subs@[x] == subs0[x] && e2.subs@[y] == (worker, sender));
                            assert(subs0[x].0 != worker);
                        }
                    }
                    assert(unique_workers(e2.subs@));
                    assert forall|k: int| 0 <= k < self.entries@.len() implies unique_workers(
                        (#[trigger] self.entries@[k]).subs@,
                    ) by {
                        if k != i as int {
                            assert(self.entries@[k] == entries0[k]);
                        }
                    }
                }
            },
            None => {
                let mut subs: Vec<(WorkerId, S)> = Vec::new();
                subs.push((worker, sender));
                let e = TopicEntry { topic, subs };
                let ghost e2 = e;
                proof {
                    lemma_topic_at_props(entries0, topic@);
                    lemma_topic_at_push(entries0, e2);
                }
                self.entries.push(e);
                proof {
                    assert(old(self).subs_of(topic@) == Seq::<(WorkerId, S)>::empty());
                    assert(!has_worker(old(self).subs_of(topic@), worker));
                    assert(self.subs_of(topic@) =~= sub_step(
                        old(self).subs_of(topic@),
                        worker,
                        sender,
                    ));
                    assert forall|u: Seq<char>| u != topic@ implies self.subs_of(u) == old(
                        self,
                    ).subs_of(u) by {
                        lemma_topic_at_props(entries0, u);
                        if topic_at(entries0, u) != -1 {
                            assert(self.entries@[topic_at(entries0, u)] == entries0[topic_at(
                                entries0,
                                u,
                            )]);
                        }
                    }
                    assert forall|x: int, y: int|
                        0 <= x < y < self.entries@.len() implies (
                    #[trigger] self.entries@[x]).topic@ != (#[trigger] self.entries@[y]).topic@ by {
                        if y < entries0.len() as int {
                            assert(self.entries@[x] == entries0[x]
                                && self.entries@[y] == entries0[y]);
                        } else {
                            assert(self.entries@[x] == entries0[x] && self.entries@[y] == e2);
                        }
                    }
                    assert forall|k: int| 0 <= k < self.entries@.len() implies unique_workers(
                        (#[trigger] self.entries@[k]).subs@,
                    ) by {
                        if k < entries0.len() as int {
                            assert(self.entries@[k] == entries0[k]);
                        } else {
                            assert(self.entries@[k] == e2);
                        }
                    }
                }
            },
        }
    }

    /// Removes worker `worker` from `topic` if it is registered there; a
    /// no-op on a never-subscribed pair. Other workers of the same topic and
    /// all other topics are untouched.
    pub fn unsubscribe(&mut self, topic: String, worker: WorkerId)
        requires
            old(self).wf(),
        ensures
            final(self).wf(),
            final(self).subs_of(topic@) == unsub_step(old(self).subs_of(topic@), worker),
            forall|u: Seq<char>| u != topic@ ==> final(self).subs_of(u) == old(self).subs_of(u),
    {
        let ghost entries0 = self.entries@;
        match self.find_topic(&topic) {
            Some(i) => {
                proof {
                    lemma_topic_at_props(entries0, topic@);
                }
                let mut e = self.entries.remove(i);
                let ghost subs0 = e.subs@;
                match find_worker(&e.subs, worker) {
                    Some(k) => {
                        let _ = e.subs.remove(k);
                        let ghost e2 = e;
                        self.entries.insert(i, e);
                        proof {
                            assert(self.entries@ =~= entries0.update(i as int, e2));
                            lemma_lookup_after_update(entries0, self.entries@, i as int, topic@);
                            assert(unsub_step(subs0, worker) == subs0.remove(k as int));
                            assert forall|x: int, y: int|
                                0 <= x < y < e2.subs@.len() implies (#[trigger] e2.subs@[x]).0 != (
                            #[trigger] e2.subs@[y]).0 by {
                                assert(unique_workers(subs0));
                                let x0: int = if x < k as int {
                                    x
                                } else {
                                    x + 1
                                };
                                let y0: int = if y < k as int {
                                    y
                                } else {
                                    y + 1
                                };
                                assert(e2.subs@[x] == subs0[x0]);
                                assert(e2.subs@[y] == subs0[y0]);
                            }
                            assert(unique_workers(e2.subs@));
                            assert forall|kk: int| 0 <= kk < self.entries@.len() implies
                                unique_workers((#[trigger] self.entries@[kk]).subs@) by {
                                if kk != i as int {
                                    assert(self.entries@[kk] == entries0[kk]);
                                }
                            }
                        }
                    },
                    None => {
                        let ghost e2 = e;
                        self.entries.insert(i, e);
                        proof {
                            assert(self.entries@ =~= entries0.update(i as int, e2));
                            lemma_lookup_after_update(entries0, self.entries@, i as int, topic@);
                            assert(unsub_step(subs0, worker) == subs0);
                            assert forall|kk: int| 0 <= kk < self.entries@.len() implies
                                unique_workers((#[trigger] self.entries@[kk]).subs@) by {
                                if kk != i as int {
                                    assert(self.entries@[kk] == entries0[kk]);
                                } else {
                                    assert(self.entries@[kk].subs@ == subs0);
                                }
                            }
                        }
                    },
                }
            },
            None => {
                proof {
                    assert(old(self).subs_of(topic@) == Seq::<(WorkerId, S)>::empty());
                    assert(!has_worker(old(self).subs_of(topic@), worker));
                }
            },
        }
    }

    /// All `(worker, handle)` pairs currently registered for `topic`, or
    /// `None` when the topic was never subscribed to. An unknown topic is a
    /// normal condition, never an error.
    pub fn query(&self, topic: &String) -> (r: Option<&Vec<(WorkerId, S)>>)
        ensures
            match r {
                Some(v) => v@ == self.subs_of(topic@),
                None => self.subs_of(topic@).len() == 0,
            },
    {
        match self.find_topic(topic) {
            Some(i) => Some(&self.entries[i].subs),
            None => None,
        }
    }

}

/// Subscribing makes the pair visible to a query and is idempotent. After
/// `sub_step` the worker is registered; a fresh pair is appended exactly, so
/// the query result contains it; and repeating the same subscribe leaves the
/// subscriber sequence unchanged, so its size does not grow.
pub proof fn lemma_subscribe_then_query<S>(subs: Seq<(WorkerId, S)>, w: WorkerId, s: S)
    ensures
        has_worker(sub_step(subs, w, s), w),
        !has_worker(subs, w) ==> sub_step(subs, w, s) == subs.push((w, s)) && sub_step(
            subs,
            w,
            s,
        ).contains((w, s)),
        sub_step(sub_step(subs, w, s), w, s) == sub_step(subs, w, s),
        sub_step(sub_step(subs, w, s), w, s).len() == sub_step(subs, w, s).len(),
{
    if !has_worker(subs, w) {
        let s2 = subs.push((w, s));
        assert(s2[subs.len() as int] == (w, s));
        assert(has_worker(s2, w));
        assert(s2.contains((w, s)));
    }
}

/// Unsubscribing removes exactly the addressed worker. Afterwards the worker
/// is no longer registered, every other worker's pair survives, and
/// unsubscribing a never-subscribed pair is a no-op.
pub proof fn lemma_unsubscribe_removes<S>(subs: Seq<(WorkerId, S)>, w: WorkerId)
    requires
        unique_workers(subs),
    ensures
        !has_worker(unsub_step(subs, w), w),
        !has_worker(subs, w) ==> unsub_step(subs, w) == subs,
        forall|i: int|
            0 <= i < subs.len() && (#[trigger] subs[i]).0 != w ==> unsub_step(subs, w).contains(
                subs[i],
            ),
        unique_workers(unsub_step(subs, w)),
{
    if has_worker(subs, w) {
        lemma_worker_at_props(subs, w);
        let wa = worker_at(subs, w);
        let res = subs.remove(wa);
        assert forall|i: int| 0 <= i < res.len() implies (#[trigger] res[i]).0 != w by {
            if i < wa {
                assert(res[i] == subs[i]);
            } else {
                assert(res[i] == subs[i + 1]);
            }
        }
        assert(!has_worker(res, w));
        assert forall|i: int|
            0 <= i < subs.len() && (#[trigger] subs[i]).0 != w implies res.contains(subs[i]) by {
            if i < wa {
                assert(res[i] == subs[i]);
            } else {
                assert(subs[i].0 != w && subs[wa].0 == w);
                assert(i != wa);
                assert(res[i - 1] == subs[i]);
            }
        }
        assert forall|x: int, y: int| 0 <= x < y < res.len() implies (#[trigger] res[x]).0 != (
        #[trigger] res[y]).0 by {
            let x0: int = if x < wa {
                x
            } else {
                x + 1
            };
            let y0: int = if y < wa {
                y
            } else {
                y + 1
            };
            assert(res[x] == subs[x0]);
            assert(res[y] == subs[y0]);
        }
    }
}

/// After replacing the entry at `i` (whose topic is `t`) with one that keeps
/// the key, every lookup lands where it did before, so only topic `t`'s
/// subscribers can have changed and the topics stay pairwise distinct.
proof fn lemma_lookup_after_update<S>(
    a: Seq<TopicEntry<S>>,
    b: Seq<TopicEntry<S>>,
    i: int,
    t: Seq<char>,
)
    requires
        0 <= i < a.len(),
        b.len() == a.len(),
        a[i].topic@ == t,
        b[i].topic@ == t,
        topic_at(a, t) == i,
        forall|j: int| 0 <= j < a.len() && j != i ==> b[j] == #[trigger] a[j],
        forall|x: int, y: int|
            0 <= x < y < a.len() ==> (#[trigger] a[x]).topic@ != (#[trigger] a[y]).topic@,
    ensures
        subs_at(b, t) == b[i].subs@,
        forall|u: Seq<char>| u != t ==> subs_at(b, u) == subs_at(a, u),
        forall|x: int, y: int|
            0 <= x < y < b.len() ==> (#[trigger] b[x]).topic@ != (#[trigger] b[y]).topic@,
{
    assert forall|j: int| 0 <= j < a.len() implies (#[trigger] a[j]).topic@ == (
    #[trigger] b[j]).topic@ by {
        if j != i {
            assert(b[j] == a[j]);
        }
    }
    lemma_topic_at_same_topics(a, b);
    assert(topic_at(b, t) == i);
    assert forall|u: Seq<char>| u != t implies subs_at(b, u) == subs_at(a, u) by {
        lemma_topic_at_props(a, u);
        if topic_at(a, u) != -1 {
            assert(a[topic_at(a, u)].topic@ == u);
            assert(topic_at(a, u) != i);
            assert(b[topic_at(a, u)] == a[topic_at(a, u)]);
        }
    }
    assert forall|x: int, y: int| 0 <= x < y < b.len() implies (#[trigger] b[x]).topic@ != (
    #[trigger] b[y]).topic@ by {
        assert(a[x].topic@ != a[y].topic@);
        assert(b[x].topic@ == a[x].topic@);
        assert(b[y].topic@ == a[y].topic@);
    }
}

} // verus!
