//! The pool orchestrator's sequential core: the configuration value (worker
//! count and thread-name prefix), the derivation of each worker's diagnostic
//! name, and the dispatch step that interprets one driver command against the
//! subscription registry and the shared sequence counter.
//!
//! The embedding application owns the threads and channels: it spawns one
//! thread per name that `worker_names` computes, runs the driver's blocking
//! loop, feeds each command to `handle_command`, and pushes the returned
//! deliveries onto the matching workers' channels.

use vstd::prelude::*;
use vstd::string::StringExecFns;

use crate::board::{Board, has_worker, sub_step, unsub_step};
use crate::event::{CoreCommand, Event, WorkerId};

verus! {

/// The digit character for a value below ten.
pub open spec fn digit_char(d: nat) -> char {
    if d == 0 {
        '0'
    } else if d == 1 {
        '1'
    } else if d == 2 {
        '2'
    } else if d == 3 {
        '3'
    } else if d == 4 {
        '4'
    } else if d == 5 {
        '5'
    } else if d == 6 {
        '6'
    } else if d == 7 {
        '7'
    } else if d == 8 {
        '8'
    } else {
        '9'
    }
}

/// The decimal digits of `n`, most significant first, without leading zeros
/// (a single zero for `n == 0`).
pub open spec fn dec_digits(n: nat) -> Seq<char>
    decreases n,
{
    if n < 10 {
        seq![digit_char(n)]
    } else {
        dec_digits(n / 10).push(digit_char(n % 10))
    }
}

/// The one-character string for a single decimal digit.
fn digit_str(d: usize) -> (r: &'static str)
    requires
        d < 10,
    ensures
        r@ == seq![digit_char(d as nat)],
{
    proof {
        reveal_strlit("0");
        reveal_strlit("1");
        reveal_strlit("2");
        reveal_strlit("3");
        reveal_strlit("4");
        reveal_strlit("5");
        reveal_strlit("6");
        reveal_strlit("7");
        reveal_strlit("8");
        reveal_strlit("9");
    }
    let r = match d {
        0 => "0",
        1 => "1",
        2 => "2",
        3 => "3",
        4 => "4",
        5 => "5",
        6 => "6",
        7 => "7",
        8 => "8",
        _ => "9",
    };
    proof {
        assert(r@ =~= seq![digit_char(d as nat)]);
    }
    r
}

/// Renders `n` in decimal.
pub fn dec_string(n: usize) -> (s: String)
    ensures
        s@ == dec_digits(n as nat),
    decreases n,
{
    if n < 10 {
        digit_str(n).to_owned()
    } else {
        let mut s = dec_string(n / 10);
        s.append(digit_str(n % 10));
        proof {
            assert(s@ =~= dec_digits(n as nat));
        }
        s
    }
}

/// The diagnostic name of the worker at `index`: the pool's prefix followed
/// by the decimal index.
pub fn thread_name(prefix: &str, index: usize) -> (name: String)
    ensures
        name@ == prefix@ + dec_digits(index as nat),
{
    let mut name = prefix.to_owned();
    let digits = dec_string(index);
    name.append(digits.as_str());
    name
}

/// The default thread-name prefix.
pub open spec fn default_prefix() -> Seq<char> {
    "flock-"@
}

/// Relies on `num_cpus::get`: the number of logical processors of the
/// machine, documented to always be at least 1.
#[verifier::external_body]
fn available_workers() -> (n: usize)
    ensures
        n >= 1,
{
    num_cpus::get()
}

/// Pool configuration: how many worker threads to spawn, and the prefix from
/// which each thread's diagnostic name `{prefix}{index}` is derived.
pub struct Flock {
    /// Number of threads in the pool; zero is rejected before any thread is
    /// spawned.
    pub worker_count: usize,
    /// Prefix of each worker thread's diagnostic name.
    pub prefix: String,
}

impl Flock {
    /// The default configuration: one worker per available processing unit
    /// (never zero), and the fixed default prefix.
    pub fn new() -> (f: Flock)
        ensures
            f.worker_count >= 1,
            f.prefix@ == default_prefix(),
    {
        Flock { worker_count: available_workers(), prefix: "flock-".to_owned() }
    }

    /// Builder step: replaces the worker count, keeping the prefix.
    pub fn num_workers(self, worker_count: usize) -> (f: Flock)
        ensures
            f.worker_count == worker_count,
            f.prefix == self.prefix,
    {
        Flock { worker_count, prefix: self.prefix }
    }

    /// Builder step: replaces the thread-name prefix, keeping the count.
    pub fn name_prefix(self, prefix: String) -> (f: Flock)
        ensures
            f.prefix == prefix,
            f.worker_count == self.worker_count,
    {
        Flock { worker_count: self.worker_count, prefix }
    }

    /// Whether this configuration may run: a pool of zero workers is invalid,
    /// and the run must fail fast before any thread is spawned.
    pub fn validate(&self) -> (ok: bool)
        ensures
            ok == (self.worker_count > 0),
    {
        self.worker_count > 0
    }

    /// The diagnostic names of the pool's threads, in spawn order:
    /// `{prefix}{index}` for every index below the worker count.
    pub fn worker_names(&self) -> (names: Vec<String>)
        ensures
            names@.len() == self.worker_count,
            forall|i: int|
                0 <= i < self.worker_count ==> (#[trigger] names@[i])@ == self.prefix@
                    + dec_digits(i as nat),
    {
        let mut names: Vec<String> = Vec::new();
        let mut i: usize = 0;
        while i < self.worker_count
            invariant
                i <= self.worker_count,
                names@.len() == i,
                forall|j: int|
                    0 <= j < i ==> (#[trigger] names@[j])@ == self.prefix@ + dec_digits(j as nat),
            decreases self.worker_count - i,
        {
            names.push(thread_name(self.prefix.as_str(), i));
            i = i + 1;
        }
        names
    }
}

/// One computed delivery: the event is to be pushed onto this worker's
/// private channel.
pub struct Delivery {
    /// The subscriber the event is addressed to.
    pub worker: WorkerId,
    /// The event instance for that subscriber, with its own payload clone.
    pub event: Event,
}

/// Interprets one driver command against the registry, the immutable listener
/// table (index = worker id) and the shared sequence counter, exactly as the
/// dispatch loop does between two driver decisions.
///
/// A publish to a topic with subscribers builds one event per subscriber, all
/// bearing the same fresh sequence number, and advances the counter by one; a
/// publish to a topic without subscribers is silently dropped and leaves the
/// counter alone. Listen and Ignore mutate only the addressed topic's
/// subscriber set and never deliver anything.
/// One publish delivers exactly one event per subscriber of its topic. Under
/// the registry's invariant the delivery list `handle_command` returns for a
/// delivering publish names no worker twice, and every subscribed worker is
/// named once.
pub proof fn lemma_one_delivery_per_subscriber<S>(
    subs: Seq<(WorkerId, S)>,
    deliveries: Seq<Delivery>,
)
    requires
        crate::board::unique_workers(subs),
        deliveries.len() == subs.len(),
        forall|i: int| 0 <= i < subs.len() ==> (#[trigger] deliveries[i]).worker == subs[i].0,
    ensures
        forall|x: int, y: int|
            0 <= x < y < deliveries.len() ==> (#[trigger] deliveries[x]).worker != (
            #[trigger] deliveries[y]).worker,
        forall|w: WorkerId|
            has_worker(subs, w) ==> exists|i: int|
                0 <= i < deliveries.len() && (#[trigger] deliveries[i]).worker == w,
{
    assert forall|x: int, y: int|
        0 <= x < y < deliveries.len() implies (#[trigger] deliveries[x]).worker != (
    #[trigger] deliveries[y]).worker by {
        assert(subs[x].0 != subs[y].0);
    }
    assert forall|w: WorkerId| has_worker(subs, w) implies exists|i: int|
        0 <= i < deliveries.len() && (#[trigger] deliveries[i]).worker == w by {
        let i = choose|i: int| 0 <= i < subs.len() && subs[i].0 == w;
        assert(deliveries[i].worker == w);
    }
}

/// Sequence numbers grow strictly across publishes, in call order. A
/// delivering publish stamps the counter's current value on its events and
/// leaves the counter one higher, and `handle_command` never decreases the
/// counter; so whatever commands run in between, a later delivering publish
/// stamps a strictly larger number, even when the two publishes address
/// different topics.
pub proof fn lemma_sequence_numbers_increase(first: u64, after_first: u64, second: u64)
    requires
        after_first == first + 1,
        after_first <= second,
    ensures
        first < second,
{
}

pub fn handle_command<S: Clone>(
    board: &mut Board<S>,
    listeners: &Vec<S>,
    counter: &mut u64,
    command: CoreCommand,
) -> (deliveries: Vec<Delivery>)
    requires
        old(board).wf(),
        command matches CoreCommand::Listen(w, _) ==> w.0 < listeners@.len(),
        (command matches CoreCommand::Publish(t, _, _) && old(board).subs_of(t@).len() > 0)
            ==> *old(counter) < u64::MAX,
    ensures
        final(board).wf(),
        *old(counter) <= *final(counter),
        match command {
            CoreCommand::Publish(t, p, l) => {
                let subs = old(board).subs_of(t@);
                &&& *final(board) == *old(board)
                &&& (subs.len() == 0 ==> deliveries@.len() == 0 && *final(counter) == *old(
                    counter,
                ))
                &&& (subs.len() > 0 ==> {
                    &&& *final(counter) == *old(counter) + 1
                    &&& deliveries@.len() == subs.len()
                    &&& forall|i: int|
                        0 <= i < subs.len() ==> {
                            &&& (#[trigger] deliveries@[i]).worker == subs[i].0
                            &&& deliveries@[i].event.topic@ == t@
                            &&& deliveries@[i].event.payload@ == p@
                            &&& deliveries@[i].event.is_last == l
                            &&& deliveries@[i].event.sequence == *old(counter)
                        }
                })
            },
            CoreCommand::Listen(w, t) => {
                &&& deliveries@.len() == 0
                &&& *final(counter) == *old(counter)
                &&& has_worker(final(board).subs_of(t@), w)
                &&& exists|s: S|
                    cloned(listeners@[w.0 as int], s) && final(board).subs_of(t@) == sub_step(
                        old(board).subs_of(t@),
                        w,
                        s,
                    )
                &&& forall|u: Seq<char>|
                    u != t@ ==> final(board).subs_of(u) == old(board).subs_of(u)
            },
            CoreCommand::Ignore(w, t) => {
                &&& deliveries@.len() == 0
                &&& *final(counter) == *old(counter)
                &&& final(board).subs_of(t@) == unsub_step(old(board).subs_of(t@), w)
                &&& forall|u: Seq<char>|
                    u != t@ ==> final(board).subs_of(u) == old(board).subs_of(u)
            },
        },
{
    let mut deliveries: Vec<Delivery> = Vec::new();
    match command {
        CoreCommand::Publish(topic, payload, is_last) => {
            match board.query(&topic) {
                None => {},
                Some(subs) => {
                    if subs.len() > 0 {
                        let seq_no = *counter;
                        *counter = *counter + 1;
                        let n = subs.len();
                        let mut k: usize = 0;
                        while k < n
                            invariant
                                n == subs@.len(),
                                k <= n,
                                deliveries@.len() == k,
                                forall|i: int|
                                    0 <= i < k ==> {
                                        &&& (#[trigger] deliveries@[i]).worker == subs@[i].0
                                        &&& deliveries@[i].event.topic@ == topic@
                                        &&& deliveries@[i].event.payload@ == payload@
                                        &&& deliveries@[i].event.is_last == is_last
                                        &&& deliveries@[i].event.sequence == seq_no
                                    },
                            decreases n - k,
                        {
                            let payload_clone = payload.clone();
                            proof {
                                assert(payload_clone@ =~= payload@);
                            }
                            let ev = Event::new(topic.clone(), payload_clone, is_last, seq_no);
                            deliveries.push(Delivery { worker: subs[k].0, event: ev });
                            k = k + 1;
                        }
                    }
                },
            }
        },
        CoreCommand::Listen(worker, topic) => {
            let ghost t = topic@;
            let ghost subs0 = board.subs_of(t);
            let sender = listeners[worker.0].clone();
            let ghost sc = sender;
            board.subscribe(topic, worker, sender);
            proof {
                assert(board.subs_of(t) == sub_step(subs0, worker, sc));
                if !has_worker(subs0, worker) {
                    assert(board.subs_of(t)[subs0.len() as int].0 == worker);
                    assert(has_worker(board.subs_of(t), worker));
                }
                assert(cloned(listeners@[worker.0 as int], sc) && board.subs_of(t) == sub_step(
                    subs0,
                    worker,
                    sc,
                ));
            }
        },
        CoreCommand::Ignore(worker, topic) => {
            board.unsubscribe(topic, worker);
        },
    }
    deliveries
}

} // verus!
