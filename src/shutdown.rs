use crate::error::Error;
use vstd::prelude::*;

verus! {

/// One thing that can happen while the coordinator collects outcomes.
#[derive(Debug)]
pub enum Event {
    /// A worker reported; `Err` carries its failure.
    Finished(Result<(), Error>),
    /// Receiving from the shared outcome channel failed.
    ChannelFailed,
    /// The shutdown deadline passed.
    TimerFired,
}

/// The collection state as a mathematical value.
pub struct Tally {
    /// How many workers have not reported yet.
    pub waiting: int,
    /// The failures collected so far, in arrival order.
    pub errors: Seq<Error>,
    /// Whether collection is over: everyone reported or the deadline passed.
    pub finished: bool,
}

/// The state before any outcome has arrived, for `n` registered workers.
pub open spec fn start(n: nat) -> Tally {
    Tally { waiting: n as int, errors: Seq::empty(), finished: n == 0 }
}

/// How one event changes the collection state. Once finished, nothing changes.
pub open spec fn step(t: Tally, e: Event) -> Tally {
    if t.finished {
        t
    } else {
        match e {
            Event::TimerFired => Tally {
                waiting: t.waiting,
                errors: t.errors.push(Error::TimedOut(t.waiting as i32)),
                finished: true,
            },
            Event::Finished(Ok(())) => Tally {
                waiting: t.waiting - 1,
                errors: t.errors,
                finished: t.waiting - 1 <= 0,
            },
            Event::Finished(Err(f)) => Tally {
                waiting: t.waiting - 1,
                errors: t.errors.push(f),
                finished: t.waiting - 1 <= 0,
            },
            Event::ChannelFailed => Tally {
                waiting: t.waiting - 1,
                errors: t.errors.push(Error::Channel),
                finished: t.waiting - 1 <= 0,
            },
        }
    }
}

/// The state reached from `t` after the events `es`, in order.
pub open spec fn replay(t: Tally, es: Seq<Event>) -> Tally
    decreases es.len(),
{
    if es.len() == 0 {
        t
    } else {
        step(replay(t, es.drop_last()), es.last())
    }
}

/// The indices of the workers notified so far: the first `k`, in order.
pub open spec fn first_indices(k: nat) -> Seq<usize> {
    Seq::new(k, |i: int| i as usize)
}


/// How many of the events report a failure: a worker's error or a failed receive.
pub open spec fn failures(es: Seq<Event>) -> nat
    decreases es.len(),
{
    if es.len() == 0 {
        0
    } else {
        failures(es.drop_last()) + match es.last() {
            Event::Finished(Err(_)) => 1nat,
            Event::ChannelFailed => 1nat,
            _ => 0nat,
        }
    }
}

/// A finished cycle ignores whatever arrives later.
pub proof fn lemma_finished_is_final(t: Tally, es: Seq<Event>)
    requires
        t.finished,
    ensures
        replay(t, es) == t,
    decreases es.len(),
{
    if es.len() > 0 {
        lemma_finished_is_final(t, es.drop_last());
    }
}

/// Replaying two runs of events one after the other is replaying them joined.
pub proof fn lemma_replay_append(t: Tally, a: Seq<Event>, b: Seq<Event>)
    ensures
        replay(t, a + b) == replay(replay(t, a), b),
    decreases b.len(),
{
    if b.len() == 0 {
        assert(a + b =~= a);
    } else {
        assert((a + b).drop_last() =~= a + b.drop_last());
        lemma_replay_append(t, a, b.drop_last());
    }
}

/// Before the deadline, each outcome counts one worker off, and the cycle ends exactly
/// when every worker has reported; each failure leaves one entry in the list.
pub proof fn lemma_outcomes_before_deadline(n: nat, es: Seq<Event>)
    requires
        es.len() <= n,
        forall|i: int| 0 <= i < es.len() ==> !(es[i] is TimerFired),
    ensures
        replay(start(n), es).waiting == n - es.len(),
        replay(start(n), es).finished == (es.len() == n),
        replay(start(n), es).errors.len() == failures(es),
    decreases es.len(),
{
    if es.len() > 0 {
        let p = es.drop_last();
        assert forall|i: int| 0 <= i < p.len() implies !(p[i] is TimerFired) by {
            assert(p[i] == es[i]);
        }
        lemma_outcomes_before_deadline(n, p);
        assert(!(es[es.len() - 1] is TimerFired));
    }
}

/// When all `n` workers report success before the deadline, no error is collected
/// and the cycle is over.
pub proof fn lemma_all_clean(n: nat, es: Seq<Event>)
    requires
        es.len() == n,
        forall|i: int| 0 <= i < es.len() ==> es[i] == Event::Finished(Ok(())),
    ensures
        replay(start(n), es).finished,
        replay(start(n), es).errors == Seq::<Error>::empty(),
{
    lemma_outcomes_before_deadline(n, es);
    lemma_no_failures(es);
}

proof fn lemma_no_failures(es: Seq<Event>)
    requires
        forall|i: int| 0 <= i < es.len() ==> es[i] == Event::Finished(Ok(())),
    ensures
        failures(es) == 0,
    decreases es.len(),
{
    if es.len() > 0 {
        let p = es.drop_last();
        assert forall|i: int| 0 <= i < p.len() implies p[i] == Event::Finished(Ok(())) by {
            assert(p[i] == es[i]);
        }
        lemma_no_failures(p);
        assert(es.last() == es[es.len() - 1]);
    }
}

/// When all `n` workers report before the deadline and `k` of them report a failure,
/// exactly `k` errors are collected and the cycle is over.
pub proof fn lemma_failures_counted(n: nat, k: nat, es: Seq<Event>)
    requires
        es.len() == n,
        forall|i: int| 0 <= i < es.len() ==> es[i] is Finished,
        failures(es) == k,
    ensures
        replay(start(n), es).finished,
        replay(start(n), es).errors.len() == k,
{
    lemma_outcomes_before_deadline(n, es);
}

/// When the deadline passes after the outcomes `es` and before the last of `n` workers
/// has reported, the list gains exactly one `TimedOut` entry that counts the workers
/// still unreported, and nothing that arrives afterwards changes it.
pub proof fn lemma_deadline(n: nat, es: Seq<Event>, later: Seq<Event>)
    requires
        es.len() < n,
        n <= i32::MAX,
        forall|i: int| 0 <= i < es.len() ==> !(es[i] is TimerFired),
    ensures
        replay(start(n), es.push(Event::TimerFired) + later).finished,
        replay(start(n), es.push(Event::TimerFired) + later).errors == replay(
            start(n),
            es,
        ).errors.push(Error::TimedOut((n - es.len()) as i32)),
{
    lemma_outcomes_before_deadline(n, es);
    let t = replay(start(n), es.push(Event::TimerFired));
    assert(es.push(Event::TimerFired).drop_last() =~= es);
    lemma_replay_append(start(n), es.push(Event::TimerFired), later);
    lemma_finished_is_final(t, later);
}

/// Registering no workers makes a cycle that is over at once with no errors, whatever
/// arrives afterwards.
pub proof fn lemma_no_workers(es: Seq<Event>)
    ensures
        replay(start(0), es).finished,
        replay(start(0), es).errors == Seq::<Error>::empty(),
{
    lemma_finished_is_final(start(0), es);
}

/// The indices handed out for stop notifications never repeat.
pub proof fn lemma_stops_distinct(s: &Shutdown)
    ensures
        s.issued().no_duplicates(),
{
}

/// Drives one shutdown cycle: it hands out each worker's index once for the stop
/// notification, then counts outcomes until all have reported or the deadline passes.
pub struct Shutdown {
    workers: usize,
    notified: usize,
    waiting: i32,
    errors: Vec<Error>,
    finished: bool,
}

impl Shutdown {
    pub closed spec fn workers(&self) -> nat {
        self.workers as nat
    }

    pub closed spec fn notified(&self) -> nat {
        self.notified as nat
    }

    pub closed spec fn tally(&self) -> Tally {
        Tally { waiting: self.waiting as int, errors: self.errors@, finished: self.finished }
    }

    /// The indices that have been handed out for a stop notification.
    pub open spec fn issued(&self) -> Seq<usize> {
        first_indices(self.notified())
    }

    pub closed spec fn wf(&self) -> bool {
        &&& self.notified <= self.workers
        &&& self.workers <= i32::MAX
        &&& 0 <= self.waiting <= self.workers
        &&& (!self.finished ==> self.waiting > 0)
    }

    /// A fresh cycle for `workers` registered workers; with none, it is finished at once.
    pub fn new(workers: usize) -> (r: Shutdown)
        requires
            workers <= i32::MAX,
        ensures
            r.wf(),
            r.workers() == workers,
            r.notified() == 0,
            r.tally() == start(workers as nat),
    {
        Shutdown {
            workers,
            notified: 0,
            waiting: workers as i32,
            errors: Vec::new(),
            finished: workers == 0,
        }
    }

    /// The index of the next worker to notify, or `None` once every worker has been.
    pub fn next_stop(&mut self) -> (r: Option<usize>)
        requires
            old(self).wf(),
        ensures
            final(self).wf(),
            final(self).workers() == old(self).workers(),
            final(self).tally() == old(self).tally(),
            r is Some <==> old(self).notified() < old(self).workers(),
            r matches Some(i) ==> {
                &&& i < old(self).workers()
                &&& !old(self).issued().contains(i)
                &&& final(self).issued() == old(self).issued().push(i)
            },
            r is None ==> {
                &&& final(self).notified() == old(self).notified()
                &&& forall|i: usize| i < old(self).workers() ==> old(self).issued().contains(i)
            },
    {
        if self.notified < self.workers {
            let i = self.notified;
            proof {
                assert(!self.issued().contains(i)) by {
                    if self.issued().contains(i) {
                        let j = choose|j: int| 0 <= j < self.issued().len() && self.issued()[j] == i;
                        assert(self.issued()[j] == j as usize);
                    }
                }
            }
            let ghost before = self.issued();
            self.notified = self.notified + 1;
            assert(self.issued() =~= before.push(i));
            Some(i)
        } else {
            proof {
                assert forall|i: usize| i < self.workers() implies self.issued().contains(i) by {
                    assert(self.issued()[i as int] == i);
                }
            }
            None
        }
    }

    /// Takes one event into account and tells whether collection is over.
    pub fn record(&mut self, event: Event) -> (r: bool)
        requires
            old(self).wf(),
        ensures
            final(self).wf(),
            final(self).workers() == old(self).workers(),
            final(self).notified() == old(self).notified(),
            final(self).tally() == step(old(self).tally(), event),
            r == final(self).tally().finished,
    {
        if self.finished {
            return true;
        }
        match event {
            Event::TimerFired => {
                self.errors.push(Error::TimedOut(self.waiting));
                self.finished = true;
            },
            Event::Finished(Ok(())) => {
                self.waiting = self.waiting - 1;
                self.finished = self.waiting <= 0;
            },
            Event::Finished(Err(f)) => {
                self.waiting = self.waiting - 1;
                self.errors.push(f);
                self.finished = self.waiting <= 0;
            },
            Event::ChannelFailed => {
                self.waiting = self.waiting - 1;
                self.errors.push(Error::Channel);
                self.finished = self.waiting <= 0;
            },
        }
        self.finished
    }

    pub fn is_finished(&self) -> (r: bool)
        ensures
            r == self.tally().finished,
    {
        self.finished
    }

    /// The failures collected so far, in arrival order.
    pub fn into_errors(self) -> (r: Vec<Error>)
        ensures
            r@ == self.tally().errors,
    {
        self.errors
    }
}

} // verus!
