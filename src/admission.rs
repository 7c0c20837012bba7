use vstd::prelude::*;

verus! {

/// What becomes of a request that asks for an admission permit.
#[derive(Clone, Copy, Debug, PartialEq, Eq, Structural)]
pub enum Arrival {
    /// It holds a permit and may proceed.
    Admitted,
    /// It waits under this ticket until a permit is handed to it.
    Queued(u64),
    /// It is rejected at once as overload.
    Shed,
}

/// The abstract state of an admission controller.
pub ghost struct AdmissionState {
    pub permits: u64,
    pub queue_limit: u64,
    pub in_flight: u64,
    pub waiting: Seq<u64>,
    pub next_ticket: u64,
    pub shutting_down: bool,
}

impl AdmissionState {
    pub open spec fn wf(self) -> bool {
        &&& self.permits > 0
        &&& self.in_flight <= self.permits
        &&& self.waiting.len() <= self.queue_limit
        &&& self.waiting.len() > 0 ==> self.in_flight == self.permits
        &&& self.shutting_down ==> self.waiting.len() == 0
        &&& forall|i: int| 0 <= i < self.waiting.len() ==> #[trigger] self.waiting[i] < self.next_ticket
        &&& forall|i: int, j: int|
            0 <= i < j < self.waiting.len() ==> #[trigger] self.waiting[i] < #[trigger] self.waiting[j]
    }

    /// Requests that hold a permit or wait for one.
    pub open spec fn outstanding(self) -> nat {
        (self.in_flight + self.waiting.len()) as nat
    }

    pub open spec fn is_idle(self) -> bool {
        self.in_flight == 0 && self.waiting.len() == 0
    }
}

/// The state and outcome of an arrival: a free permit is taken; with none
/// free the request waits if the queue has room; otherwise, or once shutdown
/// has begun, or when ticket numbers run out, it is shed.
pub open spec fn after_arrival(s: AdmissionState) -> (AdmissionState, Arrival) {
    if s.shutting_down {
        (s, Arrival::Shed)
    } else if s.in_flight < s.permits {
        (AdmissionState { in_flight: (s.in_flight + 1) as u64, ..s }, Arrival::Admitted)
    } else if s.waiting.len() < s.queue_limit && s.next_ticket < u64::MAX {
        (
            AdmissionState {
                waiting: s.waiting.push(s.next_ticket),
                next_ticket: (s.next_ticket + 1) as u64,
                ..s
            },
            Arrival::Queued(s.next_ticket),
        )
    } else {
        (s, Arrival::Shed)
    }
}

/// The state after a request that held a permit finishes, and the ticket the
/// permit passes to: the oldest waiter, if there is one.
pub open spec fn after_release(s: AdmissionState) -> (AdmissionState, Option<u64>) {
    if s.waiting.len() > 0 {
        (AdmissionState { waiting: s.waiting.drop_first(), ..s }, Some(s.waiting[0]))
    } else {
        (AdmissionState { in_flight: (s.in_flight - 1) as u64, ..s }, None)
    }
}

/// The state after `n` arrivals, one after another, and their outcomes in order.
pub open spec fn after_arrivals(s: AdmissionState, n: nat) -> (AdmissionState, Seq<Arrival>)
    decreases n,
{
    if n == 0 {
        (s, Seq::empty())
    } else {
        let (s1, a) = after_arrival(s);
        let (s2, rest) = after_arrivals(s1, (n - 1) as nat);
        (s2, seq![a] + rest)
    }
}

/// The state after up to `n` requests holding permits finish one after
/// another, and the tickets handed a permit, in order.
pub open spec fn after_releases(s: AdmissionState, n: nat) -> (AdmissionState, Seq<u64>)
    decreases n,
{
    if n == 0 || s.in_flight == 0 {
        (s, Seq::empty())
    } else {
        let (s1, t) = after_release(s);
        let (s2, rest) = after_releases(s1, (n - 1) as nat);
        (
            s2,
            match t {
                Some(x) => seq![x] + rest,
                None => rest,
            },
        )
    }
}

proof fn lemma_arrival_wf(s: AdmissionState)
    requires
        s.wf(),
    ensures
        after_arrival(s).0.wf(),
{
    let s1 = after_arrival(s).0;
    if !s.shutting_down && s.in_flight >= s.permits && s.waiting.len() < s.queue_limit
        && s.next_ticket < u64::MAX {
        assert forall|i: int, j: int| 0 <= i < j < s1.waiting.len() implies s1.waiting[i]
            < s1.waiting[j] by {
            if j == s.waiting.len() {
                assert(s.waiting[i] < s.next_ticket);
            }
        }
        assert forall|i: int| 0 <= i < s1.waiting.len() implies s1.waiting[i] < s1.next_ticket by {
            if i < s.waiting.len() {
                assert(s.waiting[i] < s.next_ticket);
            }
        }
    }
}

proof fn lemma_release_wf(s: AdmissionState)
    requires
        s.wf(),
        s.in_flight > 0,
    ensures
        after_release(s).0.wf(),
{
    let s1 = after_release(s).0;
    if s.waiting.len() > 0 {
        assert forall|i: int, j: int| 0 <= i < j < s1.waiting.len() implies s1.waiting[i]
            < s1.waiting[j] by {
            assert(s1.waiting[i] == s.waiting[i + 1] && s1.waiting[j] == s.waiting[j + 1]);
        }
        assert forall|i: int| 0 <= i < s1.waiting.len() implies s1.waiting[i] < s1.next_ticket by {
            assert(s1.waiting[i] == s.waiting[i + 1]);
        }
    }
}

/// Requests that hold a permit or wait for one never hang: once as many
/// requests have finished as were outstanding, the controller is idle, and
/// every waiter was handed a permit, oldest first.
pub proof fn lemma_waiters_all_served(s: AdmissionState)
    requires
        s.wf(),
    ensures
        after_releases(s, s.outstanding()).0.is_idle(),
        after_releases(s, s.outstanding()).1 == s.waiting,
    decreases s.outstanding(),
{
    if s.outstanding() > 0 {
        assert(s.in_flight > 0);
        lemma_release_wf(s);
        let (s1, t) = after_release(s);
        assert(s1.outstanding() == s.outstanding() - 1);
        lemma_waiters_all_served(s1);
        if s.waiting.len() > 0 {
            assert(seq![s.waiting[0]] + s1.waiting == s.waiting);
        }
    } else {
        assert(s.waiting == Seq::<u64>::empty());
    }
}

proof fn lemma_arrivals_from(s: AdmissionState, n: nat)
    requires
        s.wf(),
        !s.shutting_down,
        n <= (s.permits - s.in_flight) + (s.queue_limit - s.waiting.len()),
        s.next_ticket + n < u64::MAX,
    ensures
        after_arrivals(s, n).0.wf(),
        after_arrivals(s, n).0.permits == s.permits,
        after_arrivals(s, n).0.outstanding() == s.outstanding() + n,
        after_arrivals(s, n).1.len() == n,
        forall|i: int|
            0 <= i < n ==> #[trigger] after_arrivals(s, n).1[i] == if i < s.permits - s.in_flight {
                Arrival::Admitted
            } else {
                Arrival::Queued((s.next_ticket + i - (s.permits - s.in_flight)) as u64)
            },
    decreases n,
{
    if n > 0 {
        lemma_arrival_wf(s);
        let (s1, a) = after_arrival(s);
        lemma_arrivals_from(s1, (n - 1) as nat);
        let outs = after_arrivals(s, n).1;
        let rest = after_arrivals(s1, (n - 1) as nat).1;
        assert forall|i: int| 0 < i < n implies outs[i] == rest[i - 1] by {}
    }
}

/// With `permits` permits and `m` more concurrent requests than permits, `m`
/// within the queue's room, no request is shed: the first `permits` are
/// admitted, the others queued in order of arrival, and once as many requests
/// have finished as arrived, every queued one was handed a permit and the
/// controller is idle.
pub proof fn lemma_overload_within_queue(s: AdmissionState, m: nat)
    requires
        s.wf(),
        s.is_idle(),
        !s.shutting_down,
        m <= s.queue_limit,
        s.next_ticket + s.permits + m < u64::MAX,
    ensures
        ({
            let (s1, outs) = after_arrivals(s, (s.permits + m) as nat);
            &&& outs.len() == s.permits + m
            &&& forall|i: int| 0 <= i < s.permits ==> #[trigger] outs[i] == Arrival::Admitted
            &&& forall|i: int|
                s.permits <= i < s.permits + m ==> #[trigger] outs[i] == Arrival::Queued(
                    (s.next_ticket + i - s.permits) as u64,
                )
            &&& s1.outstanding() == s.permits + m
            &&& after_releases(s1, (s.permits + m) as nat).0.is_idle()
            &&& after_releases(s1, (s.permits + m) as nat).1 == s1.waiting
            &&& s1.waiting.len() == m
        }),
{
    lemma_arrivals_from(s, (s.permits + m) as nat);
    let (s1, outs) = after_arrivals(s, (s.permits + m) as nat);
    lemma_waiters_all_served(s1);
    if s1.waiting.len() > 0 {
        assert(s1.in_flight == s1.permits);
    }
    assert(s1.waiting.len() == m);
    assert forall|i: int| 0 <= i < s.permits implies #[trigger] outs[i] == Arrival::Admitted by {}
    assert forall|i: int| s.permits <= i < s.permits + m implies #[trigger] outs[i]
        == Arrival::Queued((s.next_ticket + i - s.permits) as u64) by {}
}

/// Bounds the number of requests processed at once; requests beyond the bound
/// wait in a bounded queue, and beyond that are shed.
pub struct AdmissionController {
    permits: u64,
    queue_limit: u64,
    in_flight: u64,
    waiting: Vec<u64>,
    next_ticket: u64,
    shutting_down: bool,
}

impl View for AdmissionController {
    type V = AdmissionState;

    closed spec fn view(&self) -> AdmissionState {
        AdmissionState {
            permits: self.permits,
            queue_limit: self.queue_limit,
            in_flight: self.in_flight,
            waiting: self.waiting@,
            next_ticket: self.next_ticket,
            shutting_down: self.shutting_down,
        }
    }
}

impl AdmissionController {
    /// A controller with `permits` permits and room for `queue_limit` waiters.
    pub fn new(permits: u64, queue_limit: u64) -> (r: Self)
        requires
            permits > 0,
        ensures
            r@.wf(),
            r@ == (AdmissionState {
                permits,
                queue_limit,
                in_flight: 0,
                waiting: Seq::empty(),
                next_ticket: 0,
                shutting_down: false,
            }),
    {
        AdmissionController {
            permits,
            queue_limit,
            in_flight: 0,
            waiting: Vec::new(),
            next_ticket: 0,
            shutting_down: false,
        }
    }

    pub fn in_flight(&self) -> (r: u64)
        ensures
            r == self@.in_flight,
    {
        self.in_flight
    }

    pub fn waiting_count(&self) -> (r: usize)
        ensures
            r == self@.waiting.len(),
    {
        self.waiting.len()
    }

    /// A request asks for a permit.
    pub fn arrive(&mut self) -> (r: Arrival)
        requires
            old(self)@.wf(),
        ensures
            final(self)@.wf(),
            (final(self)@, r) == after_arrival(old(self)@),
    {
        if self.shutting_down {
            Arrival::Shed
        } else if self.in_flight < self.permits {
            self.in_flight = self.in_flight + 1;
            Arrival::Admitted
        } else if (self.waiting.len() as u64) < self.queue_limit && self.next_ticket < u64::MAX {
            let ticket = self.next_ticket;
            self.waiting.push(ticket);
            self.next_ticket = ticket + 1;
            Arrival::Queued(ticket)
        } else {
            Arrival::Shed
        }
    }

    /// A request that held a permit finishes, however it ended. Returns the
    /// ticket of the waiter that the permit passes to, if any.
    pub fn release(&mut self) -> (r: Option<u64>)
        requires
            old(self)@.wf(),
            old(self)@.in_flight > 0,
        ensures
            final(self)@.wf(),
            (final(self)@, r) == after_release(old(self)@),
    {
        if self.waiting.len() > 0 {
            let ticket = self.waiting.remove(0);
            proof {
                assert(self.waiting@ == old(self)@.waiting.drop_first());
            }
            Some(ticket)
        } else {
            self.in_flight = self.in_flight - 1;
            None
        }
    }

    /// A waiter gives up (it timed out or its client left). Returns whether it
    /// was still waiting; if not, a permit has been handed to it, which it
    /// must release.
    pub fn abandon(&mut self, ticket: u64) -> (r: bool)
        requires
            old(self)@.wf(),
        ensures
            final(self)@.wf(),
            r == old(self)@.waiting.contains(ticket),
            r ==> final(self)@ == (AdmissionState {
                waiting: old(self)@.waiting.remove(old(self)@.waiting.index_of(ticket)),
                ..old(self)@
            }),
            !r ==> final(self)@ == old(self)@,
    {
        let mut i: usize = 0;
        while i < self.waiting.len()
            invariant
                *self == *old(self),
                i <= self.waiting@.len(),
                forall|j: int| 0 <= j < i ==> self.waiting@[j] != ticket,
            ensures
                i <= self.waiting@.len(),
                forall|j: int| 0 <= j < i ==> self.waiting@[j] != ticket,
                i < self.waiting@.len() ==> self.waiting@[i as int] == ticket,
            decreases self.waiting@.len() - i,
        {
            if self.waiting[i] == ticket {
                break;
            }
            i = i + 1;
        }
        let ghost w = self.waiting@;
        if i < self.waiting.len() {
            proof {
                assert(w.contains(ticket));
                let k = w.index_of(ticket);
                assert(w[k] == ticket);
                if k > i as int {
                    assert(w[i as int] < w[k]);
                }
            }
            self.waiting.remove(i);
            proof {
                let nw = self.waiting@;
                assert forall|a: int, b: int| 0 <= a < b < nw.len() implies nw[a] < nw[b] by {
                    if a >= i {
                        assert(nw[a] == w[a + 1] && nw[b] == w[b + 1]);
                    } else if b >= i {
                        assert(nw[a] == w[a] && nw[b] == w[b + 1]);
                    }
                }
                assert forall|a: int| 0 <= a < nw.len() implies nw[a] < self.next_ticket by {
                    if a >= i {
                        assert(nw[a] == w[a + 1]);
                    }
                }
            }
            true
        } else {
            proof {
                assert(!w.contains(ticket));
            }
            false
        }
    }

    /// Shutdown begins: no permit is granted from now on. Returns the tickets
    /// of the waiters, oldest first, which are shed.
    pub fn begin_shutdown(&mut self) -> (r: Vec<u64>)
        requires
            old(self)@.wf(),
        ensures
            final(self)@.wf(),
            r@ == old(self)@.waiting,
            final(self)@ == (AdmissionState {
                waiting: Seq::empty(),
                shutting_down: true,
                ..old(self)@
            }),
    {
        self.shutting_down = true;
        let shed = self.waiting.clone();
        self.waiting = Vec::new();
        shed
    }
}

} // verus!
