use vstd::prelude::*;
use rand::Rng;

verus! {

pub const MIN_THREADS: u32 = 1;
pub const MAX_THREADS: u32 = 128;
pub const MIN_PACKET_SIZE: u32 = 1;
pub const MAX_PACKET_SIZE: u32 = 65507;
pub const MIN_PORT: u16 = 1;
pub const MAX_PORT: u16 = 65535;

/// What a flood session sends: how many workers, how large each datagram is,
/// and to which destination port.
#[derive(Clone, Copy, Debug, PartialEq, Eq, Structural)]
pub struct FloodParameters {
    pub thread_count: u32,
    pub packet_size: u32,
    pub base_port: u16,
    pub randomize_port: bool,
}

pub open spec fn clamped(v: int, lo: int, hi: int) -> int {
    if v < lo {
        lo
    } else if v > hi {
        hi
    } else {
        v
    }
}

/// Eight workers, 1024-byte datagrams, port 9, no port randomization.
pub open spec fn default_params() -> FloodParameters {
    FloodParameters { thread_count: 8, packet_size: 1024, base_port: 9, randomize_port: false }
}

impl FloodParameters {
    /// Every field lies in its range.
    pub open spec fn valid(&self) -> bool {
        &&& MIN_THREADS <= self.thread_count <= MAX_THREADS
        &&& MIN_PACKET_SIZE <= self.packet_size <= MAX_PACKET_SIZE
        &&& MIN_PORT <= self.base_port
    }

    /// The default parameters.
    pub fn new() -> (r: FloodParameters)
        ensures
            r == default_params(),
            r.valid(),
    {
        FloodParameters { thread_count: 8, packet_size: 1024, base_port: 9, randomize_port: false }
    }

    /// Sets the worker count, held to [1, 128].
    pub fn set_thread_count(&mut self, n: u32)
        ensures
            final(self).thread_count == clamped(n as int, MIN_THREADS as int, MAX_THREADS as int),
            final(self).packet_size == old(self).packet_size,
            final(self).base_port == old(self).base_port,
            final(self).randomize_port == old(self).randomize_port,
    {
        self.thread_count = if n < MIN_THREADS {
            MIN_THREADS
        } else if n > MAX_THREADS {
            MAX_THREADS
        } else {
            n
        };
    }

    /// Sets the datagram size in bytes, held to [1, 65507].
    pub fn set_packet_size(&mut self, n: u32)
        ensures
            final(self).packet_size == clamped(
                n as int,
                MIN_PACKET_SIZE as int,
                MAX_PACKET_SIZE as int,
            ),
            final(self).thread_count == old(self).thread_count,
            final(self).base_port == old(self).base_port,
            final(self).randomize_port == old(self).randomize_port,
    {
        self.packet_size = if n < MIN_PACKET_SIZE {
            MIN_PACKET_SIZE
        } else if n > MAX_PACKET_SIZE {
            MAX_PACKET_SIZE
        } else {
            n
        };
    }

    /// Sets the fixed destination port; port 0 is raised to 1.
    pub fn set_base_port(&mut self, p: u16)
        ensures
            final(self).base_port == clamped(p as int, MIN_PORT as int, MAX_PORT as int),
            final(self).thread_count == old(self).thread_count,
            final(self).packet_size == old(self).packet_size,
            final(self).randomize_port == old(self).randomize_port,
    {
        self.base_port = if p < MIN_PORT {
            MIN_PORT
        } else {
            p
        };
    }
}

/// Relies on rand::thread_rng and rand::Rng::gen_range over an inclusive range,
/// which returns a value inside the range.
#[verifier::external_body]
fn random_port() -> (r: u16)
    ensures
        MIN_PORT <= r,
{
    rand::thread_rng().gen_range(MIN_PORT..=MAX_PORT)
}

/// The destination port of the next datagram, given a port drawn at random:
/// the drawn one when ports are randomized, else the fixed port.
pub fn port_for(params: &FloodParameters, drawn: u16) -> (r: u16)
    ensures
        r == if params.randomize_port {
            drawn
        } else {
            params.base_port
        },
{
    if params.randomize_port {
        drawn
    } else {
        params.base_port
    }
}

/// The destination port of the next datagram. A random port is drawn, uniformly
/// and afresh for each datagram, only when ports are randomized.
pub fn next_port(params: &FloodParameters) -> (r: u16)
    ensures
        !params.randomize_port ==> r == params.base_port,
        params.randomize_port ==> MIN_PORT <= r,
{
    if params.randomize_port {
        let drawn = random_port();
        port_for(params, drawn)
    } else {
        params.base_port
    }
}

/// A datagram body: `size` zero bytes.
pub fn payload(size: u32) -> (r: Vec<u8>)
    ensures
        r@.len() == size,
        forall|i: int| 0 <= i < r@.len() ==> r@[i] == 0,
{
    let mut r: Vec<u8> = Vec::new();
    let mut i: u32 = 0;
    while i < size
        invariant
            i <= size,
            r@.len() == i,
            forall|k: int| 0 <= k < r@.len() ==> r@[k] == 0,
        decreases size - i,
    {
        r.push(0u8);
        i = i + 1;
    }
    r
}

/// A throughput sample of a running session.
#[derive(Clone, Copy, Debug, PartialEq, Eq, Structural)]
pub struct StatsSample {
    pub total_packets: u64,
    pub packets_per_second: u64,
    pub elapsed_ms: u64,
}

/// Packets per second over `elapsed_ms` milliseconds, rounded down; zero when no
/// time has elapsed, and held to the largest `u64`.
pub open spec fn rate(total: nat, elapsed_ms: nat) -> nat {
    if elapsed_ms == 0 {
        0
    } else if total * 1000 / elapsed_ms > u64::MAX {
        u64::MAX as nat
    } else {
        total * 1000 / elapsed_ms
    }
}

pub fn packets_per_second(total: u64, elapsed_ms: u64) -> (r: u64)
    ensures
        r == rate(total as nat, elapsed_ms as nat),
{
    if elapsed_ms == 0 {
        return 0;
    }
    let scaled: u128 = (total as u128) * 1000;
    let q: u128 = scaled / (elapsed_ms as u128);
    if q > u64::MAX as u128 {
        u64::MAX
    } else {
        q as u64
    }
}

/// One wake-up of the sampler: a sample when the session still runs, nothing
/// once it has been told to stop.
pub fn sampler_tick(running: bool, total: u64, elapsed_ms: u64) -> (r: Option<StatsSample>)
    ensures
        r is Some <==> running,
        r matches Some(s) ==> s.total_packets == total && s.elapsed_ms == elapsed_ms
            && s.packets_per_second == rate(total as nat, elapsed_ms as nat),
{
    if running {
        Some(
            StatsSample {
                total_packets: total,
                packets_per_second: packets_per_second(total, elapsed_ms),
                elapsed_ms,
            },
        )
    } else {
        None
    }
}

/// How many entries of `sends` name worker `w`.
pub open spec fn sends_of(sends: Seq<nat>, w: nat) -> nat
    decreases sends.len(),
{
    if sends.len() == 0 {
        0
    } else {
        sends_of(sends.drop_last(), w) + if sends.last() == w {
            1nat
        } else {
            0nat
        }
    }
}

/// The sum of the counts of workers `0 .. n`.
pub open spec fn sum_of_sends(sends: Seq<nat>, n: nat) -> nat
    decreases n,
{
    if n == 0 {
        0
    } else {
        sum_of_sends(sends, (n - 1) as nat) + sends_of(sends, (n - 1) as nat)
    }
}

proof fn lemma_sum_drop_last(sends: Seq<nat>, n: nat)
    requires
        sends.len() > 0,
    ensures
        sum_of_sends(sends, n) == sum_of_sends(sends.drop_last(), n) + if sends.last() < n {
            1nat
        } else {
            0nat
        },
    decreases n,
{
    if n > 0 {
        lemma_sum_drop_last(sends, (n - 1) as nat);
    }
}

/// However the workers' successful sends interleave, the shared counter (one
/// increment per send) ends equal to the sum of what each worker counted itself.
pub proof fn lemma_counter_conservation(sends: Seq<nat>, n: nat)
    requires
        forall|i: int| 0 <= i < sends.len() ==> sends[i] < n,
    ensures
        sum_of_sends(sends, n) == sends.len(),
    decreases sends.len(),
{
    if sends.len() > 0 {
        lemma_sum_drop_last(sends, n);
        let rest = sends.drop_last();
        assert forall|i: int| 0 <= i < rest.len() implies rest[i] < n by {
            assert(rest[i] == sends[i]);
        }
        assert(sends[sends.len() - 1] < n);
        lemma_counter_conservation(rest, n);
    } else {
        lemma_sum_empty(sends, n);
    }
}

proof fn lemma_sum_empty(sends: Seq<nat>, n: nat)
    requires
        sends.len() == 0,
    ensures
        sum_of_sends(sends, n) == 0,
    decreases n,
{
    if n > 0 {
        lemma_sum_empty(sends, (n - 1) as nat);
    }
}

/// The packet counter of a session: one shared total, and each worker's own count.
pub struct SendCounter {
    total: u64,
    per_worker: Vec<u64>,
    sends: Ghost<Seq<nat>>,
}

impl SendCounter {
    /// The successful sends so far, in order, each naming its worker.
    pub closed spec fn sends(&self) -> Seq<nat> {
        self.sends@
    }

    pub closed spec fn workers(&self) -> nat {
        self.per_worker@.len()
    }

    pub closed spec fn total_spec(&self) -> nat {
        self.total as nat
    }

    pub closed spec fn count_spec(&self, w: nat) -> nat {
        self.per_worker@[w as int] as nat
    }

    pub closed spec fn wf(&self) -> bool {
        &&& self.total as nat == self.sends@.len()
        &&& forall|i: int| 0 <= i < self.sends@.len() ==> self.sends@[i] < self.per_worker@.len()
        &&& forall|w: int|
            0 <= w < self.per_worker@.len() ==> self.per_worker@[w] as nat == sends_of(
                self.sends@,
                w as nat,
            )
    }

    /// A counter for `workers` workers, all at zero.
    pub fn new(workers: usize) -> (r: SendCounter)
        ensures
            r.wf(),
            r.workers() == workers,
            r.sends() == Seq::<nat>::empty(),
            r.total_spec() == 0,
    {
        let mut per_worker: Vec<u64> = Vec::new();
        let mut i: usize = 0;
        while i < workers
            invariant
                i <= workers,
                per_worker@.len() == i,
                forall|k: int| 0 <= k < i ==> per_worker@[k] == 0,
            decreases workers - i,
        {
            per_worker.push(0);
            i = i + 1;
        }
        SendCounter { total: 0, per_worker, sends: Ghost(Seq::empty()) }
    }

    /// Counts one successful send of `worker`.
    pub fn record(&mut self, worker: usize)
        requires
            old(self).wf(),
            worker < old(self).workers(),
            old(self).total_spec() < u64::MAX,
        ensures
            final(self).wf(),
            final(self).workers() == old(self).workers(),
            final(self).sends() == old(self).sends().push(worker as nat),
            final(self).total_spec() == old(self).total_spec() + 1,
    {
        let ghost s0 = self.sends@;
        let ghost s1 = s0.push(worker as nat);
        proof {
            assert(s1.drop_last() =~= s0);
            assert(sends_of(s0, worker as nat) <= s0.len()) by {
                lemma_sends_of_bounded(s0, worker as nat);
            }
        }
        let c = self.per_worker[worker];
        self.per_worker.set(worker, c + 1);
        self.total = self.total + 1;
        self.sends = Ghost(s1);
        proof {
            assert forall|w: int| 0 <= w < self.per_worker@.len() implies self.per_worker@[w] as nat
                == sends_of(s1, w as nat) by {
                assert(s1.drop_last() =~= s0);
            }
        }
    }

    /// The shared total.
    pub fn total(&self) -> (r: u64)
        ensures
            r == self.total_spec(),
    {
        self.total
    }

    /// What worker `w` counted itself.
    pub fn sent_by(&self, w: usize) -> (r: u64)
        requires
            w < self.workers(),
        ensures
            r == self.count_spec(w as nat),
    {
        self.per_worker[w]
    }

    /// The shared total equals the sum of the workers' own counts.
    pub proof fn lemma_total_is_sum(&self)
        requires
            self.wf(),
        ensures
            self.total_spec() == sum_of_sends(self.sends(), self.workers()),
            forall|w: nat| w < self.workers() ==> self.count_spec(w) == sends_of(self.sends(), w),
    {
        lemma_counter_conservation(self.sends@, self.per_worker@.len());
    }
}

proof fn lemma_sends_of_bounded(sends: Seq<nat>, w: nat)
    ensures
        sends_of(sends, w) <= sends.len(),
    decreases sends.len(),
{
    if sends.len() > 0 {
        lemma_sends_of_bounded(sends.drop_last(), w);
    }
}

} // verus!
