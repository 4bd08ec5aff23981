use vstd::prelude::*;
use crate::flood::{clamped, default_params, FloodParameters, StatsSample, MAX_PACKET_SIZE, MAX_PORT, MAX_THREADS, MIN_PACKET_SIZE, MIN_PORT, MIN_THREADS};
use crate::scanner::views;

verus! {

/// What the engine is doing.
#[derive(Clone, Copy, Debug, PartialEq, Eq, Structural)]
pub enum EngineState {
    Idle,
    Scanning,
    Flooding,
}

/// What a started flood session works from: its number, the target's address,
/// and the parameters as they stood when it started.
#[derive(Debug)]
pub struct FloodSession {
    pub id: u64,
    pub target: String,
    pub params: FloodParameters,
}

/// Requests from the presentation layer, and reports from the scanner, the
/// workers and the sampler.
#[derive(Debug)]
pub enum Command {
    /// Sweep the subnet.
    ScanNetwork,
    /// The sweep is over; this is its result.
    ScanFinished(Vec<String>),
    /// Choose the target by its place in the last result.
    SelectTarget(u32),
    SetThreadCount(u32),
    SetPacketSize(u32),
    SetBasePort(u16),
    SetRandomizePort(bool),
    StartFlood,
    StopFlood,
    /// A throughput sample of the given session.
    Stats(u64, StatsSample),
    /// Every worker of the given session has ended.
    FloodFinished(u64),
}

/// What the engine asks of its surroundings, or reports, in answer to a command.
#[derive(Debug)]
pub enum Effect {
    Nothing,
    /// Sweep this subnet prefix, then send `ScanFinished`.
    BeginScan(String),
    /// Start this session's workers and its sampler.
    BeginFlood(FloodSession),
    /// Tell this session's workers and sampler to stop.
    SignalStop(u64),
    ScanCompleted(Vec<String>),
    StatsUpdated(u64, StatsSample),
    FloodFinished(u64),
}

/// The engine as a mathematical value.
pub struct EngineView {
    pub state: EngineState,
    pub prefix: Seq<char>,
    /// The last sweep's result; `None` before the first sweep.
    pub targets: Option<Seq<Seq<char>>>,
    pub selected: u32,
    pub params: FloodParameters,
    pub stats: StatsSample,
    /// The number the next session gets.
    pub next_session: u64,
    /// The latest session, from its start until it finishes.
    pub live_session: Option<u64>,
    /// Earlier sessions that were stopped and whose workers have not all ended.
    pub draining: Set<u64>,
}

pub enum EffectView {
    Nothing,
    BeginScan(Seq<char>),
    BeginFlood { id: u64, target: Seq<char>, params: FloodParameters },
    SignalStop(u64),
    ScanCompleted(Seq<Seq<char>>),
    StatsUpdated(u64, StatsSample),
    FloodFinished(u64),
}

impl Effect {
    pub open spec fn view(&self) -> EffectView {
        match self {
            Effect::Nothing => EffectView::Nothing,
            Effect::BeginScan(p) => EffectView::BeginScan(p@),
            Effect::BeginFlood(s) => EffectView::BeginFlood {
                id: s.id,
                target: s.target@,
                params: s.params,
            },
            Effect::SignalStop(id) => EffectView::SignalStop(*id),
            Effect::ScanCompleted(v) => EffectView::ScanCompleted(views(v@)),
            Effect::StatsUpdated(id, s) => EffectView::StatsUpdated(*id, *s),
            Effect::FloodFinished(id) => EffectView::FloodFinished(*id),
        }
    }
}

pub open spec fn zero_stats() -> StatsSample {
    StatsSample { total_packets: 0, packets_per_second: 0, elapsed_ms: 0 }
}

/// A flood may start: the engine is idle, a sweep found hosts, the selected
/// place names one of them, and session numbers are not used up.
pub open spec fn can_start(s: EngineView) -> bool {
    &&& s.state == EngineState::Idle
    &&& s.targets matches Some(t) && s.selected < t.len()
    &&& s.next_session < u64::MAX
}

/// One step of the engine: the new engine and the effect of a command.
pub open spec fn step(s: EngineView, c: Command) -> (EngineView, EffectView) {
    match c {
        Command::ScanNetwork => {
            if s.state == EngineState::Idle {
                (EngineView { state: EngineState::Scanning, ..s }, EffectView::BeginScan(s.prefix))
            } else {
                (s, EffectView::Nothing)
            }
        },
        Command::ScanFinished(v) => {
            if s.state == EngineState::Scanning {
                (
                    EngineView {
                        state: EngineState::Idle,
                        targets: Some(views(v@)),
                        selected: 0,
                        ..s
                    },
                    EffectView::ScanCompleted(views(v@)),
                )
            } else {
                (s, EffectView::Nothing)
            }
        },
        Command::SelectTarget(i) => (EngineView { selected: i, ..s }, EffectView::Nothing),
        Command::SetThreadCount(n) => (
            EngineView {
                params: FloodParameters {
                    thread_count: clamped(n as int, MIN_THREADS as int, MAX_THREADS as int) as u32,
                    ..s.params
                },
                ..s
            },
            EffectView::Nothing,
        ),
        Command::SetPacketSize(n) => (
            EngineView {
                params: FloodParameters {
                    packet_size: clamped(
                        n as int,
                        MIN_PACKET_SIZE as int,
                        MAX_PACKET_SIZE as int,
                    ) as u32,
                    ..s.params
                },
                ..s
            },
            EffectView::Nothing,
        ),
        Command::SetBasePort(p) => (
            EngineView {
                params: FloodParameters {
                    base_port: clamped(p as int, MIN_PORT as int, MAX_PORT as int) as u16,
                    ..s.params
                },
                ..s
            },
            EffectView::Nothing,
        ),
        Command::SetRandomizePort(b) => (
            EngineView { params: FloodParameters { randomize_port: b, ..s.params }, ..s },
            EffectView::Nothing,
        ),
        Command::StartFlood => {
            if can_start(s) {
                let id = s.next_session;
                (
                    EngineView {
                        state: EngineState::Flooding,
                        stats: zero_stats(),
                        next_session: (id + 1) as u64,
                        live_session: Some(id),
                        draining: match s.live_session {
                            Some(prev) => s.draining.insert(prev),
                            None => s.draining,
                        },
                        ..s
                    },
                    EffectView::BeginFlood {
                        id,
                        target: s.targets->0[s.selected as int],
                        params: s.params,
                    },
                )
            } else {
                (s, EffectView::Nothing)
            }
        },
        Command::StopFlood => {
            if s.state == EngineState::Flooding && s.live_session is Some {
                (
                    EngineView { state: EngineState::Idle, ..s },
                    EffectView::SignalStop(s.live_session->0),
                )
            } else {
                (s, EffectView::Nothing)
            }
        },
        Command::Stats(id, sample) => {
            if s.live_session == Some(id) {
                (EngineView { stats: sample, ..s }, EffectView::StatsUpdated(id, sample))
            } else {
                (s, EffectView::Nothing)
            }
        },
        Command::FloodFinished(id) => {
            if s.live_session == Some(id) {
                (
                    EngineView {
                        state: if s.state == EngineState::Flooding {
                            EngineState::Idle
                        } else {
                            s.state
                        },
                        live_session: None,
                        ..s
                    },
                    EffectView::FloodFinished(id),
                )
            } else if s.draining.contains(id) {
                (EngineView { draining: s.draining.remove(id), ..s }, EffectView::FloodFinished(id))
            } else {
                (s, EffectView::Nothing)
            }
        },
    }
}

/// The engine: it checks each command against its state, keeps the last sweep's
/// result, the parameters and the last sample, and says what has to happen.
pub struct Engine {
    state: EngineState,
    prefix: String,
    targets: Option<Vec<String>>,
    selected: u32,
    params: FloodParameters,
    stats: StatsSample,
    next_session: u64,
    live_session: Option<u64>,
    draining: Vec<u64>,
}

/// `v` without the entries equal to `id`.
fn without(v: &Vec<u64>, id: u64) -> (r: Vec<u64>)
    ensures
        forall|x: u64| r@.contains(x) <==> (v@.contains(x) && x != id),
{
    let mut r: Vec<u64> = Vec::new();
    let mut i: usize = 0;
    while i < v.len()
        invariant
            i <= v@.len(),
            forall|x: u64| r@.contains(x) <==> (v@.subrange(0, i as int).contains(x) && x != id),
        decreases v@.len() - i,
    {
        let ghost r0 = r@;
        let ghost pre = v@.subrange(0, i as int);
        let ghost post = v@.subrange(0, i + 1 as int);
        if v[i] != id {
            r.push(v[i]);
        }
        proof {
            assert forall|x: u64| r@.contains(x) <==> (post.contains(x) && x != id) by {
                if post.contains(x) {
                    let k = choose|k: int| 0 <= k < post.len() && post[k] == x;
                    if k < i {
                        assert(pre[k] == x);
                    }
                }
                if pre.contains(x) {
                    let k = choose|k: int| 0 <= k < pre.len() && pre[k] == x;
                    assert(post[k] == x);
                }
                if r@.contains(x) && !r0.contains(x) {
                    assert(r@ == r0.push(v@[i as int]));
                    let k = choose|k: int| 0 <= k < r@.len() && r@[k] == x;
                    if k < r0.len() {
                        assert(r0[k] == x);
                    }
                    assert(post[i as int] == x);
                }
                if r0.contains(x) {
                    let k = choose|k: int| 0 <= k < r0.len() && r0[k] == x;
                    assert(r@[k] == x);
                }
                if post.contains(x) && x != id && !pre.contains(x) {
                    let k = choose|k: int| 0 <= k < post.len() && post[k] == x;
                    if k < i {
                        assert(pre[k] == x);
                    }
                    assert(r@[r@.len() - 1] == x);
                }
            }
        }
        i = i + 1;
    }
    assert(v@.subrange(0, i as int) =~= v@);
    r
}

/// A copy of a list of strings.
fn copy_list(v: &Vec<String>) -> (r: Vec<String>)
    ensures
        views(r@) == views(v@),
{
    let mut r: Vec<String> = Vec::new();
    let mut i: usize = 0;
    while i < v.len()
        invariant
            i <= v@.len(),
            r@.len() == i,
            forall|k: int| 0 <= k < i ==> r@[k]@ == v@[k]@,
        decreases v@.len() - i,
    {
        r.push(v[i].clone());
        i = i + 1;
    }
    assert(views(r@) =~= views(v@));
    r
}

impl Engine {
    pub closed spec fn view(&self) -> EngineView {
        EngineView {
            state: self.state,
            prefix: self.prefix@,
            targets: match self.targets {
                Some(t) => Some(views(t@)),
                None => None,
            },
            selected: self.selected,
            params: self.params,
            stats: self.stats,
            next_session: self.next_session,
            live_session: self.live_session,
            draining: Set::new(|x: u64| self.draining@.contains(x)),
        }
    }

    /// An idle engine for the subnet `prefix`, with no sweep yet and the default
    /// parameters.
    pub fn new(prefix: String) -> (r: Engine)
        ensures
            r@.state == EngineState::Idle,
            r@.prefix == prefix@,
            r@.targets is None,
            r@.selected == 0,
            r@.params == default_params(),
            r@.stats == zero_stats(),
            r@.next_session == 0,
            r@.live_session is None,
            r@.draining.is_empty(),
            inv(r@),
    {
        Engine {
            state: EngineState::Idle,
            prefix,
            targets: None,
            selected: 0,
            params: FloodParameters::new(),
            stats: StatsSample { total_packets: 0, packets_per_second: 0, elapsed_ms: 0 },
            next_session: 0,
            live_session: None,
            draining: Vec::new(),
        }
    }

    /// Handles one command.
    pub fn update(&mut self, c: Command) -> (r: Effect)
        ensures
            (final(self)@, r@) == step(old(self)@, c),
            inv(old(self)@) ==> inv(final(self)@),
    {
        match c {
            Command::ScanNetwork => {
                if self.state == EngineState::Idle {
                    self.state = EngineState::Scanning;
                    Effect::BeginScan(self.prefix.clone())
                } else {
                    Effect::Nothing
                }
            },
            Command::ScanFinished(v) => {
                if self.state == EngineState::Scanning {
                    let out = copy_list(&v);
                    self.state = EngineState::Idle;
                    self.targets = Some(v);
                    self.selected = 0;
                    Effect::ScanCompleted(out)
                } else {
                    Effect::Nothing
                }
            },
            Command::SelectTarget(i) => {
                self.selected = i;
                Effect::Nothing
            },
            Command::SetThreadCount(n) => {
                self.params.set_thread_count(n);
                Effect::Nothing
            },
            Command::SetPacketSize(n) => {
                self.params.set_packet_size(n);
                Effect::Nothing
            },
            Command::SetBasePort(p) => {
                self.params.set_base_port(p);
                Effect::Nothing
            },
            Command::SetRandomizePort(b) => {
                self.params.randomize_port = b;
                Effect::Nothing
            },
            Command::StartFlood => {
                if self.state != EngineState::Idle || self.next_session == u64::MAX {
                    return Effect::Nothing;
                }
                let target = match &self.targets {
                    Some(t) => {
                        if (self.selected as usize) < t.len() {
                            t[self.selected as usize].clone()
                        } else {
                            return Effect::Nothing;
                        }
                    },
                    None => {
                        return Effect::Nothing;
                    },
                };
                let id = self.next_session;
                if let Some(prev) = self.live_session {
                    let ghost d0 = self.draining@;
                    self.draining.push(prev);
                    proof {
                        let d1 = self.draining@;
                        assert forall|x: u64| d1.contains(x) <==> (d0.contains(x) || x == prev) by {
                            if d1.contains(x) {
                                let k = choose|k: int| 0 <= k < d1.len() && d1[k] == x;
                                if k < d0.len() {
                                    assert(d0[k] == x);
                                }
                            }
                            if d0.contains(x) {
                                let k = choose|k: int| 0 <= k < d0.len() && d0[k] == x;
                                assert(d1[k] == x);
                            }
                            if x == prev {
                                assert(d1[d0.len() as int] == x);
                            }
                        }
                        assert(Set::new(|x: u64| d1.contains(x)) =~= Set::new(
                            |x: u64| d0.contains(x),
                        ).insert(prev));
                    }
                }
                self.state = EngineState::Flooding;
                self.stats = StatsSample { total_packets: 0, packets_per_second: 0, elapsed_ms: 0 };
                self.next_session = id + 1;
                self.live_session = Some(id);
                Effect::BeginFlood(FloodSession { id, target, params: self.params })
            },
            Command::StopFlood => {
                match self.live_session {
                    Some(id) => {
                        if self.state == EngineState::Flooding {
                            self.state = EngineState::Idle;
                            Effect::SignalStop(id)
                        } else {
                            Effect::Nothing
                        }
                    },
                    None => Effect::Nothing,
                }
            },
            Command::Stats(id, sample) => {
                if self.live_session == Some(id) {
                    self.stats = sample;
                    Effect::StatsUpdated(id, sample)
                } else {
                    Effect::Nothing
                }
            },
            Command::FloodFinished(id) => {
                if self.live_session == Some(id) {
                    if self.state == EngineState::Flooding {
                        self.state = EngineState::Idle;
                    }
                    self.live_session = None;
                    Effect::FloodFinished(id)
                } else if self.is_draining(id) {
                    let ghost d0 = self.draining@;
                    self.draining = without(&self.draining, id);
                    let ghost d1 = self.draining@;
                    assert(Set::new(|x: u64| d1.contains(x)) =~= Set::new(
                        |x: u64| d0.contains(x),
                    ).remove(id));
                    Effect::FloodFinished(id)
                } else {
                    Effect::Nothing
                }
            },
        }
    }

    pub fn state(&self) -> (r: EngineState)
        ensures
            r == self@.state,
    {
        self.state
    }

    /// The last sweep's result, or `None` before the first sweep.
    pub fn targets(&self) -> (r: Option<Vec<String>>)
        ensures
            match (r, self@.targets) {
                (Some(v), Some(t)) => views(v@) == t,
                (None, None) => true,
                _ => false,
            },
    {
        match &self.targets {
            Some(t) => Some(copy_list(t)),
            None => None,
        }
    }

    pub fn selected(&self) -> (r: u32)
        ensures
            r == self@.selected,
    {
        self.selected
    }

    pub fn params(&self) -> (r: FloodParameters)
        ensures
            r == self@.params,
    {
        self.params
    }

    /// The last sample taken of the current (or last) session.
    pub fn stats(&self) -> (r: StatsSample)
        ensures
            r == self@.stats,
    {
        self.stats
    }

    /// The session that was started and has not finished yet.
    pub fn live_session(&self) -> (r: Option<u64>)
        ensures
            r == self@.live_session,
    {
        self.live_session
    }

    /// Whether session `id` was stopped and its workers have not all ended yet.
    pub fn is_draining(&self, id: u64) -> (r: bool)
        ensures
            r == self@.draining.contains(id),
    {
        let mut i: usize = 0;
        while i < self.draining.len()
            invariant
                i <= self.draining@.len(),
                forall|k: int| 0 <= k < i ==> self.draining@[k] != id,
            decreases self.draining@.len() - i,
        {
            if self.draining[i] == id {
                return true;
            }
            i = i + 1;
        }
        false
    }
}

/// What every reachable engine satisfies: a flooding engine has a live session,
/// every session number in use was handed out already, the latest session is
/// not among the draining ones, and the parameters lie in their ranges.
pub open spec fn inv(s: EngineView) -> bool {
    &&& s.state == EngineState::Flooding ==> s.live_session is Some
    &&& s.live_session matches Some(id) ==> id < s.next_session && !s.draining.contains(id)
    &&& forall|d: u64| s.draining.contains(d) ==> d < s.next_session
    &&& s.params.valid()
}

/// The effects of a run of commands from `s`, in order.
pub open spec fn run(s: EngineView, cmds: Seq<Command>) -> Seq<EffectView>
    decreases cmds.len(),
{
    if cmds.len() == 0 {
        Seq::empty()
    } else {
        let (t, e) = step(s, cmds[0]);
        seq![e] + run(t, cmds.drop_first())
    }
}

/// Session `id` has finished, and no later session can have its number.
pub open spec fn finished(s: EngineView, id: u64) -> bool {
    &&& id < s.next_session
    &&& s.live_session != Some(id)
    &&& !s.draining.contains(id)
}

pub proof fn lemma_step_keeps_inv(s: EngineView, c: Command)
    requires
        inv(s),
    ensures
        inv(step(s, c).0),
{
}

/// Stopping while idle, or starting while flooding, changes nothing and reports
/// nothing.
pub proof fn lemma_guard_idempotent(s: EngineView, c: Command)
    requires
        (s.state == EngineState::Idle && c is StopFlood) || (s.state == EngineState::Flooding
            && c is StartFlood),
    ensures
        step(s, c) == (s, EffectView::Nothing),
{
}

proof fn lemma_finished_stays(s: EngineView, cmds: Seq<Command>, id: u64, k: int)
    requires
        finished(s, id),
        0 <= k < run(s, cmds).len(),
    ensures
        !(run(s, cmds)[k] is StatsUpdated && run(s, cmds)[k]->StatsUpdated_0 == id),
        run(s, cmds)[k] != EffectView::FloodFinished(id),
    decreases cmds.len(),
{
    let (t, e) = step(s, cmds[0]);
    let rest = cmds.drop_first();
    assert(run(s, cmds) == seq![e] + run(t, rest));
    if k > 0 {
        lemma_finished_stays(t, rest, id, k - 1);
        assert(run(s, cmds)[k] == run(t, rest)[k - 1]);
    }
}

/// Once a session's `FloodFinished` has been reported, no sample of that session
/// is reported any more, nor its `FloodFinished` a second time.
pub proof fn lemma_nothing_after_finish(s: EngineView, cmds: Seq<Command>, i: int, j: int, id: u64)
    requires
        inv(s),
        0 <= i < j < run(s, cmds).len(),
        run(s, cmds)[i] == EffectView::FloodFinished(id),
    ensures
        !(run(s, cmds)[j] is StatsUpdated && run(s, cmds)[j]->StatsUpdated_0 == id),
        run(s, cmds)[j] != EffectView::FloodFinished(id),
    decreases cmds.len(),
{
    let (t, e) = step(s, cmds[0]);
    let rest = cmds.drop_first();
    assert(run(s, cmds) == seq![e] + run(t, rest));
    assert(run(s, cmds)[j] == run(t, rest)[j - 1]);
    lemma_step_keeps_inv(s, cmds[0]);
    if i > 0 {
        assert(run(s, cmds)[i] == run(t, rest)[i - 1]);
        lemma_nothing_after_finish(t, rest, i - 1, j - 1, id);
    } else {
        lemma_finished_stays(t, rest, id, j - 1);
    }
}

} // verus!
