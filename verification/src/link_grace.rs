//! Connection grace for an attached host link: a dropped link is a normal
//! event, so nothing is shown while it heals within the grace window; past
//! the window one "disconnected" notice is raised, and one "recovered"
//! notice follows only if a disconnect was announced.
//!
//! A pure state machine: the host loop calls `tick` on each idle step with
//! the current link health and a monotonic time in milliseconds.

use vstd::prelude::*;

verus! {

/// Initial grace (ms): at attach time the host may not be listening yet.
pub const LINK_GRACE_INITIAL: u64 = 5000;

/// Reconnect grace (ms): once connected, a blip that heals within this
/// window is silent.
pub const LINK_GRACE_RECONNECT: u64 = 1000;

/// Notice text for a disconnect past the grace window.
pub const LINK_DOWN_NOTICE: &'static str = "连接断开，重连中…";

/// Notice text for the recovery after an announced disconnect.
pub const LINK_RECOVERED_NOTICE: &'static str = "Host 连接已恢复";

/// Health of the host link as seen by the driver.
#[derive(Debug, Clone, Copy, PartialEq, Eq, Structural)]
pub enum LinkHealth {
    Up,
    Down,
}

/// A one-time notice the grace machine asks the host to show.
#[derive(Debug, Clone, Copy, PartialEq, Eq, Structural)]
pub enum LinkNotice {
    /// Down past the grace window (raised once per outage).
    Disconnected,
    /// Back up after an announced outage (raised once).
    Recovered,
}

/// Abstract state: whether the link was ever up, since when it has been
/// down, and whether the current outage was announced.
pub struct GraceState {
    pub ever_up: bool,
    pub down_since: Option<u64>,
    pub announced_down: bool,
}

/// One tick: the next state and the notice to raise, if any.
///
/// Up: the outage (if any) ends and the link counts as having been up; a
/// `Recovered` notice comes only when the outage had been announced. Down:
/// the outage start is kept (or set to `now`); once `now - start` (zero if
/// `now` is earlier) reaches the grace for this stage (initial until the
/// link was ever up, reconnect after) and nothing was announced yet, a
/// `Disconnected` notice is raised.
pub open spec fn tick_spec(
    s: GraceState,
    health: LinkHealth,
    now: u64,
    grace_initial: u64,
    grace_reconnect: u64,
) -> (GraceState, Option<LinkNotice>) {
    match health {
        LinkHealth::Up => {
            let was_down = s.down_since.is_some();
            if was_down && s.announced_down {
                (
                    GraceState { ever_up: true, down_since: None, announced_down: false },
                    Some(LinkNotice::Recovered),
                )
            } else {
                (GraceState { ever_up: true, down_since: None, ..s }, None)
            }
        },
        LinkHealth::Down => {
            let since = match s.down_since {
                Some(t) => t,
                None => now,
            };
            let grace = if s.ever_up {
                grace_reconnect
            } else {
                grace_initial
            };
            let elapsed: int = if now >= since {
                now - since
            } else {
                0
            };
            if !s.announced_down && elapsed >= grace {
                (
                    GraceState { down_since: Some(since), announced_down: true, ..s },
                    Some(LinkNotice::Disconnected),
                )
            } else {
                (GraceState { down_since: Some(since), ..s }, None)
            }
        },
    }
}

/// The grace state machine.
#[derive(Debug)]
pub struct LinkGrace {
    ever_up: bool,
    down_since: Option<u64>,
    announced_down: bool,
}

impl View for LinkGrace {
    type V = GraceState;

    closed spec fn view(&self) -> GraceState {
        GraceState {
            ever_up: self.ever_up,
            down_since: self.down_since,
            announced_down: self.announced_down,
        }
    }
}

/// An announced outage is an ongoing one.
pub open spec fn grace_wf(s: GraceState) -> bool {
    s.announced_down ==> s.down_since.is_some()
}

impl Default for LinkGrace {
    fn default() -> (r: Self)
        ensures
            r@ == (GraceState { ever_up: false, down_since: None, announced_down: false }),
    {
        LinkGrace::new()
    }
}

impl LinkGrace {
    /// Never connected, not down, nothing announced.
    pub fn new() -> (r: Self)
        ensures
            r@ == (GraceState { ever_up: false, down_since: None, announced_down: false }),
    {
        LinkGrace { ever_up: false, down_since: None, announced_down: false }
    }

    /// Advances the machine by one host tick; returns the notice to show, if
    /// any (see [`tick_spec`]).
    pub fn tick(
        &mut self,
        health: LinkHealth,
        now: u64,
        grace_initial: u64,
        grace_reconnect: u64,
    ) -> (n: Option<LinkNotice>)
        ensures
            (final(self)@, n) == tick_spec(old(self)@, health, now, grace_initial, grace_reconnect),
            grace_wf(old(self)@) ==> grace_wf(final(self)@),
    {
        match health {
            LinkHealth::Up => {
                let was_down = self.down_since.is_some();
                self.down_since = None;
                self.ever_up = true;
                if was_down && self.announced_down {
                    self.announced_down = false;
                    return Some(LinkNotice::Recovered);
                }
                None
            },
            LinkHealth::Down => {
                let since = match self.down_since {
                    Some(t) => t,
                    None => now,
                };
                self.down_since = Some(since);
                let grace = if self.ever_up {
                    grace_reconnect
                } else {
                    grace_initial
                };
                let elapsed = now.saturating_sub(since);
                if !self.announced_down && elapsed >= grace {
                    self.announced_down = true;
                    return Some(LinkNotice::Disconnected);
                }
                None
            },
        }
    }
}

/// Ticks applied in order: the final state and the notices raised.
pub open spec fn run_ticks(
    s: GraceState,
    events: Seq<(LinkHealth, u64)>,
    grace_initial: u64,
    grace_reconnect: u64,
) -> (GraceState, Seq<LinkNotice>)
    decreases events.len(),
{
    if events.len() == 0 {
        (s, seq![])
    } else {
        let (s1, ns) = run_ticks(s, events.drop_last(), grace_initial, grace_reconnect);
        let (s2, n) = tick_spec(s1, events.last().0, events.last().1, grace_initial, grace_reconnect);
        (
            s2,
            match n {
                Some(x) => ns.push(x),
                None => ns,
            },
        )
    }
}

/// Notices alternate, starting with a disconnect: `Disconnected` at even
/// positions, `Recovered` at odd ones.
pub open spec fn alternating(ns: Seq<LinkNotice>) -> bool {
    forall|i: int|
        0 <= i < ns.len() ==> (#[trigger] ns[i] == LinkNotice::Disconnected) == (i % 2 == 0)
}

/// Over any run from a fresh machine, notices alternate strictly:
/// disconnected, recovered, disconnected, ... A disconnect is announced at
/// most once per outage, and a recovery is announced only after an
/// announced disconnect. The state's `announced_down` tells whether the last
/// notice was a disconnect.
pub proof fn law_notices_alternate(
    events: Seq<(LinkHealth, u64)>,
    grace_initial: u64,
    grace_reconnect: u64,
)
    ensures
        alternating(
            run_ticks(
                GraceState { ever_up: false, down_since: None, announced_down: false },
                events,
                grace_initial,
                grace_reconnect,
            ).1,
        ),
        run_ticks(
            GraceState { ever_up: false, down_since: None, announced_down: false },
            events,
            grace_initial,
            grace_reconnect,
        ).0.announced_down == (run_ticks(
            GraceState { ever_up: false, down_since: None, announced_down: false },
            events,
            grace_initial,
            grace_reconnect,
        ).1.len() % 2 == 1),
        grace_wf(
            run_ticks(
                GraceState { ever_up: false, down_since: None, announced_down: false },
                events,
                grace_initial,
                grace_reconnect,
            ).0,
        ),
    decreases events.len(),
{
    let init = GraceState { ever_up: false, down_since: None, announced_down: false };
    if events.len() > 0 {
        law_notices_alternate(events.drop_last(), grace_initial, grace_reconnect);
        let (s1, ns) = run_ticks(init, events.drop_last(), grace_initial, grace_reconnect);
        let (s2, n) = tick_spec(s1, events.last().0, events.last().1, grace_initial, grace_reconnect);
        match n {
            Some(x) => {
                let ns2 = ns.push(x);
                assert forall|i: int| 0 <= i < ns2.len() implies (#[trigger] ns2[i]
                    == LinkNotice::Disconnected) == (i % 2 == 0) by {
                    if i < ns.len() {
                        assert(ns2[i] == ns[i]);
                    }
                }
            },
            None => {},
        }
    }
}

/// A transient drop that heals within the grace window raises nothing, not
/// even a recovery notice: Down at `t0`, then Up before `t0 + grace` for the
/// current stage.
pub proof fn law_blip_within_grace_is_silent(
    s: GraceState,
    t0: u64,
    t1: u64,
    grace_initial: u64,
    grace_reconnect: u64,
)
    requires
        grace_wf(s),
        !s.announced_down,
        s.down_since.is_none(),
        0 < (if s.ever_up {
            grace_reconnect
        } else {
            grace_initial
        }),
    ensures
        tick_spec(s, LinkHealth::Down, t0, grace_initial, grace_reconnect).1.is_none(),
        tick_spec(
            tick_spec(s, LinkHealth::Down, t0, grace_initial, grace_reconnect).0,
            LinkHealth::Up,
            t1,
            grace_initial,
            grace_reconnect,
        ).1.is_none(),
{
}

/// The fresh machine: never connected, not down, nothing announced.
pub open spec fn fresh_grace() -> GraceState {
    GraceState { ever_up: false, down_since: None, announced_down: false }
}

/// Ticks applied in order: the final state and, per tick, what it raised.
pub open spec fn tick_run(
    s: GraceState,
    events: Seq<(LinkHealth, u64)>,
    grace_initial: u64,
    grace_reconnect: u64,
) -> (GraceState, Seq<Option<LinkNotice>>)
    decreases events.len(),
{
    if events.len() == 0 {
        (s, seq![])
    } else {
        let (s1, ns) = tick_run(s, events.drop_last(), grace_initial, grace_reconnect);
        let (s2, n) = tick_spec(s1, events.last().0, events.last().1, grace_initial, grace_reconnect);
        (s2, ns.push(n))
    }
}

/// Where the run of Down ticks that reaches tick `k` starts.
pub open spec fn run_start(events: Seq<(LinkHealth, u64)>, k: int) -> int
    decreases k,
{
    if k > 0 && events[k - 1].0 == LinkHealth::Down {
        run_start(events, k - 1)
    } else {
        k
    }
}

/// Some tick before `j` saw the link up.
pub open spec fn up_before(events: Seq<(LinkHealth, u64)>, j: int) -> bool {
    exists|i: int| 0 <= i < j && events[i].0 == LinkHealth::Up
}

/// Some tick from `a` up to (not including) `k` raised `Disconnected`.
pub open spec fn announced_between(ns: Seq<Option<LinkNotice>>, a: int, k: int) -> bool {
    exists|i: int| a <= i < k && ns[i] == Some(LinkNotice::Disconnected)
}

/// Time from `since` to `now`, zero if `now` is earlier.
pub open spec fn elapsed_ms(now: u64, since: u64) -> int {
    if now >= since {
        now - since
    } else {
        0
    }
}

/// What tick `k` of a run raises, by the runs of Down ticks: a Down tick
/// raises `Disconnected` exactly when no earlier tick of its Down run did
/// and the time since that run's first tick has reached the grace (the
/// reconnect grace when some tick before the run saw the link up, the
/// initial grace otherwise); an Up tick raises `Recovered` exactly when the
/// tick before it was Down and its Down run raised `Disconnected`.
pub open spec fn link_notice_rule(
    events: Seq<(LinkHealth, u64)>,
    ns: Seq<Option<LinkNotice>>,
    k: int,
    grace_initial: u64,
    grace_reconnect: u64,
) -> bool {
    match events[k].0 {
        LinkHealth::Down => {
            let a = run_start(events, k);
            ns[k] == if !announced_between(ns, a, k) && elapsed_ms(events[k].1, events[a].1) >= (if up_before(
                events,
                a,
            ) {
                grace_reconnect
            } else {
                grace_initial
            }) {
                Some(LinkNotice::Disconnected)
            } else {
                None
            }
        },
        LinkHealth::Up => ns[k] == if k > 0 && events[k - 1].0 == LinkHealth::Down && announced_between(
            ns,
            run_start(events, k - 1),
            k,
        ) {
            Some(LinkNotice::Recovered)
        } else {
            None
        },
    }
}

proof fn lemma_tick_run_prefix(s: GraceState, events: Seq<(LinkHealth, u64)>, k: int, gi: u64, gr: u64)
    requires
        0 <= k <= events.len(),
    ensures
        tick_run(s, events, gi, gr).1.len() == events.len(),
        tick_run(s, events.take(k), gi, gr).1 == tick_run(s, events, gi, gr).1.take(k),
    decreases events.len(),
{
    if events.len() > 0 {
        lemma_tick_run_prefix(s, events.drop_last(), if k < events.len() {
            k
        } else {
            0
        }, gi, gr);
        if k < events.len() {
            assert(events.take(k) =~= events.drop_last().take(k));
        } else {
            assert(events.take(k) =~= events);
        }
    } else {
        assert(events.take(k) =~= events);
    }
}

proof fn lemma_run_start(events: Seq<(LinkHealth, u64)>, k: int)
    requires
        0 <= k < events.len(),
    ensures
        0 <= run_start(events, k) <= k,
        forall|i: int| run_start(events, k) <= i < k ==> events[i].0 == LinkHealth::Down,
    decreases k,
{
    if k > 0 && events[k - 1].0 == LinkHealth::Down {
        lemma_run_start(events, k - 1);
    }
}

/// The state after the first `k` ticks, read from the ticks and what they
/// raised; and the rule for every tick before `k`.
proof fn lemma_grace_prefix(events: Seq<(LinkHealth, u64)>, k: int, gi: u64, gr: u64)
    requires
        0 <= k <= events.len(),
    ensures
        ({
            let st = tick_run(fresh_grace(), events.take(k), gi, gr).0;
            let ns = tick_run(fresh_grace(), events, gi, gr).1;
            &&& st.ever_up == up_before(events, k)
            &&& if k > 0 && events[k - 1].0 == LinkHealth::Down {
                &&& st.down_since == Some(events[run_start(events, k - 1)].1)
                &&& st.announced_down == announced_between(ns, run_start(events, k - 1), k)
            } else {
                &&& st.down_since.is_none()
                &&& !st.announced_down
            }
            &&& forall|j: int| 0 <= j < k ==> link_notice_rule(events, ns, j, gi, gr)
        }),
    decreases k,
{
    let ns = tick_run(fresh_grace(), events, gi, gr).1;
    lemma_tick_run_prefix(fresh_grace(), events, k, gi, gr);
    if k == 0 {
        assert(events.take(0) =~= Seq::<(LinkHealth, u64)>::empty());
    } else {
        let j = k - 1;
        lemma_grace_prefix(events, j, gi, gr);
        lemma_tick_run_prefix(fresh_grace(), events, j, gi, gr);
        assert(events.take(k).drop_last() =~= events.take(j));
        assert(events.take(k).last() == events[j]);
        let s0 = tick_run(fresh_grace(), events.take(j), gi, gr).0;
        let (s1, n) = tick_spec(s0, events[j].0, events[j].1, gi, gr);
        assert(tick_run(fresh_grace(), events.take(k), gi, gr).1 == tick_run(fresh_grace(), events.take(j), gi, gr).1.push(
            n,
        ));
        assert(ns.take(k)[j] == ns[j]);
        assert(ns[j] == n);
        lemma_run_start(events, j);
        let a = run_start(events, j);
        if events[j].0 == LinkHealth::Down {
            if j > 0 && events[j - 1].0 == LinkHealth::Down {
                assert(a == run_start(events, j - 1));
            } else {
                assert(a == j);
                assert(!announced_between(ns, j, j));
            }
            assert(up_before(events, j) == up_before(events, a)) by {
                if up_before(events, j) {
                    let i = choose|i: int| 0 <= i < j && events[i].0 == LinkHealth::Up;
                    assert(i < a);
                }
            }
            assert(up_before(events, k) == up_before(events, j)) by {
                if up_before(events, k) {
                    let i = choose|i: int| 0 <= i < k && events[i].0 == LinkHealth::Up;
                    assert(i < j);
                }
            }
            assert(announced_between(ns, a, k) == (announced_between(ns, a, j) || ns[j] == Some(
                LinkNotice::Disconnected,
            ))) by {
                if announced_between(ns, a, k) {
                    let i = choose|i: int| a <= i < k && ns[i] == Some(LinkNotice::Disconnected);
                    if i < j {
                        assert(announced_between(ns, a, j));
                    }
                }
            }
        } else {
            assert(up_before(events, k));
        }
        assert forall|i: int| 0 <= i < k implies link_notice_rule(events, ns, i, gi, gr) by {
            if i < j {
            }
        }
    }
}

/// Every tick of a run from a fresh machine raises what
/// [`link_notice_rule`] says: a disconnect once per Down run, past the
/// grace of its stage counted from the run's first tick, and a recovery on
/// the Up tick that ends a Down run whose disconnect was announced.
pub proof fn law_link_grace_runs(events: Seq<(LinkHealth, u64)>, grace_initial: u64, grace_reconnect: u64)
    ensures
        tick_run(fresh_grace(), events, grace_initial, grace_reconnect).1.len() == events.len(),
        forall|k: int|
            0 <= k < events.len() ==> link_notice_rule(
                events,
                tick_run(fresh_grace(), events, grace_initial, grace_reconnect).1,
                k,
                grace_initial,
                grace_reconnect,
            ),
{
    lemma_tick_run_prefix(fresh_grace(), events, events.len() as int, grace_initial, grace_reconnect);
    lemma_grace_prefix(events, events.len() as int, grace_initial, grace_reconnect);
}

} // verus!
