//! Timer state of the zjstatus integration: when to poll the configuration,
//! when to replay every output, and when the host timer must next wake.
//!
//! Times are elapsed durations from one origin chosen by the caller.

use vstd::prelude::*;

pub use crate::publisher::{Publisher, PublishedKey};
use crate::text::{chars_of, find, find_chars};
use crate::tree::PaneNode;

verus! {

/// The largest duration: `u64::MAX` seconds and 999 999 999 nanoseconds.
pub open spec fn max_nanos() -> nat {
    18446744073709551615999999999nat
}

/// A span of time with nanosecond precision, up to `Duration::max()`.
#[derive(Debug, Clone, Copy, PartialEq, Eq, Structural)]
pub struct Duration {
    nanos: u128,
}

impl Duration {
    /// The length in nanoseconds.
    pub closed spec fn spec_nanos(self) -> nat {
        self.nanos as nat
    }

    pub closed spec fn wf(self) -> bool {
        self.nanos <= max_nanos()
    }

    /// No time at all.
    pub fn zero() -> (d: Duration)
        ensures
            d.spec_nanos() == 0,
            d.wf(),
    {
        Duration { nanos: 0 }
    }

    /// The largest duration.
    pub fn max() -> (d: Duration)
        ensures
            d.spec_nanos() == max_nanos(),
            d.wf(),
    {
        Duration { nanos: 18446744073709551615999999999u128 }
    }

    /// A whole number of milliseconds.
    pub fn from_millis(ms: u64) -> (d: Duration)
        ensures
            d.spec_nanos() == ms as nat * 1000000,
            d.wf(),
    {
        assert(ms as nat * 1000000 <= max_nanos()) by (nonlinear_arith)
            requires ms <= u64::MAX;
        Duration { nanos: ms as u128 * 1000000u128 }
    }

    /// A number of nanoseconds, if it is not beyond the largest duration.
    pub fn from_nanos(nanos: u128) -> (d: Option<Duration>)
        ensures
            match d {
                Some(x) => x.spec_nanos() == nanos && x.wf(),
                None => nanos > max_nanos(),
            },
    {
        if nanos <= 18446744073709551615999999999u128 { Some(Duration { nanos }) } else { None }
    }

    /// The length in nanoseconds.
    pub fn as_nanos(&self) -> (n: u128)
        ensures
            n == self.spec_nanos(),
    {
        self.nanos
    }

    /// The sum, unless it is beyond the largest duration.
    pub fn checked_add(self, other: Duration) -> (r: Option<Duration>)
        requires
            self.wf(),
            other.wf(),
        ensures
            match r {
                Some(x) => x.spec_nanos() == self.spec_nanos() + other.spec_nanos() && x.wf(),
                None => self.spec_nanos() + other.spec_nanos() > max_nanos(),
            },
    {
        let sum = self.nanos + other.nanos;
        if sum <= 18446744073709551615999999999u128 { Some(Duration { nanos: sum }) } else { None }
    }

    /// The difference, or zero when `other` is longer.
    pub fn saturating_sub(self, other: Duration) -> (r: Duration)
        requires
            self.wf(),
        ensures
            r.spec_nanos() == if self.spec_nanos() >= other.spec_nanos() { self.spec_nanos() - other.spec_nanos() } else { 0 },
            r.wf(),
    {
        if self.nanos >= other.nanos { Duration { nanos: self.nanos - other.nanos } } else { Duration { nanos: 0 } }
    }

    /// Whether this is no longer than `other`.
    pub fn le(&self, other: &Duration) -> (b: bool)
        ensures
            b == (self.spec_nanos() <= other.spec_nanos()),
    {
        self.nanos <= other.nanos
    }
}

pub open spec fn opt_nanos(d: Option<Duration>) -> Option<nat> {
    match d {
        Some(x) => Some(x.spec_nanos()),
        None => None,
    }
}

pub open spec fn opt_wf(d: Option<Duration>) -> bool {
    match d {
        Some(x) => x.wf(),
        None => true,
    }
}

/// Independent work due on a wakeup. Both replay flags may be set; one
/// forced publication satisfies both.
#[derive(Debug, Default, Clone, Copy, PartialEq, Eq, Structural)]
pub struct DueTasks {
    /// Poll the external configuration once.
    pub config_poll: bool,
    /// Force publication of desired values and retired clears.
    pub full_replay: bool,
    /// Force publication after discovery of a new receiver.
    pub delayed_replay: bool,
}

/// A periodic task: its interval and next deadline.
#[derive(Debug, Default)]
struct Periodic {
    interval_ms: Option<u64>,
    deadline: Option<Duration>,
}

/// A periodic task as plain values.
pub struct PeriodicView {
    pub interval_ms: Option<u64>,
    pub deadline: Option<nat>,
}

impl View for Periodic {
    type V = PeriodicView;

    closed spec fn view(&self) -> PeriodicView {
        PeriodicView { interval_ms: self.interval_ms, deadline: opt_nanos(self.deadline) }
    }
}

impl Periodic {
    spec fn wf(&self) -> bool {
        opt_wf(self.deadline)
    }
}

/// `now` plus a number of milliseconds, unless beyond the largest duration.
pub open spec fn after_ms(now: nat, ms: u64) -> Option<nat> {
    if now + ms * 1000000 <= max_nanos() { Some((now + ms * 1000000) as nat) } else { None }
}

/// An interval of zero disables a task.
pub open spec fn nonzero(ms: Option<u64>) -> Option<u64> {
    match ms {
        Some(0) => None,
        other => other,
    }
}

/// A task after configuring its interval: an unchanged interval keeps the
/// deadline, a changed one starts from `now`.
pub open spec fn configure_periodic(p: PeriodicView, now: nat, ms: Option<u64>) -> PeriodicView {
    if p.interval_ms == nonzero(ms) {
        p
    } else {
        PeriodicView {
            interval_ms: nonzero(ms),
            deadline: match nonzero(ms) {
                Some(m) => after_ms(now, m),
                None => None,
            },
        }
    }
}

pub open spec fn periodic_due(p: PeriodicView, now: nat) -> bool {
    match p.deadline {
        Some(d) => d <= now,
        None => false,
    }
}

/// A task after a wake at `now`: a due task's next deadline is one interval
/// after `now`, however many periods were missed.
pub open spec fn take_periodic(p: PeriodicView, now: nat) -> PeriodicView {
    if periodic_due(p, now) {
        PeriodicView {
            deadline: match p.interval_ms {
                Some(m) => after_ms(now, m),
                None => None,
            },
            ..p
        }
    } else {
        p
    }
}

fn after(now: Duration, ms: u64) -> (r: Option<Duration>)
    requires
        now.wf(),
    ensures
        opt_nanos(r) == after_ms(now.spec_nanos(), ms),
        opt_wf(r),
{
    now.checked_add(Duration::from_millis(ms))
}

impl Periodic {
    fn configure(&mut self, now: Duration, interval_ms: Option<u64>)
        requires
            old(self).wf(),
            now.wf(),
        ensures
            final(self)@ == configure_periodic(old(self)@, now.spec_nanos(), interval_ms),
            final(self).wf(),
    {
        let interval_ms = match interval_ms {
            Some(0) => None,
            other => other,
        };
        let same = match (self.interval_ms, interval_ms) {
            (Some(a), Some(b)) => a == b,
            (None, None) => true,
            _ => false,
        };
        if !same {
            self.interval_ms = interval_ms;
            self.deadline = match interval_ms {
                Some(ms) => after(now, ms),
                None => None,
            };
        }
    }

    fn take_due(&mut self, now: Duration) -> (due: bool)
        requires
            old(self).wf(),
            now.wf(),
        ensures
            due == periodic_due(old(self)@, now.spec_nanos()),
            final(self)@ == take_periodic(old(self)@, now.spec_nanos()),
            final(self).wf(),
    {
        let due = match self.deadline {
            Some(d) => d.le(&now),
            None => false,
        };
        if !due {
            return false;
        }
        self.deadline = match self.interval_ms {
            Some(ms) => after(now, ms),
            None => None,
        };
        true
    }
}

/// One armed host wakeup over the configuration poll, the periodic replay
/// and the delayed replay.
#[derive(Debug, Default)]
pub struct Scheduler {
    config_poll: Periodic,
    full_replay: Periodic,
    delayed_replay: Option<Duration>,
    armed: Option<Duration>,
}

/// The state of a scheduler as plain values.
pub struct SchedulerView {
    pub config_poll: PeriodicView,
    pub full_replay: PeriodicView,
    pub delayed_replay: Option<nat>,
    pub armed: Option<nat>,
}

impl View for Scheduler {
    type V = SchedulerView;

    closed spec fn view(&self) -> SchedulerView {
        SchedulerView {
            config_poll: self.config_poll@,
            full_replay: self.full_replay@,
            delayed_replay: opt_nanos(self.delayed_replay),
            armed: opt_nanos(self.armed),
        }
    }
}

pub open spec fn min_opt(a: Option<nat>, b: Option<nat>) -> Option<nat> {
    match (a, b) {
        (Some(x), Some(y)) => Some(if x <= y { x } else { y }),
        (Some(x), None) => Some(x),
        (None, y) => y,
    }
}

/// The earliest pending deadline.
pub open spec fn earliest(s: SchedulerView) -> Option<nat> {
    min_opt(min_opt(s.config_poll.deadline, s.full_replay.deadline), s.delayed_replay)
}

pub open spec fn configure_spec(s: SchedulerView, now: nat, poll_ms: Option<u64>, replay_ms: Option<u64>) -> SchedulerView {
    let replay = configure_periodic(s.full_replay, now, replay_ms);
    SchedulerView {
        config_poll: configure_periodic(s.config_poll, now, poll_ms),
        full_replay: replay,
        delayed_replay: if replay.interval_ms is None { None } else { s.delayed_replay },
        armed: s.armed,
    }
}

pub open spec fn delay_replay_spec(s: SchedulerView, now: nat, delay: nat) -> SchedulerView {
    if s.full_replay.interval_ms is Some && now + delay <= max_nanos() {
        SchedulerView { delayed_replay: min_opt(s.delayed_replay, Some(now + delay)), ..s }
    } else {
        s
    }
}

pub open spec fn due_at(d: Option<nat>, now: nat) -> bool {
    match d {
        Some(x) => x <= now,
        None => false,
    }
}

pub open spec fn take_due_spec(s: SchedulerView, now: nat) -> (SchedulerView, DueTasks) {
    (
        SchedulerView {
            config_poll: take_periodic(s.config_poll, now),
            full_replay: take_periodic(s.full_replay, now),
            delayed_replay: if due_at(s.delayed_replay, now) { None } else { s.delayed_replay },
            armed: if due_at(s.armed, now) { None } else { s.armed },
        },
        DueTasks {
            config_poll: periodic_due(s.config_poll, now),
            full_replay: periodic_due(s.full_replay, now),
            delayed_replay: due_at(s.delayed_replay, now),
        },
    )
}

/// Whether `arm` asks for a new host timeout: some deadline is pending and
/// no wake is armed at or before it.
pub open spec fn arms(s: SchedulerView) -> bool {
    match earliest(s) {
        None => false,
        Some(d) => match s.armed {
            Some(a) => a > d,
            None => true,
        },
    }
}

impl Scheduler {
    spec fn wf(&self) -> bool {
        self.config_poll.wf() && self.full_replay.wf() && opt_wf(self.delayed_replay) && opt_wf(self.armed)
    }

    /// Whether the scheduler's times are all valid durations.
    pub closed spec fn valid(&self) -> bool {
        self.wf()
    }

    /// Nothing configured, nothing armed.
    pub fn new() -> (s: Scheduler)
        ensures
            s@ == (SchedulerView {
                config_poll: PeriodicView { interval_ms: None, deadline: None },
                full_replay: PeriodicView { interval_ms: None, deadline: None },
                delayed_replay: None,
                armed: None,
            }),
            s.valid(),
    {
        Scheduler {
            config_poll: Periodic { interval_ms: None, deadline: None },
            full_replay: Periodic { interval_ms: None, deadline: None },
            delayed_replay: None,
            armed: None,
        }
    }

    /// Set the intervals of the two periodic tasks in milliseconds; `None`
    /// or zero disables a task. An unchanged interval keeps its deadline; a
    /// changed one starts from `now`. Disabling replay cancels the delayed replay.
    pub fn configure(&mut self, now: Duration, config_poll_ms: Option<u64>, replay_ms: Option<u64>)
        requires
            old(self).valid(),
            now.wf(),
        ensures
            final(self)@ == configure_spec(old(self)@, now.spec_nanos(), config_poll_ms, replay_ms),
            final(self).valid(),
    {
        self.config_poll.configure(now, config_poll_ms);
        self.full_replay.configure(now, replay_ms);
        if self.full_replay.interval_ms.is_none() {
            self.delayed_replay = None;
        }
    }

    /// Request a one-shot replay `delay` after `now`, if replay is enabled;
    /// repeated requests keep the earliest deadline.
    pub fn delay_replay(&mut self, now: Duration, delay: Duration)
        requires
            old(self).valid(),
            now.wf(),
            delay.wf(),
        ensures
            final(self)@ == delay_replay_spec(old(self)@, now.spec_nanos(), delay.spec_nanos()),
            final(self).valid(),
    {
        if self.full_replay.interval_ms.is_some() {
            match now.checked_add(delay) {
                Some(deadline) => {
                    self.delayed_replay = Some(match self.delayed_replay {
                        Some(previous) => if previous.le(&deadline) { previous } else { deadline },
                        None => deadline,
                    });
                },
                None => {},
            }
        }
    }

    /// Consume the tasks due at `now`; a missed run of periods gives one flag.
    pub fn take_due(&mut self, now: Duration) -> (due: DueTasks)
        requires
            old(self).valid(),
            now.wf(),
        ensures
            (final(self)@, due) == take_due_spec(old(self)@, now.spec_nanos()),
            final(self).valid(),
    {
        let armed_due = match self.armed {
            Some(a) => a.le(&now),
            None => false,
        };
        if armed_due {
            self.armed = None;
        }
        let delayed_replay = match self.delayed_replay {
            Some(d) => d.le(&now),
            None => false,
        };
        if delayed_replay {
            self.delayed_replay = None;
        }
        let config_poll = self.config_poll.take_due(now);
        let full_replay = self.full_replay.take_due(now);
        DueTasks { config_poll, full_replay, delayed_replay }
    }

    /// The delay for a new host timeout, only when one is needed: the time to
    /// the earliest deadline (zero when overdue), unless a wake is already
    /// armed at or before it.
    pub fn arm(&mut self, now: Duration) -> (r: Option<Duration>)
        requires
            old(self).valid(),
            now.wf(),
        ensures
            arms(old(self)@) ==> (r matches Some(d) && final(self)@ == (SchedulerView { armed: earliest(old(self)@), ..old(self)@ })
                && d.spec_nanos() == if earliest(old(self)@)->Some_0 >= now.spec_nanos() {
                    earliest(old(self)@)->Some_0 - now.spec_nanos()
                } else {
                    0
                }),
            !arms(old(self)@) ==> r is None && final(self)@ == old(self)@,
            final(self).valid(),
    {
        let first = match (self.config_poll.deadline, self.full_replay.deadline) {
            (Some(a), Some(b)) => Some(if a.le(&b) { a } else { b }),
            (Some(a), None) => Some(a),
            (None, b) => b,
        };
        let deadline = match (first, self.delayed_replay) {
            (Some(a), Some(b)) => if a.le(&b) { a } else { b },
            (Some(a), None) => a,
            (None, Some(b)) => b,
            (None, None) => return None,
        };
        match self.armed {
            Some(a) => if a.le(&deadline) {
                return None;
            },
            None => {},
        }
        self.armed = Some(deadline);
        Some(deadline.saturating_sub(now))
    }
}


/// Repeated wakes are harmless: a second wake at the same time finds
/// nothing due, provided no interval is zero (configuring never stores one).
pub proof fn law_repeated_wake_finds_nothing(s: SchedulerView, now: nat)
    requires
        s.config_poll.interval_ms != Some(0u64),
        s.full_replay.interval_ms != Some(0u64),
    ensures
        take_due_spec(take_due_spec(s, now).0, now).1 == (DueTasks { config_poll: false, full_replay: false, delayed_replay: false }),
{
}

/// Reloading with unchanged intervals keeps both periodic deadlines, so
/// repeated reloads cannot starve the periodic work.
pub proof fn law_unchanged_intervals_keep_deadlines(s: SchedulerView, now: nat, poll_ms: Option<u64>, replay_ms: Option<u64>)
    requires
        nonzero(poll_ms) == s.config_poll.interval_ms,
        nonzero(replay_ms) == s.full_replay.interval_ms,
    ensures
        configure_spec(s, now, poll_ms, replay_ms).config_poll == s.config_poll,
        configure_spec(s, now, poll_ms, replay_ms).full_replay == s.full_replay,
{
}

/// A further replay request never postpones a pending delayed replay.
pub proof fn law_replay_requests_coalesce(s: SchedulerView, now: nat, delay: nat)
    requires
        s.delayed_replay is Some,
    ensures
        delay_replay_spec(s, now, delay).delayed_replay matches Some(d) && d <= s.delayed_replay->Some_0,
{
}

/// Once a wake is armed, arming again without new work asks for no second
/// host timeout.
pub proof fn law_arm_is_idempotent(s: SchedulerView)
    requires
        arms(s),
    ensures
        !arms(SchedulerView { armed: earliest(s), ..s }),
{
}


/// Whether a plugin URL names zjstatus.
pub open spec fn is_zjstatus_url(url: Option<String>) -> bool {
    match url {
        Some(u) => find(u@, "zjstatus"@) is Some,
        None => false,
    }
}

/// The zjstatus receivers among a tab's panes: `(tab position, pane ID)` of
/// every plugin pane whose URL names zjstatus.
pub open spec fn tab_receivers(panes: Seq<PaneNode>, position: usize) -> Seq<(usize, u32)>
    decreases panes.len(),
{
    if panes.len() == 0 {
        Seq::empty()
    } else {
        let rest = tab_receivers(panes.drop_last(), position);
        let p = panes.last();
        if p.is_plugin && is_zjstatus_url(p.plugin_url) { rest.push((position, p.id)) } else { rest }
    }
}

/// The zjstatus receivers of a pane manifest, tab by tab.
pub open spec fn receivers(manifest: Seq<(usize, Vec<PaneNode>)>) -> Seq<(usize, u32)>
    decreases manifest.len(),
{
    if manifest.len() == 0 {
        Seq::empty()
    } else {
        receivers(manifest.drop_last()) + tab_receivers(manifest.last().1@, manifest.last().0)
    }
}

fn zjstatus_url(url: &Option<String>) -> (b: bool)
    ensures
        b == is_zjstatus_url(*url),
{
    match url {
        Some(u) => {
            let cs = chars_of(u.as_str());
            let p = chars_of("zjstatus");
            find_chars(&cs, &p).is_some()
        },
        None => false,
    }
}

fn pair_in(v: &Vec<(usize, u32)>, x: (usize, u32)) -> (b: bool)
    ensures
        b == v@.contains(x),
{
    let mut i: usize = 0;
    while i < v.len()
        invariant
            i <= v@.len(),
            forall|j: int| 0 <= j < i ==> v@[j] != x,
        decreases v.len() - i,
    {
        if v[i].0 == x.0 && v[i].1 == x.1 {
            assert(v@[i as int] == x);
            return true;
        }
        i = i + 1;
    }
    false
}

fn all_in(a: &Vec<(usize, u32)>, b: &Vec<(usize, u32)>) -> (r: bool)
    ensures
        r == a@.to_set().subset_of(b@.to_set()),
{
    let mut i: usize = 0;
    while i < a.len()
        invariant
            i <= a@.len(),
            forall|j: int| 0 <= j < i ==> b@.contains(#[trigger] a@[j]),
        decreases a.len() - i,
    {
        if !pair_in(b, a[i]) {
            assert(a@.to_set().contains(a@[i as int]));
            return false;
        }
        i = i + 1;
    }
    assert forall|x: (usize, u32)| a@.to_set().contains(x) implies b@.to_set().contains(x) by {
        let j = choose|j: int| 0 <= j < a@.len() && a@[j] == x;
        assert(b@.contains(a@[j]));
    }
    true
}

/// Refresh the known zjstatus receivers. A changed set asks for an immediate
/// full publication and a delayed replay for receivers still starting up.
pub fn update_zjstatus_plugin_panes(previous: &mut Vec<(usize, u32)>, pane_manifest: &[(usize, Vec<PaneNode>)]) -> (changed: bool)
    ensures
        changed == (old(previous)@.to_set() != receivers(pane_manifest@).to_set()),
        final(previous)@.to_set() == receivers(pane_manifest@).to_set(),
        !changed ==> final(previous)@ == old(previous)@,
{
    let ghost m = pane_manifest@;
    let mut now: Vec<(usize, u32)> = Vec::new();
    let mut i: usize = 0;
    while i < pane_manifest.len()
        invariant
            i <= m.len(),
            m == pane_manifest@,
            now@ == receivers(m.subrange(0, i as int)),
        decreases pane_manifest.len() - i,
    {
        assert(m.subrange(0, i + 1).drop_last() =~= m.subrange(0, i as int));
        let panes = &pane_manifest[i].1;
        let position = pane_manifest[i].0;
        let ghost start = now@;
        let mut j: usize = 0;
        assert(tab_receivers(panes@.subrange(0, 0), position) =~= Seq::<(usize, u32)>::empty());
        assert(now@ =~= start + tab_receivers(panes@.subrange(0, 0), position));
        while j < panes.len()
            invariant
                i < m.len(),
                m == pane_manifest@,
                panes@ == m[i as int].1@,
                position == m[i as int].0,
                j <= panes@.len(),
                now@ == start + tab_receivers(panes@.subrange(0, j as int), position),
            decreases panes.len() - j,
        {
            assert(panes@.subrange(0, j + 1).drop_last() =~= panes@.subrange(0, j as int));
            if panes[j].is_plugin && zjstatus_url(&panes[j].plugin_url) {
                now.push((position, panes[j].id));
            }
            assert(now@ =~= start + tab_receivers(panes@.subrange(0, j + 1), position));
            j = j + 1;
        }
        assert(panes@.subrange(0, panes@.len() as int) =~= panes@);
        i = i + 1;
    }
    assert(m.subrange(0, m.len() as int) =~= m);
    let same = all_in(&now, previous) && all_in(previous, &now);
    proof {
        if same {
            assert(now@.to_set() =~= previous@.to_set());
        } else if now@.to_set() == previous@.to_set() {
            assert(now@.to_set().subset_of(previous@.to_set()));
        }
    }
    if same {
        return false;
    }
    *previous = now;
    true
}

} // verus!
