use vstd::prelude::*;

use crate::event::{in_range, Event, StoreError};
use crate::store::{lemma_filter_keeps, range_of, EventStore};

verus! {

/// Seconds between two scans.
pub const TICK_SECS: u64 = 60;

/// How far past the current instant a scan looks, in seconds.
pub const LOOKAHEAD_SECS: i64 = 300;

/// The alert shown for one event about to start.
#[derive(Debug)]
pub struct Notice {
    pub event_id: i64,
    pub title: String,
    pub body: String,
}

/// `n` is the alert for `e`.
pub open spec fn notice_for(n: Notice, e: Event) -> bool {
    &&& n.event_id == e.id
    &&& n.title@ == "Upcoming Event"@
    &&& n.body@ == e.title@ + " is starting soon!"@
}

/// One alert for each event, in the same order.
pub open spec fn notices_match(ns: Seq<Notice>, es: Seq<Event>) -> bool {
    &&& ns.len() == es.len()
    &&& forall|i: int| 0 <= i < ns.len() ==> notice_for(#[trigger] ns[i], es[i])
}

/// The alert for an event about to start.
pub fn notice_of(e: &Event) -> (n: Notice)
    ensures
        notice_for(n, *e),
{
    let body = e.title.clone().concat(" is starting soon!");
    Notice { event_id: e.id, title: String::from_str("Upcoming Event"), body }
}

fn copy_notice(n: &Notice) -> (r: Notice)
    ensures
        r == *n,
{
    Notice { event_id: n.event_id, title: n.title.clone(), body: n.body.clone() }
}

/// The alerts of one tick: one per event that the scan found, none when the
/// scan failed.
pub fn tick_notices(scan: &Result<Vec<Event>, StoreError>) -> (r: Vec<Notice>)
    ensures
        match scan {
            Ok(es) => notices_match(r@, es@),
            Err(_) => r@.len() == 0,
        },
{
    let mut r: Vec<Notice> = Vec::new();
    match scan {
        Ok(es) => {
            let mut i: usize = 0;
            while i < es.len()
                invariant
                    i <= es@.len(),
                    r@.len() == i,
                    forall|j: int| 0 <= j < i ==> notice_for(#[trigger] r@[j], es@[j]),
                decreases es@.len() - i,
            {
                r.push(notice_of(&es[i]));
                i = i + 1;
            }
        },
        Err(_) => {},
    }
    r
}

/// The window a scan at `now` covers, `[now, now + lookahead]` in seconds,
/// or `None` when its end does not fit in an `i64`.
pub fn scan_window(now: i64, lookahead: i64) -> (r: Option<(i64, i64)>)
    ensures
        r == (if i64::MIN <= now + lookahead <= i64::MAX {
            Some((now, (now + lookahead) as i64))
        } else {
            None
        }),
{
    match now.checked_add(lookahead) {
        Some(end) => Some((now, end)),
        None => None,
    }
}

/// The RFC 3339 text, in UTC with a `Z` and whole seconds, of the instant
/// `secs` seconds after the Unix epoch.
pub uninterp spec fn utc_text(secs: i64) -> Seq<char>;

/// Relies on chrono's `DateTime::<Utc>::from_timestamp`, which gives `None`
/// for an instant it cannot represent, and `to_rfc3339_opts`, which writes the
/// instant as text; the text depends on the instant alone.
#[verifier::external_body]
fn format_utc(secs: i64) -> (r: Option<String>)
    ensures
        r matches Some(t) ==> t@ == utc_text(secs),
{
    match chrono::DateTime::<chrono::Utc>::from_timestamp(secs, 0) {
        Some(t) => Some(t.to_rfc3339_opts(chrono::SecondsFormat::Secs, true)),
        None => None,
    }
}

/// The scan bounds for `[from, to]` as text, when both instants can be
/// written.
fn window_text(from: i64, to: i64) -> (r: Option<(String, String)>)
    ensures
        r matches Some(b) ==> b.0@ == utc_text(from) && b.1@ == utc_text(to),
{
    match (format_utc(from), format_utc(to)) {
        (Some(a), Some(b)) => Some((a, b)),
        _ => None,
    }
}

/// Where the scheduler stands between two steps.
#[derive(PartialEq, Eq, Structural, Clone, Copy, Debug)]
pub enum Phase {
    /// Not started yet.
    Idle,
    /// Waiting for the next tick.
    Sleeping,
    /// Waiting for the store to answer a scan.
    Scanning,
    /// Handing the alerts of this tick to the sink, one at a time.
    Notifying,
}

/// What the loop around the scheduler reports back.
pub enum Input {
    /// The process has started.
    Start,
    /// A tick has come; `now` is the current instant in seconds.
    Woke { now: i64 },
    /// The store answered the scan.
    Scanned(Result<Vec<Event>, StoreError>),
    /// The sink took the last alert (whether or not it could show it).
    Delivered,
}

/// What the loop around the scheduler is to do next.
#[derive(Debug)]
pub enum Action {
    /// Sleep this many seconds, then report `Woke`.
    Sleep { secs: u64 },
    /// Ask the store for the events starting in `[from, to]`, both given as
    /// timestamp text, then report `Scanned`.
    Scan { from: String, to: String },
    /// Hand this alert to the sink, then report `Delivered`.
    Notify(Notice),
    /// The input did not fit the phase; nothing to do.
    Wait,
}

/// The decisions of the background notifier: each tick it scans the store
/// for events about to start and alerts once for each event found. An event
/// that stays in the window is alerted again on each tick that finds it.
pub struct Scheduler {
    phase: Phase,
    tick_secs: u64,
    lookahead_secs: i64,
    pending: Vec<Notice>,
    next: usize,
}

impl Scheduler {
    pub closed spec fn phase(&self) -> Phase {
        self.phase
    }

    pub closed spec fn tick(&self) -> u64 {
        self.tick_secs
    }

    pub closed spec fn lookahead(&self) -> i64 {
        self.lookahead_secs
    }

    /// The alerts of the current tick.
    pub closed spec fn pending(&self) -> Seq<Notice> {
        self.pending@
    }

    /// Index of the alert being delivered.
    pub closed spec fn next(&self) -> int {
        self.next as int
    }

    pub closed spec fn wf(&self) -> bool {
        &&& self.next <= self.pending@.len()
        &&& self.phase == Phase::Notifying ==> self.next < self.pending@.len()
    }

    /// A scheduler that has not started, with the given tick and lookahead.
    pub fn new(tick_secs: u64, lookahead_secs: i64) -> (r: Scheduler)
        ensures
            r.wf(),
            r.phase() == Phase::Idle,
            r.tick() == tick_secs,
            r.lookahead() == lookahead_secs,
            r.pending().len() == 0,
    {
        Scheduler { phase: Phase::Idle, tick_secs, lookahead_secs, pending: Vec::new(), next: 0 }
    }

    /// Starts the scan of a tick over the given bounds, or, without bounds,
    /// skips the tick and sleeps again. Only a sleeping scheduler scans.
    pub fn begin_scan(&mut self, bounds: Option<(String, String)>) -> (r: Action)
        requires
            old(self).wf(),
        ensures
            final(self).wf(),
            old(self).phase() != Phase::Sleeping ==> r is Wait && *final(self) == *old(self),
            old(self).phase() == Phase::Sleeping ==> match bounds {
                Some(b) => final(self).phase() == Phase::Scanning && r == (Action::Scan { from: b.0, to: b.1 }),
                None => final(self).phase() == Phase::Sleeping && r == (Action::Sleep { secs: old(self).tick() }),
            },
            final(self).tick() == old(self).tick(),
            final(self).lookahead() == old(self).lookahead(),
            final(self).pending() == old(self).pending(),
            final(self).next() == old(self).next(),
    {
        if self.phase != Phase::Sleeping {
            return Action::Wait;
        }
        match bounds {
            Some((from, to)) => {
                self.phase = Phase::Scanning;
                Action::Scan { from, to }
            },
            None => Action::Sleep { secs: self.tick_secs },
        }
    }

    /// Takes one report from the loop and decides what it does next.
    ///
    /// Start: from `Idle` to sleeping for one tick. Woke: from sleeping to a
    /// scan of `[now, now + lookahead]`, written as timestamp text, or, when
    /// that end does not fit or cannot be written, straight back to sleep.
    /// Scanned: the alerts for the events found are handed out one per
    /// `Delivered`, then back to sleep; a failed scan goes
    /// back to sleep at once, so the next tick still comes. Any other input
    /// changes nothing.
    pub fn step(&mut self, input: Input) -> (r: Action)
        requires
            old(self).wf(),
        ensures
            final(self).wf(),
            final(self).tick() == old(self).tick(),
            final(self).lookahead() == old(self).lookahead(),
            r is Wait ==> *final(self) == *old(self),
            final(self).phase() == Phase::Sleeping ==> r == (Action::Sleep { secs: old(self).tick() }) || r is Wait,
            match input {
                Input::Start => if old(self).phase() == Phase::Idle {
                    final(self).phase() == Phase::Sleeping && r == (Action::Sleep { secs: old(self).tick() })
                } else {
                    r is Wait
                },
                Input::Woke { now } => if old(self).phase() == Phase::Sleeping {
                    if i64::MIN <= now + old(self).lookahead() <= i64::MAX {
                        ||| final(self).phase() == Phase::Scanning && (r matches Action::Scan { from, to }
                            && from@ == utc_text(now) && to@ == utc_text((now + old(self).lookahead()) as i64))
                        ||| final(self).phase() == Phase::Sleeping && r == (Action::Sleep { secs: old(self).tick() })
                    } else {
                        final(self).phase() == Phase::Sleeping && r == (Action::Sleep { secs: old(self).tick() })
                    }
                } else {
                    r is Wait
                },
                Input::Scanned(res) => if old(self).phase() == Phase::Scanning {
                    match res {
                        Ok(es) => {
                            &&& notices_match(final(self).pending(), es@)
                            &&& final(self).next() == 0
                            &&& es@.len() == 0 ==> final(self).phase() == Phase::Sleeping
                                && r == (Action::Sleep { secs: old(self).tick() })
                            &&& es@.len() > 0 ==> final(self).phase() == Phase::Notifying
                                && r == Action::Notify(final(self).pending()[0])
                        },
                        Err(_) => {
                            &&& final(self).phase() == Phase::Sleeping
                            &&& final(self).pending().len() == 0
                            &&& r == (Action::Sleep { secs: old(self).tick() })
                        },
                    }
                } else {
                    r is Wait
                },
                Input::Delivered => if old(self).phase() == Phase::Notifying {
                    if old(self).next() + 1 < old(self).pending().len() {
                        &&& final(self).phase() == Phase::Notifying
                        &&& final(self).pending() == old(self).pending()
                        &&& final(self).next() == old(self).next() + 1
                        &&& r == Action::Notify(old(self).pending()[old(self).next() + 1])
                    } else {
                        &&& final(self).phase() == Phase::Sleeping
                        &&& final(self).pending().len() == 0
                        &&& r == (Action::Sleep { secs: old(self).tick() })
                    }
                } else {
                    r is Wait
                },
            },
    {
        match input {
            Input::Start => {
                if self.phase == Phase::Idle {
                    self.phase = Phase::Sleeping;
                    Action::Sleep { secs: self.tick_secs }
                } else {
                    Action::Wait
                }
            },
            Input::Woke { now } => {
                if self.phase == Phase::Sleeping {
                    match scan_window(now, self.lookahead_secs) {
                        Some((from, to)) => self.begin_scan(window_text(from, to)),
                        None => Action::Sleep { secs: self.tick_secs },
                    }
                } else {
                    Action::Wait
                }
            },
            Input::Scanned(res) => {
                if self.phase == Phase::Scanning {
                    self.pending = tick_notices(&res);
                    self.next = 0;
                    if self.pending.len() == 0 {
                        self.phase = Phase::Sleeping;
                        Action::Sleep { secs: self.tick_secs }
                    } else {
                        self.phase = Phase::Notifying;
                        Action::Notify(copy_notice(&self.pending[0]))
                    }
                } else {
                    Action::Wait
                }
            },
            Input::Delivered => {
                if self.phase == Phase::Notifying {
                    if self.next < self.pending.len() - 1 {
                        self.next = self.next + 1;
                        Action::Notify(copy_notice(&self.pending[self.next]))
                    } else {
                        self.phase = Phase::Sleeping;
                        self.pending = Vec::new();
                        self.next = 0;
                        Action::Sleep { secs: self.tick_secs }
                    }
                } else {
                    Action::Wait
                }
            },
        }
    }

    /// The current phase.
    pub fn current_phase(&self) -> (r: Phase)
        ensures
            r == self.phase(),
    {
        self.phase
    }
}

/// Once per tick: when the alerts of a tick are those for a scan of the
/// store over `[lo, hi]`, an event held whose start lies in that window gets
/// exactly one alert, and an event outside it gets none.
pub proof fn lemma_one_notice_per_tick(
    store: EventStore,
    lo: Seq<char>,
    hi: Seq<char>,
    ns: Seq<Notice>,
    i: int,
)
    requires
        store.wf(),
        0 <= i < store.contents().len(),
        notices_match(ns, range_of(store.contents(), lo, hi)),
    ensures
        ({
            let e = store.contents()[i];
            &&& in_range(e, lo, hi) ==> exists|j: int| 0 <= j < ns.len() && (#[trigger] ns[j]).event_id == e.id
            &&& forall|j: int, k: int|
                0 <= j < ns.len() && 0 <= k < ns.len() && (#[trigger] ns[j]).event_id == e.id
                    && (#[trigger] ns[k]).event_id == e.id ==> j == k
            &&& !in_range(e, lo, hi) ==> forall|j: int| 0 <= j < ns.len() ==> (#[trigger] ns[j]).event_id != e.id
        }),
{
    let s = store.contents();
    let e = s[i];
    let p = |x: Event| in_range(x, lo, hi);
    let f = range_of(s, lo, hi);
    store.lemma_wf_unique();
    lemma_filter_keeps(s, p);
    if in_range(e, lo, hi) {
        s.lemma_filter_contains(p, i);
        let j = choose|j: int| 0 <= j < f.len() && f[j] == e;
        assert(notice_for(ns[j], f[j]));
    }
    assert forall|j: int, k: int|
        0 <= j < ns.len() && 0 <= k < ns.len() && (#[trigger] ns[j]).event_id == e.id
            && (#[trigger] ns[k]).event_id == e.id implies j == k by {
        assert(notice_for(ns[j], f[j]));
        assert(notice_for(ns[k], f[k]));
    }
    if !in_range(e, lo, hi) {
        assert forall|j: int| 0 <= j < ns.len() implies (#[trigger] ns[j]).event_id != e.id by {
            assert(notice_for(ns[j], f[j]));
            assert(s.contains(f[j]));
            let k = choose|k: int| 0 <= k < s.len() && s[k] == f[j];
            assert(p(f[j]));
        }
    }
}

} // verus!
