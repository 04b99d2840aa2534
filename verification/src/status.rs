//! The live status that firing workers report to and the panel reads.

use crate::meter;
use crate::meter::{MeterKind, RateMeter};
use crate::text::owned;
use vstd::prelude::*;

verus! {

/// Rolling window, in seconds, for the live per-second meters.
pub const METER_WINDOW_SECS: u64 = 5;

/// Lines the per-transaction log retains.
pub const LOG_LINES: usize = 500;

/// A single line in the live per-transaction log.
#[derive(Debug)]
pub struct LogLine {
    /// The wallet that fired.
    pub wallet: String,
    /// The chain height at the time.
    pub height: u64,
    /// The destination.
    pub to: String,
    /// The amount.
    pub amount_grains: u128,
    /// The nonce used.
    pub nonce: u64,
    /// Whether it went through.
    pub ok: bool,
    /// What happened.
    pub detail: String,
}

/// A log line by its contents.
pub struct LogView {
    pub wallet: Seq<char>,
    pub height: u64,
    pub to: Seq<char>,
    pub amount_grains: u128,
    pub nonce: u64,
    pub ok: bool,
    pub detail: Seq<char>,
}

impl LogLine {
    /// The line's contents.
    pub open spec fn view(&self) -> LogView {
        LogView {
            wallet: self.wallet@,
            height: self.height,
            to: self.to@,
            amount_grains: self.amount_grains,
            nonce: self.nonce,
            ok: self.ok,
            detail: self.detail@,
        }
    }
}

/// Live per-wallet state that a worker publishes.
#[derive(Debug)]
pub struct WalletStat {
    /// The wallet's label.
    pub label: String,
    /// The nonce it will use next.
    pub next_nonce: u64,
    /// The nonce it started the run at; unknown until the first reconcile.
    pub first_nonce: Option<u64>,
    /// The balance as the worker sees it.
    pub balance_grains: Option<u128>,
    /// Set once the worker has exited.
    pub ended: bool,
    /// Set if it exited because of a fault, with the reason.
    pub fault: Option<String>,
    /// Set while it is waiting rather than firing, with the reason.
    pub waiting: Option<String>,
}

/// An optional text by its contents.
pub open spec fn text_of(s: Option<String>) -> Option<Seq<char>> {
    match s {
        Some(t) => Some(t@),
        None => None,
    }
}

/// A wallet's state by its contents.
pub struct StatView {
    pub label: Seq<char>,
    pub next_nonce: u64,
    pub first_nonce: Option<u64>,
    pub balance_grains: Option<u128>,
    pub ended: bool,
    pub fault: Option<Seq<char>>,
    pub waiting: Option<Seq<char>>,
}

/// A wallet that has reported nothing yet.
pub open spec fn fresh_stat(label: Seq<char>) -> StatView {
    StatView {
        label,
        next_nonce: 0,
        first_nonce: None,
        balance_grains: None,
        ended: false,
        fault: None,
        waiting: None,
    }
}

impl WalletStat {
    /// The state's contents.
    pub open spec fn view(&self) -> StatView {
        StatView {
            label: self.label@,
            next_nonce: self.next_nonce,
            first_nonce: self.first_nonce,
            balance_grains: self.balance_grains,
            ended: self.ended,
            fault: text_of(self.fault),
            waiting: text_of(self.waiting),
        }
    }

    /// Nonces this wallet has committed since the run began, or `None` while the
    /// baseline is unknown.
    pub fn committed(&self) -> (r: Option<u64>)
        ensures
            r == match self@.first_nonce {
                None => None,
                Some(f) => Some(
                    if self@.next_nonce < f {
                        0
                    } else {
                        (self@.next_nonce - f) as u64
                    },
                ),
            },
    {
        match self.first_nonce {
            None => None,
            Some(f) => Some(self.next_nonce.saturating_sub(f)),
        }
    }
}

/// The status by its contents.
pub struct StatusView {
    pub running: bool,
    pub meter: meter::MeterView,
    pub wallets: Seq<StatView>,
    pub live_workers: usize,
    pub last_error: Seq<char>,
    pub log: Seq<LogView>,
}

/// The newest lines of a log, as many as it retains.
pub open spec fn newest_lines(log: Seq<LogView>) -> Seq<LogView> {
    if log.len() > LOG_LINES {
        log.skip(log.len() - LOG_LINES)
    } else {
        log
    }
}

impl StatusView {
    /// The meters are in order and the log is bounded.
    pub open spec fn wf(self) -> bool {
        &&& self.meter.wf()
        &&& self.log.len() <= LOG_LINES
    }

    /// Every kind of event can still be counted.
    pub open spec fn has_room(self) -> bool {
        forall|k: MeterKind| self.meter.totals[#[trigger] k.spec_index()] < u64::MAX
    }

    /// With one more event metered.
    pub open spec fn recorded(self, now_ms: u64, kind: MeterKind) -> StatusView {
        StatusView { meter: self.meter.recorded(now_ms, kind), ..self }
    }

    /// With one more line.
    pub open spec fn logged(self, line: LogView) -> StatusView {
        StatusView { log: newest_lines(self.log.push(line)), ..self }
    }

    /// With an error to show.
    pub open spec fn erred(self, msg: Seq<char>) -> StatusView {
        StatusView { last_error: msg, ..self }
    }

    /// With a wallet's state published. The first publish sets the baseline that its
    /// progress is measured from. A reason to wait lasts until the next publish.
    pub open spec fn published(
        self,
        i: int,
        next_nonce: u64,
        balance: Option<u128>,
        waiting: Option<Seq<char>>,
    ) -> StatusView {
        if 0 <= i < self.wallets.len() {
            let w = self.wallets[i];
            let first_nonce = match w.first_nonce {
                Some(f) => Some(f),
                None => Some(next_nonce),
            };
            StatusView {
                wallets: self.wallets.update(
                    i,
                    StatView { first_nonce, next_nonce, balance_grains: balance, waiting, ..w },
                ),
                ..self
            }
        } else {
            self
        }
    }

    /// With a worker gone. The last one out marks the run stopped.
    pub open spec fn finished(self, i: int, fault: Option<Seq<char>>) -> StatusView {
        let live = if self.live_workers == 0 {
            0usize
        } else {
            (self.live_workers - 1) as usize
        };
        let wallets = if 0 <= i < self.wallets.len() {
            let w = self.wallets[i];
            self.wallets.update(
                i,
                StatView {
                    ended: true,
                    waiting: None,
                    fault: if fault is Some {
                        fault
                    } else {
                        w.fault
                    },
                    ..w
                },
            )
        } else {
            self.wallets
        };
        StatusView { wallets, live_workers: live, running: self.running && live > 0, ..self }
    }
}

/// Live status shared between the panel and the firing workers.
#[derive(Debug)]
pub struct Status {
    running: bool,
    meter: RateMeter,
    wallets: Vec<WalletStat>,
    live_workers: usize,
    last_error: String,
    log: Vec<LogLine>,
}

impl Status {
    /// The status's contents.
    pub closed spec fn view(&self) -> StatusView {
        StatusView {
            running: self.running,
            meter: self.meter@,
            wallets: self.wallets@.map_values(|w: WalletStat| w@),
            live_workers: self.live_workers,
            last_error: self.last_error@,
            log: self.log@.map_values(|l: LogLine| l@),
        }
    }

    /// The status of a run that starts with these wallets, one worker each. With none,
    /// nothing runs.
    pub fn new(labels: &Vec<String>) -> (s: Self)
        ensures
            s@.wf(),
            s@.running == (labels@.len() > 0),
            s@.live_workers == labels@.len(),
            s@.wallets == crate::keystore::views(labels@).map_values(
                |l: Seq<char>| fresh_stat(l),
            ),
            s@.last_error == Seq::<char>::empty(),
            s@.log == Seq::<LogView>::empty(),
            s@.meter.window == METER_WINDOW_SECS,
            s@.meter.buckets == Seq::<meter::Bucket>::empty(),
            forall|k: MeterKind| s@.meter.totals[#[trigger] k.spec_index()] == 0,
    {
        let mut wallets: Vec<WalletStat> = Vec::new();
        let n: usize = labels.len();
        let mut i: usize = 0;
        while i < n
            invariant
                n == labels@.len(),
                i <= n,
                wallets@.len() == i,
                forall|k: int| 0 <= k < i ==> (#[trigger] wallets@[k])@ == fresh_stat(labels@[k]@),
            decreases n - i,
        {
            wallets.push(
                WalletStat {
                    label: owned(labels[i].as_str()),
                    next_nonce: 0,
                    first_nonce: None,
                    balance_grains: None,
                    ended: false,
                    fault: None,
                    waiting: None,
                },
            );
            i = i + 1;
        }
        let s = Status {
            running: n > 0,
            meter: RateMeter::new(METER_WINDOW_SECS),
            wallets,
            live_workers: n,
            last_error: String::new(),
            log: Vec::new(),
        };
        assert(s@.wallets =~= crate::keystore::views(labels@).map_values(
            |l: Seq<char>| fresh_stat(l),
        ));
        assert(s@.log =~= Seq::<LogView>::empty());
        s
    }

    /// Whether a run is on.
    pub fn running(&self) -> (b: bool)
        ensures
            b == self@.running,
    {
        self.running
    }

    /// Mark the run stopped.
    pub fn stop(&mut self)
        ensures
            final(self)@ == (StatusView { running: false, ..old(self)@ }),
    {
        self.running = false;
    }

    /// Workers still running.
    pub fn live_workers(&self) -> (n: usize)
        ensures
            n == self@.live_workers,
    {
        self.live_workers
    }

    /// The meters.
    pub fn meter(&self) -> (m: &RateMeter)
        ensures
            m@ == self@.meter,
    {
        &self.meter
    }

    /// Per-wallet live state, in worker order.
    pub fn wallets(&self) -> (w: &Vec<WalletStat>)
        ensures
            w@.map_values(|x: WalletStat| x@) == self@.wallets,
    {
        &self.wallets
    }

    /// The last error.
    pub fn last_error(&self) -> (s: &str)
        ensures
            s@ == self@.last_error,
    {
        self.last_error.as_str()
    }

    /// The log, newest last.
    pub fn log(&self) -> (l: &Vec<LogLine>)
        ensures
            l@.map_values(|x: LogLine| x@) == self@.log,
    {
        &self.log
    }

    /// Show an error.
    pub fn set_error(&mut self, msg: &str)
        ensures
            final(self)@ == old(self)@.erred(msg@),
    {
        self.last_error = owned(msg);
    }

    /// Add a line to the log, dropping the oldest beyond its bound.
    pub fn push_log(&mut self, line: LogLine)
        requires
            old(self)@.wf(),
        ensures
            final(self)@.wf(),
            final(self)@ == old(self)@.logged(line@),
    {
        let ghost before = self@;
        self.log.push(line);
        assert(self@.log =~= before.log.push(line@));
        if self.log.len() > LOG_LINES {
            self.log.remove(0);
            assert(self@.log =~= newest_lines(before.log.push(line@)));
        }
    }

    /// Record a meter event.
    pub fn record(&mut self, now_ms: u64, kind: MeterKind)
        requires
            old(self)@.wf(),
            old(self)@.meter.totals[kind.spec_index()] < u64::MAX,
        ensures
            final(self)@.wf(),
            final(self)@ == old(self)@.recorded(now_ms, kind),
    {
        self.meter.record(now_ms, kind);
    }

    /// Whether every kind of event can still be counted.
    pub fn has_room(&self) -> (b: bool)
        ensures
            b == self@.has_room(),
    {
        let b: bool = self.meter.total(MeterKind::Attempted) < u64::MAX && self.meter.total(
            MeterKind::Accepted,
        ) < u64::MAX && self.meter.total(MeterKind::RejCapacity) < u64::MAX && self.meter.total(
            MeterKind::RejNonce,
        ) < u64::MAX && self.meter.total(MeterKind::RejAfford) < u64::MAX && self.meter.total(
            MeterKind::RejOther,
        ) < u64::MAX;
        proof {
            if self@.has_room() {
                assert(self@.meter.totals[MeterKind::Attempted.spec_index()] < u64::MAX);
                assert(self@.meter.totals[MeterKind::Accepted.spec_index()] < u64::MAX);
                assert(self@.meter.totals[MeterKind::RejCapacity.spec_index()] < u64::MAX);
                assert(self@.meter.totals[MeterKind::RejNonce.spec_index()] < u64::MAX);
                assert(self@.meter.totals[MeterKind::RejAfford.spec_index()] < u64::MAX);
                assert(self@.meter.totals[MeterKind::RejOther.spec_index()] < u64::MAX);
            }
        }
        b
    }

    /// Cumulative accepted and rejected for this run.
    pub fn totals(&self) -> (r: (u64, u64))
        requires
            self@.meter.rejected() <= u64::MAX,
        ensures
            r.0 == self@.meter.totals[MeterKind::Accepted.spec_index()],
            r.1 == self@.meter.rejected(),
    {
        let bad: u64 = self.meter.total(MeterKind::RejCapacity) + self.meter.total(
            MeterKind::RejNonce,
        ) + self.meter.total(MeterKind::RejAfford) + self.meter.total(MeterKind::RejOther);
        (self.meter.total(MeterKind::Accepted), bad)
    }

    /// Publish the `i`-th wallet's state: its next nonce, its balance, and why it waits,
    /// if it does.
    pub fn publish(
        &mut self,
        i: usize,
        next_nonce: u64,
        balance: Option<u128>,
        waiting: Option<String>,
    )
        requires
            old(self)@.wf(),
        ensures
            final(self)@.wf(),
            final(self)@ == old(self)@.published(
                i as int,
                next_nonce,
                balance,
                text_of(waiting),
            ),
    {
        let ghost before = self@;
        if i < self.wallets.len() {
            if self.wallets[i].first_nonce.is_none() {
                self.wallets[i].first_nonce = Some(next_nonce);
            }
            self.wallets[i].next_nonce = next_nonce;
            self.wallets[i].balance_grains = balance;
            self.wallets[i].waiting = waiting;
            assert(self@.wallets =~= before.published(
                i as int,
                next_nonce,
                balance,
                text_of(waiting),
            ).wallets);
        }
    }

    /// Mark the `i`-th wallet's worker as ended, with the fault it ended because of, if
    /// any. The last worker out marks the run stopped.
    pub fn worker_finished(&mut self, i: usize, fault: Option<String>)
        requires
            old(self)@.wf(),
        ensures
            final(self)@.wf(),
            final(self)@ == old(self)@.finished(i as int, text_of(fault)),
    {
        let ghost before = self@;
        let ghost why = text_of(fault);
        if i < self.wallets.len() {
            self.wallets[i].ended = true;
            self.wallets[i].waiting = None;
            if fault.is_some() {
                self.wallets[i].fault = fault;
            }
        }
        assert(self@.wallets =~= before.finished(i as int, why).wallets);
        self.live_workers = self.live_workers.saturating_sub(1);
        if self.live_workers == 0 {
            self.running = false;
        }
    }
}

/// The state after some workers have ended, in this order.
pub open spec fn after_exits(s: StatusView, exits: Seq<int>) -> StatusView
    decreases exits.len(),
{
    if exits.len() == 0 {
        s
    } else {
        after_exits(s, exits.drop_last()).finished(exits.last(), None)
    }
}

/// A run is over exactly when its last worker has ended: not before, and for good.
pub proof fn law_the_last_worker_out_ends_the_run(s: StatusView, exits: Seq<int>)
    requires
        s.running,
        s.live_workers > 0,
    ensures
        after_exits(s, exits).running <==> exits.len() < s.live_workers,
        after_exits(s, exits).live_workers == if exits.len() < s.live_workers {
            s.live_workers - exits.len()
        } else {
            0
        },
    decreases exits.len(),
{
    if exits.len() > 0 {
        law_the_last_worker_out_ends_the_run(s, exits.drop_last());
    }
}

/// Progress is measured from a baseline that never moves: once a wallet has published,
/// its first nonce stays.
pub proof fn law_the_baseline_never_moves(
    s: StatusView,
    i: int,
    a: u64,
    b: u64,
    balance: Option<u128>,
    waiting: Option<Seq<char>>,
)
    requires
        0 <= i < s.wallets.len(),
    ensures
        ({
            let once = s.published(i, a, balance, waiting);
            let twice = once.published(i, b, balance, waiting);
            &&& once.wallets[i].first_nonce is Some
            &&& twice.wallets[i].first_nonce == once.wallets[i].first_nonce
            &&& twice.wallets[i].next_nonce == b
        }),
{
}

/// A publish tells of one wallet and of nothing else: what it says stands, the label and the
/// end of the wallet stay as they were, and so do all other wallets, the counts and the log.
pub proof fn law_a_publish_tells_of_one_wallet(
    s: StatusView,
    i: int,
    next_nonce: u64,
    balance: Option<u128>,
    waiting: Option<Seq<char>>,
    j: int,
)
    requires
        0 <= i < s.wallets.len(),
    ensures
        ({
            let n = s.published(i, next_nonce, balance, waiting);
            let (was, is) = (s.wallets[i], n.wallets[i]);
            &&& n.wallets.len() == s.wallets.len()
            &&& is.next_nonce == next_nonce
            &&& is.balance_grains == balance
            &&& is.waiting == waiting
            &&& was.first_nonce is None ==> is.first_nonce == Some(next_nonce)
            &&& was.first_nonce is Some ==> is.first_nonce == was.first_nonce
            &&& is.label == was.label && is.ended == was.ended && is.fault == was.fault
            &&& 0 <= j < s.wallets.len() && j != i ==> n.wallets[j] == s.wallets[j]
            &&& n.running == s.running && n.live_workers == s.live_workers
            &&& n.meter == s.meter && n.last_error == s.last_error && n.log == s.log
        }),
{
}

/// A worker that ends takes one from the live ones, and the run with it if it was the last.
/// Its wallet is marked ended and no longer waits; a fault is kept, and an earlier one is not
/// lost to an end without. What was published stays, and so do all other wallets.
pub proof fn law_an_end_is_told_of_one_wallet(
    s: StatusView,
    i: int,
    fault: Option<Seq<char>>,
    j: int,
)
    requires
        0 <= i < s.wallets.len(),
        s.live_workers > 0,
    ensures
        ({
            let n = s.finished(i, fault);
            let (was, is) = (s.wallets[i], n.wallets[i]);
            &&& n.live_workers == s.live_workers - 1
            &&& n.running <==> s.running && s.live_workers > 1
            &&& n.wallets.len() == s.wallets.len()
            &&& is.ended
            &&& is.waiting is None
            &&& fault is Some ==> is.fault == fault
            &&& fault is None ==> is.fault == was.fault
            &&& is.label == was.label && is.next_nonce == was.next_nonce
            &&& is.first_nonce == was.first_nonce && is.balance_grains == was.balance_grains
            &&& 0 <= j < s.wallets.len() && j != i ==> n.wallets[j] == s.wallets[j]
            &&& n.meter == s.meter && n.last_error == s.last_error && n.log == s.log
        }),
{
}

/// A line goes to the end of the log, which keeps its newest lines, all of them while they
/// fit; an error and a count change nothing of each other, nor of the log or the wallets.
pub proof fn law_the_log_keeps_the_newest(
    s: StatusView,
    line: LogView,
    msg: Seq<char>,
    now_ms: u64,
    kind: MeterKind,
    k: int,
)
    requires
        s.log.len() <= LOG_LINES,
    ensures
        ({
            let n = s.logged(line);
            &&& n.log.last() == line
            &&& s.log.len() < LOG_LINES ==> n.log.len() == s.log.len() + 1
            &&& s.log.len() == LOG_LINES ==> n.log.len() == LOG_LINES
            &&& 0 < k < n.log.len() ==> n.log[n.log.len() - 1 - k] == s.log[s.log.len() - k]
            &&& n.wallets == s.wallets && n.meter == s.meter && n.running == s.running
            &&& n.live_workers == s.live_workers && n.last_error == s.last_error
        }),
        s.erred(msg).last_error == msg,
        s.erred(msg).log == s.log && s.erred(msg).wallets == s.wallets,
        s.erred(msg).meter == s.meter && s.erred(msg).running == s.running,
        s.erred(msg).live_workers == s.live_workers,
        s.recorded(now_ms, kind).log == s.log && s.recorded(now_ms, kind).wallets == s.wallets,
        s.recorded(now_ms, kind).running == s.running,
        s.recorded(now_ms, kind).live_workers == s.live_workers,
        s.recorded(now_ms, kind).last_error == s.last_error,
{
}

/// What is told of a wallet that is not there is not taken for another's: a publish changes
/// nothing, and an end only takes one from the live workers. None of them left stays none.
pub proof fn law_a_stranger_changes_no_wallet(
    s: StatusView,
    i: int,
    next_nonce: u64,
    balance: Option<u128>,
    waiting: Option<Seq<char>>,
    fault: Option<Seq<char>>,
)
    requires
        i < 0 || i >= s.wallets.len(),
    ensures
        s.published(i, next_nonce, balance, waiting) == s,
        s.finished(i, fault).wallets == s.wallets,
        s.live_workers > 0 ==> s.finished(i, fault).live_workers == s.live_workers - 1,
        s.live_workers == 0 ==> s.finished(i, fault).live_workers == 0,
        s.live_workers == 0 ==> !s.finished(i, fault).running,
{
}

/// A run starts with every wallet unheard of.
pub proof fn law_a_fresh_wallet_is_unheard_of(label: Seq<char>)
    ensures
        fresh_stat(label).label == label,
        fresh_stat(label).first_nonce is None,
        fresh_stat(label).balance_grains is None,
        !fresh_stat(label).ended,
        fresh_stat(label).fault is None,
        fresh_stat(label).waiting is None,
{
}

} // verus!
