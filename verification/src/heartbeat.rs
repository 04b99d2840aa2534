//! The heartbeat: a gentle, indefinite trickle that keeps a chain alive.
//!
//! The scheduler holds an ideal schedule, `anchor + issued × interval`, rather than
//! sleeping an interval after each send, so the cadence cannot drift as signing,
//! latency and back-offs eat time. The rails stop it before it drains the wallet
//! that funds it.

use crate::rng;
use crate::rng::Rng;
use crate::text::owned;
use crate::xus;
use crate::xus::{fmt_count, fmt_xus};
use vstd::prelude::*;

verus! {

/// Narrowest heartbeat interval: one transaction every 5 seconds.
pub const HEARTBEAT_MIN_INTERVAL_MS: u64 = 5_000;

/// Widest heartbeat interval: one transaction an hour.
pub const HEARTBEAT_MAX_INTERVAL_MS: u64 = 3_600_000;

/// Default jitter, as a percentage of the interval, applied symmetrically.
pub const HEARTBEAT_JITTER_PCT: u32 = 20;

/// The largest jitter, as a percentage of the interval.
pub const HEARTBEAT_MAX_JITTER_PCT: u32 = 90;

/// Accept an interval for a heartbeat, or say why it is none: no input can ask for a
/// firehose, or for a heartbeat that never beats.
pub fn interval_in_band(interval_ms: u64) -> (r: Result<u64, String>)
    ensures
        r is Ok <==> HEARTBEAT_MIN_INTERVAL_MS <= interval_ms <= HEARTBEAT_MAX_INTERVAL_MS,
        r matches Ok(ms) ==> ms == interval_ms,
        r matches Err(e) ==> e@ == if interval_ms < HEARTBEAT_MIN_INTERVAL_MS {
            "too fast for a heartbeat — keep it at or below one tx every 5 s (30.0 tx/block); use Target TX/s to push harder"@
        } else {
            "too slow — keep it at or under one tx every 60 min"@
        },
{
    if interval_ms < HEARTBEAT_MIN_INTERVAL_MS {
        Err(
            owned(
                "too fast for a heartbeat — keep it at or below one tx every 5 s (30.0 tx/block); use Target TX/s to push harder",
            ),
        )
    } else if interval_ms > HEARTBEAT_MAX_INTERVAL_MS {
        Err(owned("too slow — keep it at or under one tx every 60 min"))
    } else {
        Ok(interval_ms)
    }
}

/// A number held at the largest instant.
pub open spec fn capped(n: int) -> int {
    if n > u64::MAX {
        u64::MAX as int
    } else {
        n
    }
}

/// The scheduler's state.
pub struct Beat {
    /// The interval between submissions.
    pub interval_ms: u64,
    /// The jitter, in per cent of the interval.
    pub jitter_pct: u32,
    /// Origin of the current ideal schedule.
    pub anchor_ms: u64,
    /// Submissions issued since the anchor.
    pub issued: u64,
    /// When the next submission is due.
    pub next_at_ms: u64,
}

impl Beat {
    /// The interval and the jitter lie in their bands.
    pub open spec fn wf(self) -> bool {
        &&& HEARTBEAT_MIN_INTERVAL_MS <= self.interval_ms <= HEARTBEAT_MAX_INTERVAL_MS
        &&& self.jitter_pct <= HEARTBEAT_MAX_JITTER_PCT
    }

    /// Half the width of the jitter.
    pub open spec fn span(self) -> nat {
        (self.interval_ms as nat) * (self.jitter_pct as nat) / 100
    }

    /// The submissions issued, one more counted.
    pub open spec fn counted(self) -> int {
        capped(self.issued + 1)
    }

    /// The ideal instant of the submission after the one that is counted now.
    pub open spec fn ideal(self) -> int {
        self.anchor_ms + self.counted() * self.interval_ms
    }

    /// A submission at `now` comes more than one interval after that instant: the
    /// time is gone.
    pub open spec fn stalled(self, now_ms: u64) -> bool {
        self.ideal() + self.interval_ms < now_ms
    }

    /// The instant the next submission is scheduled for, before jitter.
    pub open spec fn base(self, now_ms: u64) -> int {
        capped(
            if self.stalled(now_ms) {
                now_ms + self.interval_ms
            } else {
                self.ideal()
            },
        )
    }

    /// An instant moved by the jitter that a generator draws.
    pub open spec fn jittered(self, base: int, state: u64) -> int {
        if self.span() == 0 {
            base
        } else {
            let offset = rng::drawn(state, self.span() * 2 + 1);
            if base + self.span() < offset {
                0
            } else {
                capped(base + self.span() - offset)
            }
        }
    }

    /// The state after a submission went out at `now`. After a stall that submission is the
    /// first of a schedule that starts with it.
    pub open spec fn submitted(self, now_ms: u64, state: u64) -> Beat {
        let next_at_ms = self.jittered(self.base(now_ms), state) as u64;
        if self.stalled(now_ms) {
            Beat { anchor_ms: now_ms, issued: 1, next_at_ms, ..self }
        } else {
            Beat { issued: self.counted() as u64, next_at_ms, ..self }
        }
    }
}

/// A scheduler that nothing was submitted under: the interval and the jitter are held to
/// their bands, and the first submission is due immediately.
pub open spec fn fresh(interval_ms: u64, jitter_pct: u32) -> Beat {
    Beat {
        interval_ms: if interval_ms < HEARTBEAT_MIN_INTERVAL_MS {
            HEARTBEAT_MIN_INTERVAL_MS
        } else if interval_ms > HEARTBEAT_MAX_INTERVAL_MS {
            HEARTBEAT_MAX_INTERVAL_MS
        } else {
            interval_ms
        },
        jitter_pct: if jitter_pct > HEARTBEAT_MAX_JITTER_PCT {
            HEARTBEAT_MAX_JITTER_PCT
        } else {
            jitter_pct
        },
        anchor_ms: 0,
        issued: 0,
        next_at_ms: 0,
    }
}

/// The heartbeat's self-pacing scheduler. Time is milliseconds, given by the caller.
#[derive(Clone, Debug)]
pub struct Heartbeat {
    interval_ms: u64,
    jitter_pct: u32,
    anchor_ms: u64,
    issued: u64,
    next_at_ms: u64,
}

impl Heartbeat {
    /// The scheduler's state.
    pub closed spec fn view(&self) -> Beat {
        Beat {
            interval_ms: self.interval_ms,
            jitter_pct: self.jitter_pct,
            anchor_ms: self.anchor_ms,
            issued: self.issued,
            next_at_ms: self.next_at_ms,
        }
    }

    /// A heartbeat at `interval_ms`, clamped into the supported band, with
    /// `jitter_pct` of symmetric jitter. The first submission is due immediately.
    pub fn new(interval_ms: u64, jitter_pct: u32) -> (h: Self)
        ensures
            h@.wf(),
            h@ == fresh(interval_ms, jitter_pct),
    {
        Heartbeat {
            interval_ms: if interval_ms < HEARTBEAT_MIN_INTERVAL_MS {
                HEARTBEAT_MIN_INTERVAL_MS
            } else if interval_ms > HEARTBEAT_MAX_INTERVAL_MS {
                HEARTBEAT_MAX_INTERVAL_MS
            } else {
                interval_ms
            },
            jitter_pct: if jitter_pct > HEARTBEAT_MAX_JITTER_PCT {
                HEARTBEAT_MAX_JITTER_PCT
            } else {
                jitter_pct
            },
            anchor_ms: 0,
            issued: 0,
            next_at_ms: 0,
        }
    }

    /// The configured interval, in milliseconds.
    pub fn interval_ms(&self) -> (ms: u64)
        ensures
            ms == self@.interval_ms,
    {
        self.interval_ms
    }

    /// Whether a submission is due at `now_ms`.
    pub fn due(&self, now_ms: u64) -> (b: bool)
        ensures
            b == (now_ms >= self@.next_at_ms),
    {
        now_ms >= self.next_at_ms
    }

    /// How long to wait before the next submission is due. Zero means it is due now.
    pub fn wait_ms(&self, now_ms: u64) -> (ms: u64)
        ensures
            ms == if now_ms >= self@.next_at_ms {
                0
            } else {
                self@.next_at_ms - now_ms
            },
    {
        self.next_at_ms.saturating_sub(now_ms)
    }

    /// Record that a submission went out at `now_ms` and schedule the next one. The
    /// generator is consulted only when there is jitter.
    pub fn on_submitted(&mut self, now_ms: u64, rng: &mut Rng)
        requires
            old(self)@.wf(),
        ensures
            final(self)@.wf(),
            final(self)@ == old(self)@.submitted(now_ms, old(rng)@),
            final(rng)@ == if old(self)@.span() == 0 {
                old(rng)@
            } else {
                rng::after_draw(old(rng)@)
            },
            old(rng).wf() ==> final(rng).wf(),
    {
        let ghost before = self@;
        self.issued = self.issued.saturating_add(1);
        let elapsed: u64 = match self.issued.checked_mul(self.interval_ms) {
            Some(ms) => ms,
            None => u64::MAX,
        };
        let ideal: u64 = self.anchor_ms.saturating_add(elapsed);
        assert(self.issued == before.counted());
        assert(elapsed == capped(before.counted() * before.interval_ms)) by (nonlinear_arith)
            requires
                elapsed == capped(self.issued * self.interval_ms),
                self.issued == before.counted(),
                self.interval_ms == before.interval_ms,
        ;
        assert(ideal == capped(before.ideal()));
        let base: u64 = if ideal.saturating_add(self.interval_ms) < now_ms {
            assert(before.stalled(now_ms));
            self.anchor_ms = now_ms;
            self.issued = 1;
            now_ms.saturating_add(self.interval_ms)
        } else {
            assert(!before.stalled(now_ms));
            ideal
        };
        assert(base == before.base(now_ms));
        self.next_at_ms = self.jittered(base, rng);
    }

    /// Symmetric jitter around `base`: uniform over the span to either side.
    fn jittered(&self, base: u64, rng: &mut Rng) -> (at: u64)
        requires
            self@.wf(),
        ensures
            at == self@.jittered(base as int, old(rng)@),
            final(rng)@ == if self@.span() == 0 {
                old(rng)@
            } else {
                rng::after_draw(old(rng)@)
            },
            old(rng).wf() ==> final(rng).wf(),
    {
        let interval: u128 = self.interval_ms as u128;
        let pct: u128 = self.jitter_pct as u128;
        assert(interval * pct <= 3_600_000 * 90) by (nonlinear_arith)
            requires
                interval <= 3_600_000,
                pct <= 90,
        ;
        let span: u128 = interval * pct / 100;
        assert(span == self@.span());
        if span == 0 {
            return base;
        }
        let offset: u128 = rng.below(span * 2 + 1);
        let at: u128 = (base as u128 + span).saturating_sub(offset);
        if at > u64::MAX as u128 {
            u64::MAX
        } else {
            at as u64
        }
    }
}

/// Jitter moves an instant by at most its span, earlier or later, and changes
/// neither the anchor nor the count: it is texture, not rate.
pub proof fn law_jitter_stays_around_the_schedule(b: Beat, now_ms: u64, s: u64, t: u64)
    requires
        b.wf(),
    ensures
        b.base(now_ms) - b.span() <= b.submitted(now_ms, s).next_at_ms,
        b.submitted(now_ms, s).next_at_ms <= b.base(now_ms) + b.span(),
        b.submitted(now_ms, s).anchor_ms == b.submitted(now_ms, t).anchor_ms,
        b.submitted(now_ms, s).issued == b.submitted(now_ms, t).issued,
        b.jitter_pct == 0 ==> b.submitted(now_ms, s).next_at_ms == b.base(now_ms),
{
    assert(b.base(now_ms) >= 0) by {
        assert(b.counted() * b.interval_ms >= 0) by (nonlinear_arith)
            requires
                b.counted() >= 0,
                b.interval_ms >= 0,
        ;
    }
    if b.jitter_pct == 0 {
        assert((b.interval_ms as nat) * (b.jitter_pct as nat) == 0) by (nonlinear_arith)
            requires
                b.jitter_pct == 0,
        ;
    }
    let n = b.span() * 2 + 1;
    let w = rng::wide_draw(s);
    assert(0 <= w % n < n);
}

/// The deficit that is made up is bounded by one interval: whatever happened before,
/// the next submission is scheduled no more than one interval in the past.
pub proof fn law_heartbeat_never_bunches(b: Beat, now_ms: u64)
    requires
        b.wf(),
    ensures
        b.base(now_ms) + b.interval_ms >= now_ms,
{
}

/// One catch-up submission clears any deficit: after a second submission at the
/// same instant, nothing is scheduled in the past.
pub proof fn law_one_catch_up_clears_the_deficit(b: Beat, now_ms: u64, s: u64)
    requires
        b.wf(),
        b.issued < u64::MAX - 1,
    ensures
        b.submitted(now_ms, s).base(now_ms) >= now_ms,
{
    let c = b.submitted(now_ms, s);
    if b.stalled(now_ms) {
        assert(c.counted() == 2);
        assert(c.counted() * c.interval_ms == 2 * c.interval_ms) by (nonlinear_arith)
            requires
                c.counted() == 2,
        ;
    } else {
        assert(c.counted() == b.counted() + 1);
        assert(c.counted() * c.interval_ms == b.counted() * b.interval_ms + b.interval_ms)
            by (nonlinear_arith)
            requires
                c.counted() == b.counted() + 1,
                c.interval_ms == b.interval_ms,
        ;
    }
}

/// A stall is dropped, not replayed: the schedule starts anew with the submission of now,
/// and the next one waits out a whole interval.
pub proof fn law_a_stall_is_dropped(b: Beat, now_ms: u64, s: u64)
    requires
        b.wf(),
        b.stalled(now_ms),
    ensures
        b.submitted(now_ms, s).anchor_ms == now_ms,
        b.submitted(now_ms, s).issued == 1,
        b.base(now_ms) == capped(now_ms + b.interval_ms),
{
}

/// The schedule is always the anchor and so many intervals as were issued since: that is
/// the instant the next submission is due around, after a stall as before one.
pub proof fn law_the_schedule_is_the_anchor_and_the_count(b: Beat, now_ms: u64, s: u64)
    requires
        b.wf(),
    ensures
        ({
            let c = b.submitted(now_ms, s);
            &&& b.base(now_ms) == capped(c.anchor_ms + c.issued * c.interval_ms)
            &&& b.base(now_ms) - b.span() <= c.next_at_ms <= b.base(now_ms) + b.span()
        }),
{
    law_jitter_stays_around_the_schedule(b, now_ms, s, s);
    let c = b.submitted(now_ms, s);
    if b.stalled(now_ms) {
        assert(c.issued * c.interval_ms == c.interval_ms) by (nonlinear_arith)
            requires
                c.issued == 1,
        ;
    }
}

/// The state after a run of submissions, each at its instant and with the generator
/// in its state.
pub open spec fn after_run(b: Beat, sends: Seq<(u64, u64)>) -> Beat
    decreases sends.len(),
{
    if sends.len() == 0 {
        b
    } else {
        after_run(b, sends.drop_last()).submitted(sends.last().0, sends.last().1)
    }
}

/// No submission of the run came after a stall.
pub open spec fn kept_up(b: Beat, sends: Seq<(u64, u64)>) -> bool
    decreases sends.len(),
{
    sends.len() > 0 ==> kept_up(b, sends.drop_last()) && !after_run(
        b,
        sends.drop_last(),
    ).stalled(sends.last().0)
}

/// The cadence does not drift: as long as no stall is dropped, the `n`-th
/// submission's successor is due exactly `n` intervals after the schedule stood,
/// however late or early the sends themselves were.
pub proof fn law_cadence_does_not_drift(b: Beat, sends: Seq<(u64, u64)>)
    requires
        b.wf(),
        kept_up(b, sends),
        b.issued + sends.len() < u64::MAX,
    ensures
        after_run(b, sends).anchor_ms == b.anchor_ms,
        after_run(b, sends).interval_ms == b.interval_ms,
        after_run(b, sends).issued == b.issued + sends.len(),
        after_run(b, sends).ideal() == b.anchor_ms + (b.issued + sends.len() + 1) * b.interval_ms,
    decreases sends.len(),
{
    if sends.len() > 0 {
        law_cadence_does_not_drift(b, sends.drop_last());
    }
}

/// A stall does not disturb the cadence that follows it: the schedule that starts with the
/// submission after a stall keeps to `anchor + issued × interval`, that submission counted,
/// for as long as no further stall is dropped.
pub proof fn law_cadence_after_a_stall_does_not_drift(
    b: Beat,
    now_ms: u64,
    s: u64,
    sends: Seq<(u64, u64)>,
)
    requires
        b.wf(),
        b.stalled(now_ms),
        kept_up(b.submitted(now_ms, s), sends),
        sends.len() + 1 < u64::MAX,
    ensures
        ({
            let c = after_run(b.submitted(now_ms, s), sends);
            let scheduled = capped(now_ms + (sends.len() + 1) * b.interval_ms);
            &&& c.anchor_ms == now_ms
            &&& c.issued == sends.len() + 1
            &&& scheduled - b.span() <= c.next_at_ms <= scheduled + b.span()
        }),
{
    let first = b.submitted(now_ms, s);
    law_cadence_does_not_drift(first, sends);
    law_a_run_keeps_its_shape(first, sends);
    let c = after_run(first, sends);
    assert(c.issued * c.interval_ms == (sends.len() + 1) * b.interval_ms) by (nonlinear_arith)
        requires
            c.issued == sends.len() + 1,
            c.interval_ms == b.interval_ms,
    ;
    if sends.len() == 0 {
        law_the_schedule_is_the_anchor_and_the_count(b, now_ms, s);
    } else {
        let before = after_run(first, sends.drop_last());
        law_a_run_keeps_its_shape(first, sends.drop_last());
        law_the_schedule_is_the_anchor_and_the_count(before, sends.last().0, sends.last().1);
    }
}

/// No submission changes the interval or the jitter.
pub proof fn law_a_run_keeps_its_shape(b: Beat, sends: Seq<(u64, u64)>)
    ensures
        after_run(b, sends).interval_ms == b.interval_ms,
        after_run(b, sends).jitter_pct == b.jitter_pct,
        after_run(b, sends).span() == b.span(),
        b.wf() ==> after_run(b, sends).wf(),
    decreases sends.len(),
{
    if sends.len() > 0 {
        law_a_run_keeps_its_shape(b, sends.drop_last());
    }
}

/// The cadence in one piece: from a new heartbeat, as long as no submission comes more than
/// one interval behind its instant, the one after the `k`-th is due within the jitter of
/// `k` intervals, however late or early the sends were. Instants are held at the largest.
pub proof fn law_a_new_heartbeat_keeps_its_cadence(
    interval_ms: u64,
    jitter_pct: u32,
    sends: Seq<(u64, u64)>,
)
    requires
        sends.len() > 0,
        forall|m: int|
            0 <= m < sends.len() ==> (#[trigger] sends[m]).0 <= (m + 2) * fresh(
                interval_ms,
                jitter_pct,
            ).interval_ms,
    ensures
        ({
            let b = fresh(interval_ms, jitter_pct);
            let c = after_run(b, sends);
            let scheduled = capped(sends.len() * b.interval_ms);
            &&& c.anchor_ms == 0
            &&& c.issued == capped(sends.len() as int)
            &&& scheduled - b.span() <= c.next_at_ms <= scheduled + b.span()
            &&& b.jitter_pct == 0 ==> c.next_at_ms == scheduled
        }),
    decreases sends.len(),
{
    let b = fresh(interval_ms, jitter_pct);
    let i = b.interval_ms as int;
    let n = sends.len() as int;
    let rest = sends.drop_last();
    let before = after_run(b, rest);
    let (now_ms, s) = sends.last();
    law_a_run_keeps_its_shape(b, rest);
    if n > 1 {
        assert forall|m: int| 0 <= m < rest.len() implies (#[trigger] rest[m]).0 <= (m + 2) * i by {
            assert(rest[m] == sends[m]);
        }
        law_a_new_heartbeat_keeps_its_cadence(interval_ms, jitter_pct, rest);
    } else {
        assert(rest.len() == 0);
    }
    assert(before.issued == capped(n - 1) && before.anchor_ms == 0);
    assert(before.counted() == capped(n));
    assert(now_ms == sends[n - 1].0 && now_ms <= (n + 1) * i);
    let t = before.counted();
    if n <= u64::MAX {
        assert(t * i + i == (n + 1) * i) by (nonlinear_arith)
            requires
                t == n,
        ;
    } else {
        assert(t * i >= u64::MAX && n * i >= u64::MAX) by (nonlinear_arith)
            requires
                t == u64::MAX,
                n >= u64::MAX,
                i >= 1,
        ;
    }
    assert(!before.stalled(now_ms));
    assert(before.base(now_ms) == capped(n * i));
    law_jitter_stays_around_the_schedule(before, now_ms, s, s);
}

/// The heartbeat's safety rails: what it may never spend past.
#[derive(Clone, Copy, Debug, PartialEq, Eq, Structural)]
pub struct HeartbeatLimits {
    /// Balance the funding wallet must keep.
    pub reserve_grains: u128,
    /// Optional cap on transactions submitted this session.
    pub max_tx: Option<u64>,
    /// Optional cap on total spend (transfer, fee and tip) this session.
    pub max_spend_grains: Option<u128>,
}

impl HeartbeatLimits {
    /// Rails with only the balance reserve armed.
    pub fn reserve_only(reserve_grains: u128) -> (l: Self)
        ensures
            l == (HeartbeatLimits { reserve_grains, max_tx: None, max_spend_grains: None }),
    {
        HeartbeatLimits { reserve_grains, max_tx: None, max_spend_grains: None }
    }
}

/// Why the heartbeat is not sending right now.
#[derive(Clone, Debug, PartialEq, Eq, Structural)]
pub enum HeartbeatHalt {
    /// The next send would take the balance below the reserve. Recoverable.
    BalanceFloor {
        /// The wallet's balance, in grains.
        balance: u128,
        /// The reserve it must not dip below, in grains.
        reserve: u128,
    },
    /// The session transaction cap was reached. Terminal.
    TxCap(u64),
    /// The session spend cap would be exceeded. Terminal.
    SpendCap(u128),
}

impl HeartbeatHalt {
    /// A halt that ends the session.
    pub open spec fn terminal(self) -> bool {
        self is TxCap || self is SpendCap
    }

    /// Whether this halt ends the session rather than pausing it.
    pub fn is_terminal(&self) -> (b: bool)
        ensures
            b == self.terminal(),
    {
        match self {
            HeartbeatHalt::BalanceFloor { .. } => false,
            HeartbeatHalt::TxCap(_) => true,
            HeartbeatHalt::SpendCap(_) => true,
        }
    }

    /// The reason in words.
    pub open spec fn text(self) -> Seq<char> {
        match self {
            HeartbeatHalt::BalanceFloor { balance, reserve } =>
                "paused at the balance floor — "@ + xus::display_text(balance as nat)
                    + " XUS left, reserve is "@ + xus::display_text(reserve as nat) + " XUS"@,
            HeartbeatHalt::TxCap(n) => "session cap reached — "@ + xus::grouped(n as nat)
                + " transactions submitted"@,
            HeartbeatHalt::SpendCap(g) => "session spend cap reached — "@ + xus::display_text(
                g as nat,
            ) + " XUS spent"@,
        }
    }

    /// The operator-facing reason, in words.
    pub fn message(&self) -> (s: String)
        ensures
            s@ == self.text(),
    {
        match self {
            HeartbeatHalt::BalanceFloor { balance, reserve } => {
                let mut s = owned("paused at the balance floor — ");
                s.append(fmt_xus(*balance).as_str());
                s.append(" XUS left, reserve is ");
                s.append(fmt_xus(*reserve).as_str());
                s.append(" XUS");
                s
            },
            HeartbeatHalt::TxCap(n) => {
                let mut s = owned("session cap reached — ");
                s.append(fmt_count(*n).as_str());
                s.append(" transactions submitted");
                s
            },
            HeartbeatHalt::SpendCap(g) => {
                let mut s = owned("session spend cap reached — ");
                s.append(fmt_xus(*g).as_str());
                s.append(" XUS spent");
                s
            },
        }
    }
}

/// What the balance would be after a send, never below zero.
pub open spec fn left_after(balance: u128, cost: u128) -> int {
    if balance < cost {
        0
    } else {
        balance - cost
    }
}

/// What the session would have spent after a send, held at the largest amount.
pub open spec fn spent_after(spent: u128, cost: u128) -> int {
    if spent + cost > u128::MAX {
        u128::MAX as int
    } else {
        spent + cost
    }
}

/// Why the next send may not go out, caps before the floor.
pub open spec fn halted(
    limits: HeartbeatLimits,
    balance: Option<u128>,
    sent: u64,
    spent: u128,
    next_cost: u128,
) -> Option<HeartbeatHalt> {
    if limits.max_tx matches Some(max) && sent >= max {
        Some(HeartbeatHalt::TxCap(sent))
    } else if limits.max_spend_grains matches Some(max) && spent_after(spent, next_cost) > max {
        Some(HeartbeatHalt::SpendCap(spent))
    } else if balance matches Some(bal) && left_after(bal, next_cost) < limits.reserve_grains {
        Some(
            HeartbeatHalt::BalanceFloor { balance: balance->Some_0, reserve: limits.reserve_grains },
        )
    } else {
        None
    }
}

/// Decide whether the heartbeat may submit its next transaction.
///
/// `balance` is the latest view of the funding wallet; `None` is not yet known, which
/// is not treated as empty. `next_cost` is what the next send commits: transfer, fee
/// and tip. The caps that end the session are reported before the floor that pauses
/// it.
pub fn heartbeat_halt(
    limits: &HeartbeatLimits,
    balance: Option<u128>,
    sent: u64,
    spent: u128,
    next_cost: u128,
) -> (r: Option<HeartbeatHalt>)
    ensures
        r == halted(*limits, balance, sent, spent, next_cost),
{
    if let Some(max) = limits.max_tx {
        if sent >= max {
            return Some(HeartbeatHalt::TxCap(sent));
        }
    }
    if let Some(max) = limits.max_spend_grains {
        if spent.saturating_add(next_cost) > max {
            return Some(HeartbeatHalt::SpendCap(spent));
        }
    }
    if let Some(bal) = balance {
        if bal.saturating_sub(next_cost) < limits.reserve_grains {
            return Some(
                HeartbeatHalt::BalanceFloor { balance: bal, reserve: limits.reserve_grains },
            );
        }
    }
    None
}

/// The heartbeat never drains a wallet: a send that is allowed on a known balance
/// leaves the reserve untouched. A reserve of nothing protects nothing.
pub proof fn law_the_reserve_is_never_crossed(
    limits: HeartbeatLimits,
    balance: u128,
    sent: u64,
    spent: u128,
    next_cost: u128,
)
    requires
        halted(limits, Some(balance), sent, spent, next_cost) is None,
        limits.reserve_grains > 0,
    ensures
        balance >= next_cost + limits.reserve_grains,
{
}

/// A send that is allowed stays inside both session caps. A spend cap at the largest
/// amount is no cap.
pub proof fn law_session_caps_hold(
    limits: HeartbeatLimits,
    balance: Option<u128>,
    sent: u64,
    spent: u128,
    next_cost: u128,
)
    requires
        halted(limits, balance, sent, spent, next_cost) is None,
    ensures
        limits.max_tx matches Some(max) ==> sent + 1 <= max,
        limits.max_spend_grains matches Some(max) ==> max < u128::MAX ==> spent + next_cost <= max,
{
}

/// Only a cap ends a session: with no cap set, every halt is a pause, and it lifts as
/// soon as the balance covers the cost and the reserve.
pub proof fn law_without_caps_a_halt_is_only_a_pause(
    reserve: u128,
    balance: Option<u128>,
    sent: u64,
    spent: u128,
    next_cost: u128,
)
    ensures
        ({
            let limits = HeartbeatLimits {
                reserve_grains: reserve,
                max_tx: None,
                max_spend_grains: None,
            };
            let h = halted(limits, balance, sent, spent, next_cost);
            &&& h matches Some(x) ==> !x.terminal()
            &&& balance is None ==> h is None
            &&& balance matches Some(bal) ==> bal >= next_cost + reserve ==> h is None
        }),
{
}

/// The rails stop a send for their three reasons and for nothing else, whichever of them are
/// armed. The transactions stop it once as many went out as are allowed; the spend, where it
/// would pass its cap; the balance, where the cost and the reserve together are more than it
/// holds. The first of these that applies is the one reported, with the figures it was
/// judged by. An unknown balance, and a reserve of nothing, stop nothing, and a spend cap at
/// the largest amount is none.
pub proof fn law_the_rails_stop_nothing_else(
    limits: HeartbeatLimits,
    balance: Option<u128>,
    sent: u64,
    spent: u128,
    next_cost: u128,
)
    ensures
        ({
            let h = halted(limits, balance, sent, spent, next_cost);
            let sent_out = limits.max_tx is Some && sent >= limits.max_tx->0;
            let spent_out = limits.max_spend_grains is Some && limits.max_spend_grains->0
                < u128::MAX && spent + next_cost > limits.max_spend_grains->0;
            let drained = balance is Some && limits.reserve_grains > 0 && next_cost
                + limits.reserve_grains > balance->0;
            &&& h is None <==> !sent_out && !spent_out && !drained
            &&& sent_out ==> h == Some(HeartbeatHalt::TxCap(sent))
            &&& !sent_out && spent_out ==> h == Some(HeartbeatHalt::SpendCap(spent))
            &&& !sent_out && !spent_out && drained ==> h == Some(
                HeartbeatHalt::BalanceFloor {
                    balance: balance->0,
                    reserve: limits.reserve_grains,
                },
            )
        }),
{
}

/// More balance never stops a send that less would have let out, and a dearer send is never
/// let out where a cheaper one is not.
pub proof fn law_the_rails_are_monotonic(
    limits: HeartbeatLimits,
    balance: u128,
    richer: u128,
    sent: u64,
    spent: u128,
    cost: u128,
    cheaper: u128,
)
    requires
        balance <= richer,
        cheaper <= cost,
        halted(limits, Some(balance), sent, spent, cost) is None,
    ensures
        halted(limits, Some(richer), sent, spent, cheaper) is None,
{
    law_the_rails_stop_nothing_else(limits, Some(balance), sent, spent, cost);
    law_the_rails_stop_nothing_else(limits, Some(richer), sent, spent, cheaper);
}

/// Jitter is uniform around the schedule: the span is the percentage of the interval, and the
/// draw decides between every instant from one span early to one span late, both included.
pub proof fn law_jitter_is_symmetric(b: Beat, now_ms: u64, s: u64)
    requires
        b.wf(),
        b.base(now_ms) >= b.span(),
        b.base(now_ms) + b.span() <= u64::MAX,
    ensures
        100 * b.span() <= b.interval_ms * b.jitter_pct < 100 * b.span() + 100,
        b.submitted(now_ms, s).next_at_ms == b.base(now_ms) + b.span() - (rng::wide_draw(s) % (2
            * b.span() + 1)) as int || b.span() == 0,
        b.span() == 0 ==> b.submitted(now_ms, s).next_at_ms == b.base(now_ms),
{
    assert((b.interval_ms as nat) * (b.jitter_pct as nat) == b.interval_ms * b.jitter_pct);
    assert(b.span() * 2 + 1 == 2 * b.span() + 1);
}

/// A new heartbeat is due at once, and has the interval and the jitter it was asked for where
/// they are in their bands, and the nearest ends of the bands where they are not.
pub proof fn law_a_new_heartbeat_is_due_at_once(interval_ms: u64, jitter_pct: u32)
    ensures
        ({
            let b = fresh(interval_ms, jitter_pct);
            &&& b.next_at_ms == 0 && b.issued == 0 && b.anchor_ms == 0
            &&& HEARTBEAT_MIN_INTERVAL_MS <= interval_ms <= HEARTBEAT_MAX_INTERVAL_MS
                ==> b.interval_ms == interval_ms
            &&& interval_ms < HEARTBEAT_MIN_INTERVAL_MS ==> b.interval_ms
                == HEARTBEAT_MIN_INTERVAL_MS
            &&& interval_ms > HEARTBEAT_MAX_INTERVAL_MS ==> b.interval_ms
                == HEARTBEAT_MAX_INTERVAL_MS
            &&& jitter_pct <= HEARTBEAT_MAX_JITTER_PCT ==> b.jitter_pct == jitter_pct
            &&& jitter_pct > HEARTBEAT_MAX_JITTER_PCT ==> b.jitter_pct == HEARTBEAT_MAX_JITTER_PCT
        }),
{
}

/// Only a cap ends a session; a balance at the floor pauses it.
pub proof fn law_only_a_cap_is_terminal(h: HeartbeatHalt)
    ensures
        h.terminal() <==> !(h is BalanceFloor),
{
}

/// A halt says what it was judged by: the balance and the reserve, the transactions that went
/// out, or what was spent.
pub proof fn law_a_halt_gives_its_figures(balance: u128, reserve: u128, sent: u64, spent: u128)
    ensures
        (HeartbeatHalt::BalanceFloor { balance, reserve }).text()
            == "paused at the balance floor — "@ + xus::display_text(balance as nat)
            + " XUS left, reserve is "@ + xus::display_text(reserve as nat) + " XUS"@,
        HeartbeatHalt::TxCap(sent).text() == "session cap reached — "@ + xus::grouped(sent as nat)
            + " transactions submitted"@,
        HeartbeatHalt::SpendCap(spent).text() == "session spend cap reached — "@
            + xus::display_text(spent as nat) + " XUS spent"@,
{
}

} // verus!
