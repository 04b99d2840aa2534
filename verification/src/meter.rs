//! A rolling throughput meter over a short window of one-second buckets, with
//! cumulative totals. Time is milliseconds, given by the caller.

use vstd::prelude::*;

verus! {

/// The event kinds the live meters track.
#[derive(Clone, Copy, Debug, PartialEq, Eq, Structural)]
pub enum MeterKind {
    /// A submission attempt; dry-run builds count too.
    Attempted,
    /// The node accepted it, or a dry run built it.
    Accepted,
    /// Rejected: pool or sender capacity.
    RejCapacity,
    /// Rejected: nonce, stale or slot already pooled.
    RejNonce,
    /// Rejected: affordability.
    RejAfford,
    /// Rejected: anything else, transport errors included.
    RejOther,
}

/// Number of [`MeterKind`] variants.
pub const METER_KINDS: usize = 6;

impl MeterKind {
    /// The kind's place among the counts.
    pub open spec fn spec_index(self) -> int {
        match self {
            MeterKind::Attempted => 0,
            MeterKind::Accepted => 1,
            MeterKind::RejCapacity => 2,
            MeterKind::RejNonce => 3,
            MeterKind::RejAfford => 4,
            MeterKind::RejOther => 5,
        }
    }

    /// The kind's place among the counts.
    pub fn index(self) -> (i: usize)
        ensures
            i == self.spec_index(),
            i < METER_KINDS,
    {
        match self {
            MeterKind::Attempted => 0,
            MeterKind::Accepted => 1,
            MeterKind::RejCapacity => 2,
            MeterKind::RejNonce => 3,
            MeterKind::RejAfford => 4,
            MeterKind::RejOther => 5,
        }
    }
}

/// Counts, one per kind.
pub type Counts = [u64; METER_KINDS];

/// A bucket: its second, and the counts in it.
pub type Bucket = (u64, Seq<u64>);

/// The counts of a single event.
pub open spec fn one_of(kind: MeterKind) -> Seq<u64> {
    Seq::new(METER_KINDS as nat, |i: int| if i == kind.spec_index() { 1u64 } else { 0u64 })
}

/// The buckets with one more event: in the newest bucket where that is its second,
/// else in a new one.
pub open spec fn bumped(b: Seq<Bucket>, sec: u64, kind: MeterKind) -> Seq<Bucket> {
    if b.len() > 0 && b.last().0 == sec {
        let k = kind.spec_index();
        b.update(b.len() - 1, (sec, b.last().1.update(k, (b.last().1[k] + 1) as u64)))
    } else {
        b.push((sec, one_of(kind)))
    }
}

/// The buckets without the oldest ones that have left the window ending at `now`.
pub open spec fn pruned(b: Seq<Bucket>, window: u64, now_sec: u64) -> Seq<Bucket>
    decreases b.len(),
{
    if b.len() > 0 && b[0].0 + window <= now_sec {
        pruned(b.skip(1), window, now_sec)
    } else {
        b
    }
}

/// The events of a kind in the buckets of `from..=to`.
pub open spec fn within(b: Seq<Bucket>, from: int, to: int, kind: MeterKind) -> nat
    decreases b.len(),
{
    if b.len() == 0 {
        0
    } else {
        within(b.drop_last(), from, to, kind) + if from <= b.last().0 <= to {
            b.last().1[kind.spec_index()] as nat
        } else {
            0
        }
    }
}

/// The first second of the window ending at `now`.
pub open spec fn window_start(window: u64, now_sec: u64) -> int {
    now_sec - window + 1
}

/// A meter's contents.
pub struct MeterView {
    /// The window, in seconds.
    pub window: u64,
    /// The buckets, oldest first.
    pub buckets: Seq<Bucket>,
    /// The events of each kind so far.
    pub totals: Seq<u64>,
}

impl MeterView {
    /// The window is not empty, every count has its place, and no bucket holds events
    /// that the totals do not.
    pub open spec fn wf(self) -> bool {
        &&& self.window >= 1
        &&& self.totals.len() == METER_KINDS
        &&& forall|i: int| 0 <= i < self.buckets.len() ==> (#[trigger] self.buckets[i]).1.len()
            == METER_KINDS
        &&& forall|k: MeterKind| #[trigger]
            within(self.buckets, 0, u64::MAX as int, k) <= self.totals[k.spec_index()]
    }

    /// The rejections of every kind together.
    pub open spec fn rejected(self) -> int {
        self.totals[MeterKind::RejCapacity.spec_index()]
            + self.totals[MeterKind::RejNonce.spec_index()]
            + self.totals[MeterKind::RejAfford.spec_index()]
            + self.totals[MeterKind::RejOther.spec_index()]
    }

    /// The meter after an event.
    pub open spec fn recorded(self, now_ms: u64, kind: MeterKind) -> MeterView {
        let sec = (now_ms / 1000) as u64;
        let k = kind.spec_index();
        MeterView {
            window: self.window,
            buckets: pruned(bumped(self.buckets, sec, kind), self.window, sec),
            totals: self.totals.update(k, (self.totals[k] + 1) as u64),
        }
    }
}

/// Narrowing the seconds, or taking fewer buckets, never counts more events.
proof fn lemma_within_parts(b: Seq<Bucket>, from: int, to: int, kind: MeterKind, i: int)
    requires
        0 <= i <= b.len(),
        0 <= from,
        to <= u64::MAX,
    ensures
        within(b.take(i), from, to, kind) <= within(b, 0, u64::MAX as int, kind),
    decreases b.len(),
{
    if b.len() > 0 {
        if i == b.len() {
            assert(b.take(i) =~= b);
            lemma_within_parts(b.drop_last(), from, to, kind, i - 1);
            assert(b.drop_last().take(i - 1) =~= b.drop_last());
        } else {
            lemma_within_parts(b.drop_last(), from, to, kind, i);
            assert(b.drop_last().take(i) =~= b.take(i));
        }
    } else {
        assert(b.take(i) =~= b);
    }
}

/// Taking the oldest bucket away takes its events away.
proof fn lemma_within_skip(b: Seq<Bucket>, from: int, to: int, kind: MeterKind)
    requires
        b.len() > 0,
    ensures
        within(b, from, to, kind) == within(b.skip(1), from, to, kind) + if from <= b[0].0 <= to {
            b[0].1[kind.spec_index()] as nat
        } else {
            0
        },
    decreases b.len(),
{
    reveal_with_fuel(within, 2);
    if b.len() == 1 {
        assert(b.skip(1) =~= Seq::empty());
        assert(b.drop_last() =~= Seq::empty());
    } else {
        lemma_within_skip(b.drop_last(), from, to, kind);
        assert(b.drop_last().skip(1) =~= b.skip(1).drop_last());
    }
}

/// Pruning only ever drops events, and none of a window that ends at `now` or later.
proof fn lemma_within_pruned(
    b: Seq<Bucket>,
    window: u64,
    now_sec: u64,
    from: int,
    to: int,
    kind: MeterKind,
)
    ensures
        within(pruned(b, window, now_sec), from, to, kind) <= within(b, from, to, kind),
        from >= window_start(window, now_sec) ==> within(
            pruned(b, window, now_sec),
            from,
            to,
            kind,
        ) == within(b, from, to, kind),
    decreases b.len(),
{
    if b.len() > 0 && b[0].0 + window <= now_sec {
        lemma_within_skip(b, from, to, kind);
        lemma_within_pruned(b.skip(1), window, now_sec, from, to, kind);
    }
}

/// One more event is one more event of its kind, where its second is counted.
proof fn lemma_within_bumped(
    b: Seq<Bucket>,
    sec: u64,
    added: MeterKind,
    from: int,
    to: int,
    kind: MeterKind,
)
    requires
        b.len() > 0 ==> b.last().1.len() == METER_KINDS && b.last().1[added.spec_index()]
            < u64::MAX,
    ensures
        within(bumped(b, sec, added), from, to, kind) == within(b, from, to, kind) + if from <= sec
            <= to && added == kind {
            1nat
        } else {
            0nat
        },
{
    let c = bumped(b, sec, added);
    assert(added.spec_index() == kind.spec_index() ==> added == kind);
    if b.len() > 0 && b.last().0 == sec {
        assert(c.drop_last() =~= b.drop_last());
    } else {
        assert(c.drop_last() =~= b);
    }
}

/// A bucket never holds more events of a kind than all of them together.
proof fn lemma_bucket_below_total(b: Seq<Bucket>, kind: MeterKind, i: int)
    requires
        0 <= i < b.len(),
    ensures
        b[i].1[kind.spec_index()] <= within(b, 0, u64::MAX as int, kind),
    decreases b.len(),
{
    if i < b.len() - 1 {
        lemma_bucket_below_total(b.drop_last(), kind, i);
    }
}

/// Pruning keeps the shape of what it keeps.
proof fn lemma_pruned_shape(b: Seq<Bucket>, window: u64, now_sec: u64)
    requires
        forall|i: int| 0 <= i < b.len() ==> (#[trigger] b[i]).1.len() == METER_KINDS,
    ensures
        forall|i: int|
            0 <= i < pruned(b, window, now_sec).len() ==> (#[trigger] pruned(
                b,
                window,
                now_sec,
            )[i]).1.len() == METER_KINDS,
    decreases b.len(),
{
    if b.len() > 0 && b[0].0 + window <= now_sec {
        let rest = b.skip(1);
        assert forall|i: int| 0 <= i < rest.len() implies (#[trigger] rest[i]).1.len()
            == METER_KINDS by {
            assert(rest[i] == b[i + 1]);
        }
        lemma_pruned_shape(rest, window, now_sec);
        let kept = pruned(rest, window, now_sec);
        assert(pruned(b, window, now_sec) == kept);
        assert forall|i: int| 0 <= i < kept.len() implies (#[trigger] kept[i]).1.len()
            == METER_KINDS by {}
    }
}

/// An event keeps the meter in order, as long as its total can be counted.
pub proof fn lemma_recorded_wf(m: MeterView, now_ms: u64, kind: MeterKind)
    requires
        m.wf(),
        m.totals[kind.spec_index()] < u64::MAX,
    ensures
        m.recorded(now_ms, kind).wf(),
{
    let sec = (now_ms / 1000) as u64;
    let c = bumped(m.buckets, sec, kind);
    let r = m.recorded(now_ms, kind);
    if m.buckets.len() > 0 {
        lemma_bucket_below_total(m.buckets, kind, m.buckets.len() - 1);
        assert(m.buckets[m.buckets.len() - 1].1.len() == METER_KINDS);
    }
    assert forall|k: MeterKind| #[trigger]
        within(r.buckets, 0, u64::MAX as int, k) <= r.totals[k.spec_index()] by {
        lemma_within_bumped(m.buckets, sec, kind, 0, u64::MAX as int, k);
        lemma_within_pruned(c, m.window, sec, 0, u64::MAX as int, k);
        assert(within(m.buckets, 0, u64::MAX as int, k) <= m.totals[k.spec_index()]);
    }
    lemma_pruned_shape(c, m.window, sec);
}

/// A rolling per-second throughput meter.
#[derive(Clone, Debug)]
pub struct RateMeter {
    window_secs: u64,
    buckets: Vec<(u64, Counts)>,
    totals: Counts,
}

impl RateMeter {
    /// The meter's contents.
    pub closed spec fn view(&self) -> MeterView {
        MeterView {
            window: self.window_secs,
            buckets: self.buckets@.map_values(|b: (u64, Counts)| (b.0, b.1@)),
            totals: self.totals@,
        }
    }

    /// A meter over the trailing `window_secs` seconds, at least one.
    pub fn new(window_secs: u64) -> (m: Self)
        ensures
            m@.wf(),
            m@.window == if window_secs < 1 {
                1
            } else {
                window_secs
            },
            m@.buckets == Seq::<Bucket>::empty(),
            forall|k: MeterKind| m@.totals[#[trigger] k.spec_index()] == 0,
    {
        let m = RateMeter {
            window_secs: if window_secs < 1 {
                1
            } else {
                window_secs
            },
            buckets: Vec::new(),
            totals: [0;METER_KINDS],
        };
        assert(m@.buckets =~= Seq::<Bucket>::empty());
        m
    }

    /// The window, in seconds.
    pub fn window_secs(&self) -> (w: u64)
        ensures
            w == self@.window,
    {
        self.window_secs
    }

    fn prune(&mut self, now_sec: u64)
        ensures
            final(self)@ == (MeterView {
                buckets: pruned(old(self)@.buckets, old(self)@.window, now_sec),
                ..old(self)@
            }),
    {
        while self.buckets.len() > 0
            invariant
                self.window_secs == old(self).window_secs,
                self.totals == old(self).totals,
                pruned(self@.buckets, self.window_secs, now_sec) == pruned(
                    old(self)@.buckets,
                    old(self).window_secs,
                    now_sec,
                ),
            ensures
                self@.buckets == pruned(old(self)@.buckets, old(self).window_secs, now_sec),
            decreases self.buckets@.len(),
        {
            let sec: u64 = self.buckets[0].0;
            assert(self@.buckets[0].0 == sec);
            if now_sec < self.window_secs || sec > now_sec - self.window_secs {
                break;
            }
            let ghost before = self@.buckets;
            self.buckets.remove(0);
            assert(self@.buckets =~= before.skip(1));
        }
    }

    /// Record one event of `kind` at `now_ms`.
    pub fn record(&mut self, now_ms: u64, kind: MeterKind)
        requires
            old(self)@.wf(),
            old(self)@.totals[kind.spec_index()] < u64::MAX,
        ensures
            final(self)@.wf(),
            final(self)@ == old(self)@.recorded(now_ms, kind),
    {
        let ghost before = self@;
        let sec: u64 = now_ms / 1000;
        let k: usize = kind.index();
        proof {
            lemma_recorded_wf(before, now_ms, kind);
        }
        self.totals[k] = self.totals[k] + 1;
        let n: usize = self.buckets.len();
        if n > 0 && self.buckets[n - 1].0 == sec {
            proof {
                lemma_bucket_below_total(before.buckets, kind, n - 1);
                assert(before.buckets[n - 1].1.len() == METER_KINDS);
            }
            let mut counts: Counts = self.buckets[n - 1].1;
            counts[k] = counts[k] + 1;
            self.buckets.set(n - 1, (sec, counts));
            assert(before.buckets.last() == before.buckets[n - 1]);
            assert(self@.buckets =~= bumped(before.buckets, sec, kind));
        } else {
            let mut counts: Counts = [0;METER_KINDS];
            counts[k] = 1;
            assert(counts@ =~= one_of(kind));
            self.buckets.push((sec, counts));
            assert(self@.buckets =~= bumped(before.buckets, sec, kind));
        }
        self.prune(sec);
    }

    /// The events of `kind` in the trailing window ending at `now_ms`. Over the window's
    /// length, they are the rate.
    pub fn window_count(&self, now_ms: u64, kind: MeterKind) -> (n: u64)
        requires
            self@.wf(),
        ensures
            n == within(
                self@.buckets,
                window_start(self@.window, (now_ms / 1000) as u64),
                (now_ms / 1000) as int,
                kind,
            ),
    {
        let now_sec: u64 = now_ms / 1000;
        let from: u64 = now_sec.saturating_sub(self.window_secs - 1);
        let k: usize = kind.index();
        let ghost b = self@.buckets;
        let mut sum: u64 = 0;
        let mut i: usize = 0;
        while i < self.buckets.len()
            invariant
                self@.wf(),
                b == self@.buckets,
                b.len() == self.buckets@.len(),
                k == kind.spec_index(),
                k < METER_KINDS,
                i <= self.buckets@.len(),
                0 <= from,
                now_sec <= u64::MAX,
                sum == within(b.take(i as int), from as int, now_sec as int, kind),
            decreases self.buckets@.len() - i,
        {
            let sec: u64 = self.buckets[i].0;
            let c: u64 = self.buckets[i].1[k];
            assert(b[i as int] == (sec, self.buckets@[i as int].1@));
            assert(b.take(i + 1).drop_last() =~= b.take(i as int));
            proof {
                lemma_within_parts(b, from as int, now_sec as int, kind, i + 1);
                assert(within(b, 0, u64::MAX as int, kind) <= self@.totals[kind.spec_index()]);
            }
            if sec >= from && sec <= now_sec {
                sum = sum + c;
            }
            i = i + 1;
        }
        assert(b.take(i as int) =~= b);
        proof {
            lemma_within_from_zero(
                b,
                window_start(self@.window, now_sec),
                from as int,
                now_sec as int,
                kind,
            );
        }
        sum
    }

    /// Cumulative count of `kind` since the meter was created.
    pub fn total(&self, kind: MeterKind) -> (n: u64)
        ensures
            n == self@.totals[kind.spec_index()],
    {
        self.totals[kind.index()]
    }
}

/// No bucket lies before second zero.
proof fn lemma_within_from_zero(b: Seq<Bucket>, from: int, clamped: int, to: int, kind: MeterKind)
    requires
        clamped == if from < 0 {
            0
        } else {
            from
        },
    ensures
        within(b, from, to, kind) == within(b, clamped, to, kind),
    decreases b.len(),
{
    if b.len() > 0 {
        lemma_within_from_zero(b.drop_last(), from, clamped, to, kind);
    }
}

/// A meter after a history of events, each with its time.
pub open spec fn after_events(m: MeterView, events: Seq<(u64, MeterKind)>) -> MeterView
    decreases events.len(),
{
    if events.len() == 0 {
        m
    } else {
        after_events(m, events.drop_last()).recorded(events.last().0, events.last().1)
    }
}

/// The events of a kind in `from..=to` seconds.
pub open spec fn happened(
    events: Seq<(u64, MeterKind)>,
    from: int,
    to: int,
    kind: MeterKind,
) -> nat {
    events.filter(|e: (u64, MeterKind)| e.1 == kind && from <= e.0 / 1000 <= to).len()
}

/// The window counts exactly the events that happened in it, and the totals count
/// every event ever, for any history no longer than can be counted and no event of
/// which lies after the moment that is asked about.
pub proof fn law_the_meter_counts_what_happened(
    m: MeterView,
    events: Seq<(u64, MeterKind)>,
    now_ms: u64,
    kind: MeterKind,
)
    requires
        m.wf(),
        m.buckets.len() == 0,
        forall|k: MeterKind| m.totals[#[trigger] k.spec_index()] == 0,
        events.len() < u64::MAX,
        forall|i: int| 0 <= i < events.len() ==> (#[trigger] events[i]).0 <= now_ms,
    ensures
        after_events(m, events).wf(),
        after_events(m, events).window == m.window,
        within(
            after_events(m, events).buckets,
            window_start(m.window, (now_ms / 1000) as u64),
            (now_ms / 1000) as int,
            kind,
        ) == happened(
            events,
            window_start(m.window, (now_ms / 1000) as u64),
            (now_ms / 1000) as int,
            kind,
        ),
        after_events(m, events).totals[kind.spec_index()] == happened(
            events,
            0,
            u64::MAX as int,
            kind,
        ),
    decreases events.len(),
{
    let now_sec = (now_ms / 1000) as u64;
    let from = window_start(m.window, now_sec);
    let to = now_sec as int;
    reveal(Seq::filter);
    if events.len() > 0 {
        let rest = events.drop_last();
        let (at, added) = events.last();
        let sec = (at / 1000) as u64;
        assert(events[events.len() - 1].0 <= now_ms);
        assert forall|i: int| 0 <= i < rest.len() implies (#[trigger] rest[i]).0 <= now_ms by {
            assert(rest[i] == events[i]);
        }
        law_the_meter_counts_what_happened(m, rest, now_ms, kind);
        law_the_meter_counts_what_happened(m, rest, now_ms, added);
        let before = after_events(m, rest);
        let all = |e: (u64, MeterKind)| e.1 == added && 0 <= e.0 / 1000 <= u64::MAX as int;
        rest.lemma_filter_len(all);
        assert(before.totals[added.spec_index()] <= rest.len());
        lemma_recorded_wf(before, at, added);
        if before.buckets.len() > 0 {
            lemma_bucket_below_total(before.buckets, added, before.buckets.len() - 1);
            assert(before.buckets[before.buckets.len() - 1].1.len() == METER_KINDS);
            assert(within(before.buckets, 0, u64::MAX as int, added)
                <= before.totals[added.spec_index()]);
        }
        lemma_within_bumped(before.buckets, sec, added, from, to, kind);
        lemma_within_pruned(
            bumped(before.buckets, sec, added),
            m.window,
            sec,
            from,
            to,
            kind,
        );
        assert(added.spec_index() == kind.spec_index() ==> added == kind);
    }
}

/// The events of a kind at a second that the window still shows: no later than now, and less
/// than a window ago.
pub open spec fn shown(
    events: Seq<(u64, MeterKind)>,
    window: u64,
    now_sec: u64,
    kind: MeterKind,
) -> nat
    decreases events.len(),
{
    if events.len() == 0 {
        0
    } else {
        let (at, k) = events.last();
        shown(events.drop_last(), window, now_sec, kind) + if k == kind && at / 1000 <= now_sec
            && now_sec < at / 1000 + window {
            1nat
        } else {
            0nat
        }
    }
}

/// The events of a kind.
pub open spec fn ever(events: Seq<(u64, MeterKind)>, kind: MeterKind) -> nat
    decreases events.len(),
{
    if events.len() == 0 {
        0
    } else {
        ever(events.drop_last(), kind) + if events.last().1 == kind {
            1nat
        } else {
            0nat
        }
    }
}

proof fn lemma_happened_is_shown(
    events: Seq<(u64, MeterKind)>,
    window: u64,
    now_sec: u64,
    kind: MeterKind,
)
    ensures
        happened(events, now_sec - window + 1, now_sec as int, kind) == shown(
            events,
            window,
            now_sec,
            kind,
        ),
        happened(events, 0, u64::MAX as int, kind) == ever(events, kind),
    decreases events.len(),
{
    reveal(Seq::filter);
    if events.len() > 0 {
        lemma_happened_is_shown(events.drop_last(), window, now_sec, kind);
    }
}

/// A second of the window is a second, whatever the millisecond: a new meter's window counts
/// the events of a kind at the seconds less than its length ago, this second included, and
/// its totals count every one, each under its own kind.
pub proof fn law_the_window_shows_its_seconds(
    m: MeterView,
    events: Seq<(u64, MeterKind)>,
    now_ms: u64,
    kind: MeterKind,
)
    requires
        m.wf(),
        m.buckets.len() == 0,
        forall|k: MeterKind| m.totals[#[trigger] k.spec_index()] == 0,
        events.len() < u64::MAX,
        forall|i: int| 0 <= i < events.len() ==> (#[trigger] events[i]).0 <= now_ms,
    ensures
        ({
            let now_sec = (now_ms / 1000) as u64;
            let n = after_events(m, events);
            &&& within(n.buckets, window_start(m.window, now_sec), now_sec as int, kind) == shown(
                events,
                m.window,
                now_sec,
                kind,
            )
            &&& n.totals[kind.spec_index()] == ever(events, kind)
            &&& n.rejected() == ever(events, MeterKind::RejCapacity) + ever(
                events,
                MeterKind::RejNonce,
            ) + ever(events, MeterKind::RejAfford) + ever(events, MeterKind::RejOther)
        }),
{
    let now_sec = (now_ms / 1000) as u64;
    law_the_meter_counts_what_happened(m, events, now_ms, kind);
    lemma_happened_is_shown(events, m.window, now_sec, kind);
    law_the_meter_counts_what_happened(m, events, now_ms, MeterKind::RejCapacity);
    lemma_happened_is_shown(events, m.window, now_sec, MeterKind::RejCapacity);
    law_the_meter_counts_what_happened(m, events, now_ms, MeterKind::RejNonce);
    lemma_happened_is_shown(events, m.window, now_sec, MeterKind::RejNonce);
    law_the_meter_counts_what_happened(m, events, now_ms, MeterKind::RejAfford);
    lemma_happened_is_shown(events, m.window, now_sec, MeterKind::RejAfford);
    law_the_meter_counts_what_happened(m, events, now_ms, MeterKind::RejOther);
    lemma_happened_is_shown(events, m.window, now_sec, MeterKind::RejOther);
}

/// Every kind has its own place among the counts.
pub proof fn law_no_two_kinds_share_a_count(a: MeterKind, b: MeterKind)
    ensures
        a.spec_index() == b.spec_index() ==> a == b,
        0 <= a.spec_index() < METER_KINDS,
{
}

} // verus!
