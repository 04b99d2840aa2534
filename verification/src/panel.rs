//! What the operator's panel says: the node's health, the state of the app, the mempool
//! scope, and each wallet's condition.
//!
//! A datum the node did not supply is unknown here, never a zero.

use crate::present;
use crate::present::{
    fmt_elapsed, fmt_pct, nice_ceiling, Blocker, Pressure, SCOPE_GAP_MS, SCOPE_WINDOW_SECS,
};
use crate::setup::ModeChoice;
use crate::status;
use crate::status::WalletStat;
use crate::text;
use crate::text::{chars_of, owned, push_decimal, slice_chars, string_of};
use crate::xus;
use crate::xus::fmt_count;
use vstd::prelude::*;

verus! {

/// The node's default mempool capacity, as a display hint.
pub const MEMPOOL_CAP_HINT: u64 = 16_384;

/// Depth at which the scope draws its saturation line.
pub const SATURATION_DEPTH: u64 = 15_561;

/// Samples of mempool history that are retained: the scope's window, one a second, and
/// a few seconds of slack.
pub const MEMPOOL_HISTORY_SAMPLES: usize = 308;

/// How old the last successful probe may be and still count as connected.
pub const HEARTBEAT_FRESH_MS: u64 = 7_000;

/// Cells of the occupancy bar.
pub const BAR_CELLS: u64 = 64;

/// One observation of the node's mempool. Only recorded when the node answered both for
/// its height and for its depth.
#[derive(Clone, Copy, Debug, PartialEq, Eq, Structural)]
pub struct MempoolSample {
    /// When, since launch.
    pub at_ms: u64,
    /// Transactions pooled.
    pub depth: u64,
    /// The chain's height.
    pub height: u64,
    /// True on the first sample observed at a newly mined height.
    pub new_block: bool,
}

/// The mempool time series behind the scope.
#[derive(Debug)]
pub struct MempoolHistory {
    samples: Vec<MempoolSample>,
}

/// The newest samples, as many as are retained.
pub open spec fn newest_samples(s: Seq<MempoolSample>) -> Seq<MempoolSample> {
    if s.len() > MEMPOOL_HISTORY_SAMPLES {
        s.skip(s.len() - MEMPOOL_HISTORY_SAMPLES)
    } else {
        s
    }
}

/// A series with one more observation.
pub open spec fn sampled(
    s: Seq<MempoolSample>,
    at_ms: u64,
    height: u64,
    depth: u64,
) -> Seq<MempoolSample> {
    let new_block = s.len() > 0 && height > s.last().height;
    newest_samples(s.push(MempoolSample { at_ms, depth, height, new_block }))
}

impl MempoolHistory {
    /// The samples, oldest first.
    pub closed spec fn view(&self) -> Seq<MempoolSample> {
        self.samples@
    }

    /// The series is bounded.
    pub open spec fn wf(&self) -> bool {
        self@.len() <= MEMPOOL_HISTORY_SAMPLES
    }

    /// No samples.
    pub fn new() -> (h: Self)
        ensures
            h@ == Seq::<MempoolSample>::empty(),
            h.wf(),
    {
        MempoolHistory { samples: Vec::new() }
    }

    /// The samples, oldest first.
    pub fn samples(&self) -> (s: &Vec<MempoolSample>)
        ensures
            s@ == self@,
    {
        &self.samples
    }

    /// Record one real observation, marking it as the first sample at a newly mined
    /// height, and keep the series bounded.
    pub fn sample(&mut self, at_ms: u64, height: u64, depth: u64)
        requires
            old(self).wf(),
        ensures
            final(self).wf(),
            final(self)@ == sampled(old(self)@, at_ms, height, depth),
    {
        let n: usize = self.samples.len();
        let new_block: bool = n > 0 && height > self.samples[n - 1].height;
        self.samples.push(MempoolSample { at_ms, depth, height, new_block });
        if self.samples.len() > MEMPOOL_HISTORY_SAMPLES {
            self.samples.remove(0);
            assert(self@ =~= sampled(old(self)@, at_ms, height, depth));
        }
    }
}

/// Milliseconds of the scope's window.
pub open spec fn window_ms() -> u64 {
    300_000
}

/// A sample that the scope shows.
pub open spec fn in_view(now_ms: u64) -> spec_fn(MempoolSample) -> bool {
    |s: MempoolSample| now_ms - s.at_ms <= window_ms()
}

/// The samples that the scope shows, oldest first.
pub fn visible(samples: &Vec<MempoolSample>, now_ms: u64) -> (r: Vec<MempoolSample>)
    ensures
        r@ == samples@.filter(in_view(now_ms)),
{
    let mut r: Vec<MempoolSample> = Vec::new();
    let n: usize = samples.len();
    let mut i: usize = 0;
    proof {
        reveal(Seq::filter);
    }
    assert(samples@.take(0).filter(in_view(now_ms)) =~= Seq::<MempoolSample>::empty());
    while i < n
        invariant
            n == samples@.len(),
            i <= n,
            r@ == samples@.take(i as int).filter(in_view(now_ms)),
        decreases n - i,
    {
        proof {
            reveal(Seq::filter);
            assert(samples@.take(i + 1).drop_last() =~= samples@.take(i as int));
            assert(samples@.take(i + 1).last() == samples@[i as int]);
        }
        let s: MempoolSample = samples[i];
        if now_ms.saturating_sub(s.at_ms) <= SCOPE_WINDOW_SECS * 1_000 {
            r.push(s);
        }
        i = i + 1;
    }
    assert(samples@.take(i as int) =~= samples@);
    r
}

/// The node told us nothing between two samples.
pub open spec fn apart(a: MempoolSample, b: MempoolSample) -> bool {
    b.at_ms - a.at_ms > SCOPE_GAP_MS
}

/// A series as contiguous traces: a gap breaks the line.
pub open spec fn traces_of(s: Seq<MempoolSample>) -> Seq<Seq<MempoolSample>>
    decreases s.len(),
{
    if s.len() == 0 {
        Seq::empty()
    } else {
        let before = traces_of(s.drop_last());
        if s.len() == 1 || apart(s[s.len() - 2], s.last()) {
            before.push(seq![s.last()])
        } else {
            before.drop_last().push(before.last().push(s.last()))
        }
    }
}

/// Traces by their samples.
pub open spec fn trace_views(v: Seq<Vec<MempoolSample>>) -> Seq<Seq<MempoolSample>> {
    v.map_values(|t: Vec<MempoolSample>| t@)
}

/// Split a series into contiguous traces, so that no line is drawn across seconds in
/// which the node told us nothing.
pub fn traces(samples: &Vec<MempoolSample>) -> (r: Vec<Vec<MempoolSample>>)
    ensures
        trace_views(r@) == traces_of(samples@),
{
    let mut done: Vec<Vec<MempoolSample>> = Vec::new();
    let mut run: Vec<MempoolSample> = Vec::new();
    let n: usize = samples.len();
    if n == 0 {
        assert(trace_views(done@) =~= traces_of(samples@));
        return done;
    }
    run.push(samples[0]);
    let ghost one = samples@.take(1);
    assert(one.drop_last() =~= Seq::<MempoolSample>::empty());
    assert(run@ =~= seq![one.last()]);
    assert(traces_of(one) =~= seq![run@]) by {
        reveal_with_fuel(traces_of, 2);
    }
    let mut i: usize = 1;
    assert(trace_views(done@).push(run@) =~= traces_of(samples@.take(1)));
    while i < n
        invariant
            n == samples@.len(),
            1 <= i <= n,
            trace_views(done@).push(run@) == traces_of(samples@.take(i as int)),
        decreases n - i,
    {
        let ghost before = traces_of(samples@.take(i as int));
        let ghost next = samples@.take(i + 1);
        assert(next.drop_last() =~= samples@.take(i as int));
        assert(next.last() == samples@[i as int]);
        assert(next[next.len() - 2] == samples@[i - 1]);
        assert(before.last() == run@);
        assert(before.drop_last() =~= trace_views(done@));
        let a: MempoolSample = samples[i - 1];
        let b: MempoolSample = samples[i];
        if b.at_ms.saturating_sub(a.at_ms) > SCOPE_GAP_MS {
            done.push(run);
            assert(trace_views(done@) =~= before);
            run = Vec::new();
            run.push(b);
            assert(run@ =~= seq![b]);
        } else {
            run.push(b);
        }
        i = i + 1;
    }
    assert(samples@.take(i as int) =~= samples@);
    let ghost all = trace_views(done@).push(run@);
    done.push(run);
    assert(trace_views(done@) =~= all);
    done
}

/// Traces one after the other.
pub open spec fn strung(t: Seq<Seq<MempoolSample>>) -> Seq<MempoolSample>
    decreases t.len(),
{
    if t.len() == 0 {
        Seq::empty()
    } else {
        strung(t.drop_last()) + t.last()
    }
}

/// Splitting invents nothing and loses nothing, and no trace crosses a gap.
pub proof fn law_traces_are_the_samples(s: Seq<MempoolSample>)
    ensures
        strung(traces_of(s)) == s,
        traces_of(s).len() == 0 <==> s.len() == 0,
        s.len() > 0 ==> traces_of(s).last().len() > 0 && traces_of(s).last().last() == s.last(),
        forall|t: int, i: int|
            0 <= t < traces_of(s).len() && 0 < i < traces_of(s)[t].len() ==> !apart(
                traces_of(s)[t][i - 1],
                #[trigger] traces_of(s)[t][i],
            ),
    decreases s.len(),
{
    if s.len() > 0 {
        let rest = s.drop_last();
        law_traces_are_the_samples(rest);
        let before = traces_of(rest);
        let after = traces_of(s);
        if s.len() == 1 || apart(s[s.len() - 2], s.last()) {
            assert(after.drop_last() =~= before);
            assert(strung(after) =~= rest + seq![s.last()]);
            assert(strung(after) =~= s);
        } else {
            assert(after.drop_last() =~= before.drop_last());
            assert(strung(after) =~= strung(before.drop_last()) + before.last().push(s.last()));
            assert(strung(after) =~= strung(before).push(s.last()));
            assert(strung(after) =~= s);
            assert(rest.last() == s[s.len() - 2]);
        }
        assert forall|t: int, i: int|
            0 <= t < after.len() && 0 < i < after[t].len() implies !apart(
            after[t][i - 1],
            #[trigger] after[t][i],
        ) by {
            if t < after.len() - 1 {
                assert(after[t] == before[t]);
                assert(!apart(before[t][i - 1], before[t][i]));
            } else if s.len() > 1 && !apart(s[s.len() - 2], s.last()) {
                let run = before.last();
                assert(before[before.len() - 1] == run);
                if i < run.len() {
                    assert(!apart(
                        before[before.len() - 1][i - 1],
                        before[before.len() - 1][i],
                    ));
                }
            }
        }
    }
}

/// The greatest depth of a series, zero where there is none.
pub open spec fn peak_of(s: Seq<MempoolSample>) -> u64
    decreases s.len(),
{
    if s.len() == 0 {
        0
    } else if s.last().depth > peak_of(s.drop_last()) {
        s.last().depth
    } else {
        peak_of(s.drop_last())
    }
}

/// The depth that the scope's axis has to reach: the taller of the peak and the
/// saturation line, so that the line is always on screen.
pub open spec fn scope_reach(s: Seq<MempoolSample>) -> u64 {
    if peak_of(s) < SATURATION_DEPTH {
        SATURATION_DEPTH
    } else {
        peak_of(s)
    }
}

/// The scope's vertical ceiling.
pub fn scope_ceiling(samples: &Vec<MempoolSample>) -> (c: u64)
    ensures
        c >= scope_reach(samples@),
        present::on_ladder(c as nat) || c == u64::MAX,
        forall|x: nat| #[trigger]
            present::on_ladder(x) && x >= scope_reach(samples@) ==> c <= x,
{
    let mut peak: u64 = 0;
    let n: usize = samples.len();
    let mut i: usize = 0;
    while i < n
        invariant
            n == samples@.len(),
            i <= n,
            peak == peak_of(samples@.take(i as int)),
        decreases n - i,
    {
        assert(samples@.take(i + 1).drop_last() =~= samples@.take(i as int));
        if samples[i].depth > peak {
            peak = samples[i].depth;
        }
        i = i + 1;
    }
    assert(samples@.take(i as int) =~= samples@);
    nice_ceiling(
        if peak < SATURATION_DEPTH {
            SATURATION_DEPTH
        } else {
            peak
        },
    )
}

/// Transactions that one cell of the occupancy bar stands for.
pub fn cell_size() -> (n: u64)
    ensures
        n == MEMPOOL_CAP_HINT / BAR_CELLS,
{
    MEMPOOL_CAP_HINT / BAR_CELLS
}

/// Cells that a depth lights: rounded up, so that a single pooled transaction lights
/// exactly one, and never more than there are.
pub open spec fn lit(depth: u64) -> int {
    if depth >= MEMPOOL_CAP_HINT {
        BAR_CELLS as int
    } else {
        (depth + 255) / 256
    }
}

/// Cells of the occupancy bar that a depth lights.
pub fn lit_cells(depth: u64) -> (n: u64)
    ensures
        n == lit(depth),
{
    if depth >= MEMPOOL_CAP_HINT {
        BAR_CELLS
    } else {
        (depth + 255) / 256
    }
}

/// The bar is honest: it is dark exactly when nothing is pooled, full exactly when more
/// than all but one cell's worth is, and never overfull.
pub proof fn law_the_bar_is_honest(depth: u64)
    ensures
        lit(depth) == 0 <==> depth == 0,
        lit(depth) <= BAR_CELLS,
        lit(depth) == BAR_CELLS <==> depth > MEMPOOL_CAP_HINT - 256,
        depth < MEMPOOL_CAP_HINT ==> 256 * (lit(depth) - 1) < depth <= 256 * lit(depth) || depth
            == 0,
{
}

/// The scope's caption.
pub open spec fn caption_text(depth: Option<u64>) -> Seq<char> {
    match depth {
        Some(d) => pressure_glyph(present::pressure_of(d, MEMPOOL_CAP_HINT)) + " "@
            + pressure_label(present::pressure_of(d, MEMPOOL_CAP_HINT)) + "  ·  "@
            + xus::grouped(d as nat) + " pooled  ·  "@ + present::pct_text(d, MEMPOOL_CAP_HINT)
            + " of "@ + xus::grouped(
            MEMPOOL_CAP_HINT as nat,
        ) + " cap  ·  1 cell = "@ + text::decimal((MEMPOOL_CAP_HINT / BAR_CELLS) as nat) + " tx"@,
        None => "— depth unavailable (the node did not answer sov_getMempoolSize)"@,
    }
}

/// The word of a pressure.
pub open spec fn pressure_label(p: Pressure) -> Seq<char> {
    match p {
        Pressure::Empty => "EMPTY"@,
        Pressure::Light => "LIGHT"@,
        Pressure::Building => "BUILDING"@,
        Pressure::Heavy => "HEAVY"@,
        Pressure::Saturated => "SATURATED"@,
    }
}

/// The shape of a pressure.
pub open spec fn pressure_glyph(p: Pressure) -> Seq<char> {
    match p {
        Pressure::Empty => "○"@,
        Pressure::Light => "◔"@,
        Pressure::Building => "◑"@,
        Pressure::Heavy => "◕"@,
        Pressure::Saturated => "●"@,
    }
}

/// The scope's caption.
pub fn scope_caption(depth: Option<u64>) -> (s: String)
    ensures
        s@ == caption_text(depth),
{
    match depth {
        Some(d) => {
            let p = Pressure::of(d, MEMPOOL_CAP_HINT);
            let mut s = owned(p.glyph());
            s.append(" ");
            s.append(p.label());
            s.append("  ·  ");
            s.append(fmt_count(d).as_str());
            s.append(" pooled  ·  ");
            s.append(fmt_pct(d, MEMPOOL_CAP_HINT).as_str());
            s.append(" of ");
            s.append(fmt_count(MEMPOOL_CAP_HINT).as_str());
            s.append(" cap  ·  1 cell = ");
            push_decimal(&mut s, cell_size() as u128);
            s.append(" tx");
            s
        },
        None => owned("— depth unavailable (the node did not answer sov_getMempoolSize)"),
    }
}

/// Persistent node-connection state, refreshed by a keyless monitor.
#[derive(Debug)]
pub struct Conn {
    ever: bool,
    ok: bool,
    tip: u64,
    mempool: Option<u64>,
    error: String,
    beat_at_ms: Option<u64>,
    latency_ms: u64,
}

/// Connection state by its contents.
pub struct ConnState {
    /// Whether any probe has completed.
    pub ever: bool,
    /// Whether the last probe reached the node.
    pub ok: bool,
    /// Last observed tip.
    pub tip: u64,
    /// Last observed mempool depth.
    pub mempool: Option<u64>,
    /// Why the last probe failed, empty where it did not.
    pub error: Seq<char>,
    /// When the last successful probe completed.
    pub beat_at_ms: Option<u64>,
    /// Round-trip time of the last successful probe.
    pub latency_ms: u64,
}

/// A reading of the connection at a moment.
#[derive(Debug)]
pub struct ConnView {
    /// Whether any probe has completed.
    pub probed: bool,
    /// Whether the last probe reached the node.
    pub ok: bool,
    /// Whether the last success is recent.
    pub fresh: bool,
    /// Last observed tip.
    pub tip: u64,
    /// Last observed mempool depth.
    pub mempool: Option<u64>,
    /// Round-trip time of the last successful probe.
    pub latency_ms: u64,
    /// Seconds since the last success.
    pub beat_age_secs: Option<u64>,
    /// Why the last probe failed.
    pub error: String,
}

/// Milliseconds since a moment, never negative.
pub open spec fn age(now_ms: u64, at_ms: u64) -> u64 {
    if now_ms < at_ms {
        0
    } else {
        (now_ms - at_ms) as u64
    }
}

impl Conn {
    /// The state's contents.
    pub closed spec fn view(&self) -> ConnState {
        ConnState {
            ever: self.ever,
            ok: self.ok,
            tip: self.tip,
            mempool: self.mempool,
            error: self.error@,
            beat_at_ms: self.beat_at_ms,
            latency_ms: self.latency_ms,
        }
    }

    /// Nothing probed yet.
    pub fn new() -> (c: Self)
        ensures
            c@ == (ConnState {
                ever: false,
                ok: false,
                tip: 0,
                mempool: None,
                error: Seq::empty(),
                beat_at_ms: None,
                latency_ms: 0,
            }),
    {
        Conn {
            ever: false,
            ok: false,
            tip: 0,
            mempool: None,
            error: String::new(),
            beat_at_ms: None,
            latency_ms: 0,
        }
    }

    /// The node answered a probe with its height, and with its depth where it did.
    pub fn reached(&mut self, now_ms: u64, height: u64, depth: Option<u64>, latency_ms: u64)
        ensures
            final(self)@ == (ConnState {
                ever: true,
                ok: true,
                tip: height,
                mempool: depth,
                error: Seq::empty(),
                beat_at_ms: Some(now_ms),
                latency_ms,
            }),
    {
        self.ever = true;
        self.ok = true;
        self.tip = height;
        self.mempool = depth;
        self.error = String::new();
        self.beat_at_ms = Some(now_ms);
        self.latency_ms = latency_ms;
    }

    /// A probe failed: what was last known stays, and only ages.
    pub fn missed(&mut self, error: String)
        ensures
            final(self)@ == (ConnState { ever: true, ok: false, error: error@, ..old(self)@ }),
    {
        self.ever = true;
        self.ok = false;
        self.error = error;
    }

    /// A reading of the connection now.
    pub fn read(&self, now_ms: u64) -> (v: ConnView)
        ensures
            v.probed == self@.ever,
            v.ok == self@.ok,
            v.tip == self@.tip,
            v.mempool == self@.mempool,
            v.latency_ms == self@.latency_ms,
            v.error@ == self@.error,
            v.fresh == (self@.beat_at_ms matches Some(t) && age(now_ms, t) < HEARTBEAT_FRESH_MS),
            v.beat_age_secs == match self@.beat_at_ms {
                Some(t) => Some((age(now_ms, t) / 1_000) as u64),
                None => None,
            },
    {
        let fresh: bool = match self.beat_at_ms {
            Some(t) => now_ms.saturating_sub(t) < HEARTBEAT_FRESH_MS,
            None => false,
        };
        let beat_age_secs: Option<u64> = match self.beat_at_ms {
            Some(t) => Some(now_ms.saturating_sub(t) / 1_000),
            None => None,
        };
        ConnView {
            probed: self.ever,
            ok: self.ok,
            fresh,
            tip: self.tip,
            mempool: self.mempool,
            latency_ms: self.latency_ms,
            beat_age_secs,
            error: owned(self.error.as_str()),
        }
    }
}

/// The node's health.
#[derive(Clone, Copy, Debug, PartialEq, Eq, Structural)]
pub enum Health {
    /// No probe has completed.
    Probing,
    /// The last probe reached the node, recently.
    Live,
    /// The last probe reached the node, but beats are being missed.
    Stalled,
    /// The last probe failed.
    Offline,
}

/// The health a reading shows.
pub open spec fn health_of(v: ConnView) -> Health {
    if !v.probed {
        Health::Probing
    } else if v.ok && v.fresh {
        Health::Live
    } else if v.ok {
        Health::Stalled
    } else {
        Health::Offline
    }
}

impl Health {
    /// The health in a glyph and a word.
    pub fn badge(self) -> (r: (&'static str, &'static str))
        ensures
            match self {
                Health::Probing => r.0@ == "○"@ && r.1@ == "PROBING"@,
                Health::Live => r.0@ == "●"@ && r.1@ == "LIVE"@,
                Health::Stalled => r.0@ == "◐"@ && r.1@ == "STALLED"@,
                Health::Offline => r.0@ == "✖"@ && r.1@ == "OFFLINE"@,
            },
    {
        match self {
            Health::Probing => ("○", "PROBING"),
            Health::Live => ("●", "LIVE"),
            Health::Stalled => ("◐", "STALLED"),
            Health::Offline => ("✖", "OFFLINE"),
        }
    }
}

impl ConnView {
    /// The health this reading shows.
    pub fn health(&self) -> (h: Health)
        ensures
            h == health_of(*self),
    {
        if !self.probed {
            Health::Probing
        } else if self.ok && self.fresh {
            Health::Live
        } else if self.ok {
            Health::Stalled
        } else {
            Health::Offline
        }
    }

    /// What follows the health, in words.
    pub open spec fn detail_text(&self, rpc_addr: Seq<char>) -> Seq<char> {
        if self.ok && self.fresh {
            "tip "@ + xus::grouped(self.tip as nat) + "  ·  "@ + xus::grouped(
                self.latency_ms as nat,
            ) + " ms"@
        } else if self.ok {
            "last beat "@ + present::elapsed_text(
                match self.beat_age_secs {
                    Some(a) => a as nat,
                    None => 0,
                },
            ) + " ago  ·  tip "@ + xus::grouped(self.tip as nat)
        } else if self.probed {
            self.error@
        } else {
            rpc_addr
        }
    }

    /// What follows the health, in words.
    pub fn detail(&self, rpc_addr: &str) -> (s: String)
        ensures
            s@ == self.detail_text(rpc_addr@),
    {
        if self.ok && self.fresh {
            let mut s = owned("tip ");
            s.append(fmt_count(self.tip).as_str());
            s.append("  ·  ");
            s.append(fmt_count(self.latency_ms).as_str());
            s.append(" ms");
            s
        } else if self.ok {
            let mut s = owned("last beat ");
            let secs: u64 = match self.beat_age_secs {
                Some(a) => a,
                None => 0,
            };
            s.append(fmt_elapsed(secs).as_str());
            s.append(" ago  ·  tip ");
            s.append(fmt_count(self.tip).as_str());
            s
        } else if self.probed {
            owned(self.error.as_str())
        } else {
            owned(rpc_addr)
        }
    }
}

/// A dead node never looks alive: once beats have been missed for the fresh period, no
/// reading shows it live, whatever the last probe said.
pub proof fn law_a_stale_beat_is_never_live(c: ConnState, v: ConnView, now_ms: u64)
    requires
        v.fresh == (c.beat_at_ms matches Some(t) && age(now_ms, t) < HEARTBEAT_FRESH_MS),
        c.beat_at_ms matches Some(t) ==> now_ms >= t + HEARTBEAT_FRESH_MS,
    ensures
        health_of(v) != Health::Live,
{
}

/// The operator-facing state of the whole app.
#[derive(Clone, Copy, Debug, PartialEq, Eq, Structural)]
pub enum OpState {
    /// Something still has to be configured before firing is possible.
    Setup,
    /// Configured and able to fire.
    Ready,
    /// Workers are firing.
    Firing,
    /// Stop pressed; workers are finishing their in-flight submits.
    Draining,
    /// A run finished and its results are on screen.
    Stopped,
}

impl OpState {
    /// The state of the app: what happens now comes before what happened, and that before
    /// what is missing.
    pub fn of(running: bool, draining: bool, has_run: bool, blocked: bool) -> (s: Self)
        ensures
            s == if running {
                OpState::Firing
            } else if draining {
                OpState::Draining
            } else if has_run {
                OpState::Stopped
            } else if blocked {
                OpState::Setup
            } else {
                OpState::Ready
            },
    {
        if running {
            OpState::Firing
        } else if draining {
            OpState::Draining
        } else if has_run {
            OpState::Stopped
        } else if blocked {
            OpState::Setup
        } else {
            OpState::Ready
        }
    }

    /// The state's shape.
    pub fn glyph(self) -> (s: &'static str)
        ensures
            s@ == match self {
                OpState::Setup => "◇"@,
                OpState::Ready => "◆"@,
                OpState::Firing => "▶"@,
                OpState::Draining => "◐"@,
                OpState::Stopped => "■"@,
            },
    {
        match self {
            OpState::Setup => "◇",
            OpState::Ready => "◆",
            OpState::Firing => "▶",
            OpState::Draining => "◐",
            OpState::Stopped => "■",
        }
    }

    /// The state's word.
    pub fn word(self) -> (s: &'static str)
        ensures
            s@ == match self {
                OpState::Setup => "SETUP"@,
                OpState::Ready => "READY"@,
                OpState::Firing => "FIRING"@,
                OpState::Draining => "STOPPING"@,
                OpState::Stopped => "STOPPED"@,
            },
    {
        match self {
            OpState::Setup => "SETUP",
            OpState::Ready => "READY",
            OpState::Firing => "FIRING",
            OpState::Draining => "STOPPING",
            OpState::Stopped => "STOPPED",
        }
    }
}

/// What a finished run did.
#[derive(Clone, Debug)]
pub struct RunSummary {
    /// Transactions accepted.
    pub accepted: u64,
    /// Transactions rejected.
    pub rejected: u64,
    /// How long it ran.
    pub duration_secs: u64,
    /// Wallets that fired.
    pub wallets: usize,
    /// The rate mode, in words.
    pub mode: String,
    /// Whether nothing was submitted.
    pub dry_run: bool,
}

/// What the panel shows beside the state.
#[derive(Debug)]
pub struct StateFacts {
    /// The first unmet precondition.
    pub blocker: Option<Blocker>,
    /// The rate mode, in words.
    pub mode: String,
    /// Wallets selected.
    pub selected: usize,
    /// Workers running.
    pub live: usize,
    /// The accepted rate, as the display rounds it.
    pub accepted_rate: String,
    /// Whether nothing is submitted.
    pub dry_run: bool,
    /// The last run.
    pub last_run: Option<RunSummary>,
}

/// The words of a blocker.
pub open spec fn blocker_text(b: Blocker) -> Seq<char> {
    match b {
        Blocker::UnlockWallet => "Unlock a wallet to arm the cannon"@,
        Blocker::SelectWallet => "Check at least one wallet to fire from"@,
        Blocker::AddDestination => "Add at least one destination address"@,
    }
}

/// A run's result, in words.
pub open spec fn summary_text(r: RunSummary) -> Seq<char> {
    r.mode@ + (if r.dry_run {
        " (dry-run)"@
    } else {
        ""@
    }) + " · "@ + text::decimal(r.wallets as nat) + " wallet(s) · "@ + xus::grouped(
        r.accepted as nat,
    ) + " accepted, "@ + xus::grouped(r.rejected as nat) + " rejected in "@
        + present::elapsed_text(r.duration_secs as nat)
}

/// The sentence that follows the state's word.
pub open spec fn state_text(state: OpState, f: StateFacts) -> Seq<char> {
    match state {
        OpState::Setup => match f.blocker {
            Some(b) => blocker_text(b),
            None => "finish configuring the run"@,
        },
        OpState::Ready => f.mode@ + " — "@ + text::decimal(f.selected as nat)
            + " wallet(s) armed"@ + (if f.dry_run {
            ", dry-run (nothing is submitted)"@
        } else {
            ""@
        }),
        OpState::Firing => f.mode@ + " · "@ + text::decimal(f.live as nat) + " wallet(s) · "@
            + f.accepted_rate@ + " accepted/s"@ + (if f.dry_run {
            " (dry-run)"@
        } else {
            ""@
        }),
        OpState::Draining => "workers are finishing their in-flight submits"@,
        OpState::Stopped => match f.last_run {
            Some(r) => summary_text(r),
            None => "run finished"@,
        },
    }
}

fn summary_sentence(r: &RunSummary) -> (s: String)
    ensures
        s@ == summary_text(*r),
{
    let mut s = owned(r.mode.as_str());
    s.append(
        if r.dry_run {
            " (dry-run)"
        } else {
            ""
        },
    );
    s.append(" · ");
    push_decimal(&mut s, r.wallets as u128);
    s.append(" wallet(s) · ");
    s.append(fmt_count(r.accepted).as_str());
    s.append(" accepted, ");
    s.append(fmt_count(r.rejected).as_str());
    s.append(" rejected in ");
    s.append(fmt_elapsed(r.duration_secs).as_str());
    s
}

/// The human sentence that follows the state's word.
pub fn state_detail(state: OpState, f: &StateFacts) -> (s: String)
    ensures
        s@ == state_text(state, *f),
{
    match state {
        OpState::Setup => match f.blocker {
            Some(b) => owned(b.message()),
            None => owned("finish configuring the run"),
        },
        OpState::Ready => {
            let mut s = owned(f.mode.as_str());
            s.append(" — ");
            push_decimal(&mut s, f.selected as u128);
            s.append(" wallet(s) armed");
            s.append(
                if f.dry_run {
                    ", dry-run (nothing is submitted)"
                } else {
                    ""
                },
            );
            s
        },
        OpState::Firing => {
            let mut s = owned(f.mode.as_str());
            s.append(" · ");
            push_decimal(&mut s, f.live as u128);
            s.append(" wallet(s) · ");
            s.append(f.accepted_rate.as_str());
            s.append(" accepted/s");
            s.append(
                if f.dry_run {
                    " (dry-run)"
                } else {
                    ""
                },
            );
            s
        },
        OpState::Draining => owned("workers are finishing their in-flight submits"),
        OpState::Stopped => match &f.last_run {
            Some(r) => summary_sentence(r),
            None => owned("run finished"),
        },
    }
}

/// What a wallet of a run is doing.
#[derive(Clone, Copy, Debug, PartialEq, Eq, Structural)]
pub enum WalletPhase {
    /// Its worker ended because of a fault.
    Failed,
    /// Its worker ended.
    Finished,
    /// Its worker holds back.
    Waiting,
    /// Its worker fires.
    Firing,
    /// Nothing runs.
    Idle,
}

/// What a wallet is doing, a fault before all else.
pub open spec fn phase_of(w: status::StatView, running: bool) -> WalletPhase {
    if w.fault is Some {
        WalletPhase::Failed
    } else if w.ended {
        WalletPhase::Finished
    } else if w.waiting is Some {
        WalletPhase::Waiting
    } else if running {
        WalletPhase::Firing
    } else {
        WalletPhase::Idle
    }
}

/// What a wallet is doing, in words.
pub open spec fn phase_text(w: status::StatView, running: bool) -> Seq<char> {
    match phase_of(w, running) {
        WalletPhase::Failed => "✖ failed — "@ + w.fault->Some_0,
        WalletPhase::Finished => "■ finished"@,
        WalletPhase::Waiting => "⏳ waiting — "@ + w.waiting->Some_0,
        WalletPhase::Firing => "▶ firing"@,
        WalletPhase::Idle => "· idle"@,
    }
}

/// What a wallet is doing, and the same in words.
pub fn wallet_phase(w: &WalletStat, running: bool) -> (r: (WalletPhase, String))
    ensures
        r.0 == phase_of(w@, running),
        r.1@ == phase_text(w@, running),
{
    match &w.fault {
        Some(why) => {
            let mut s = owned("✖ failed — ");
            s.append(why.as_str());
            return (WalletPhase::Failed, s);
        },
        None => {},
    }
    if w.ended {
        return (WalletPhase::Finished, owned("■ finished"));
    }
    match &w.waiting {
        Some(why) => {
            let mut s = owned("⏳ waiting — ");
            s.append(why.as_str());
            return (WalletPhase::Waiting, s);
        },
        None => {},
    }
    if running {
        (WalletPhase::Firing, owned("▶ firing"))
    } else {
        (WalletPhase::Idle, owned("· idle"))
    }
}

/// What the selected mode will do.
pub fn mode_consequence(mode: ModeChoice) -> (s: &'static str)
    ensures
        s@ == match mode {
            ModeChoice::PerBlock =>
                "Waits for each new tip, fires that many transactions, then idles until the next block. Bursty by design; the pool drains between blocks."@,
            ModeChoice::TargetTps =>
                "Holds a steady aggregate rate regardless of blocks, split evenly across the selected wallets. Above the chain's ~1–5 TPS inclusion ceiling the surplus accumulates in the mempool."@,
            ModeChoice::Firehose =>
                "No pacing: signs and submits flat-out until the mempool refuses, then holds the same nonce, backs off and retries. Mempool-full rejections ARE the throttle — expect them."@,
        },
{
    match mode {
        ModeChoice::PerBlock =>
            "Waits for each new tip, fires that many transactions, then idles until the next block. Bursty by design; the pool drains between blocks.",
        ModeChoice::TargetTps =>
            "Holds a steady aggregate rate regardless of blocks, split evenly across the selected wallets. Above the chain's ~1–5 TPS inclusion ceiling the surplus accumulates in the mempool.",
        ModeChoice::Firehose =>
            "No pacing: signs and submits flat-out until the mempool refuses, then holds the same nonce, backs off and retries. Mempool-full rejections ARE the throttle — expect them.",
    }
}

/// How capacity rejections are to be read: in the firehose they are the pace.
pub fn capacity_words(mode: ModeChoice) -> (r: (&'static str, &'static str))
    ensures
        if mode is Firehose {
            r.0@ == "pool full (pacing)"@ && r.1@
                == "EXPECTED — this is the firehose pacing itself; the nonce is held and retried"@
        } else {
            r.0@ == "pool full"@ && r.1@
                == "back-pressure: the pool is full, the nonce is held and retried (no tx is lost)"@
        },
{
    match mode {
        ModeChoice::Firehose => (
            "pool full (pacing)",
            "EXPECTED — this is the firehose pacing itself; the nonce is held and retried",
        ),
        _ => (
            "pool full",
            "back-pressure: the pool is full, the nonce is held and retried (no tx is lost)",
        ),
    }
}

/// A label clipped to `n` characters, the last of them an ellipsis where it is clipped.
pub open spec fn clipped(s: Seq<char>, n: nat) -> Seq<char> {
    if s.len() <= n {
        s
    } else {
        s.take(
            if n == 0 {
                0
            } else {
                n - 1
            },
        ) + "…"@
    }
}

/// Clip a label, so that table columns keep their width.
pub fn truncate(s: &str, n: usize) -> (r: String)
    ensures
        r@ == clipped(s@, n as nat),
{
    let v = chars_of(s);
    if v.len() <= n {
        owned(s)
    } else {
        let head = slice_chars(
            &v,
            0,
            if n == 0 {
                0
            } else {
                n - 1
            },
        );
        let mut r = string_of(&head);
        r.append("…");
        assert(r@ =~= clipped(s@, n as nat));
        r
    }
}

/// A sample goes to the end of the series as it was taken, and starts a block exactly where
/// its height is above the one before; the series keeps its newest samples, all of them while
/// they fit.
pub proof fn law_a_sample_goes_last(
    s: Seq<MempoolSample>,
    at_ms: u64,
    height: u64,
    depth: u64,
    k: int,
)
    requires
        s.len() <= MEMPOOL_HISTORY_SAMPLES,
    ensures
        ({
            let n = sampled(s, at_ms, height, depth);
            &&& n.last().at_ms == at_ms
            &&& n.last().height == height
            &&& n.last().depth == depth
            &&& n.last().new_block <==> s.len() > 0 && height > s.last().height
            &&& s.len() < MEMPOOL_HISTORY_SAMPLES ==> n.len() == s.len() + 1
            &&& s.len() == MEMPOOL_HISTORY_SAMPLES ==> n.len() == s.len()
            &&& 0 < k < n.len() ==> n[n.len() - 1 - k] == s[s.len() - k]
        }),
{
}

/// The scope shows what is at most five minutes old.
pub proof fn law_the_scope_shows_five_minutes(samples: Seq<MempoolSample>, now_ms: u64)
    ensures
        samples.filter(in_view(now_ms)) == samples.filter(
            |s: MempoolSample| s.at_ms + 300_000 >= now_ms,
        ),
{
    assert(in_view(now_ms) =~= |s: MempoolSample| s.at_ms + 300_000 >= now_ms);
}

/// A trace goes on until more than four seconds pass without a sample; the next one then
/// starts another, and nothing else does.
pub proof fn law_only_a_gap_starts_a_trace(s: Seq<MempoolSample>, x: MempoolSample)
    ensures
        traces_of(seq![x]) == seq![seq![x]],
        s.len() > 0 && x.at_ms > s.last().at_ms + 4_000 ==> traces_of(s.push(x)) == traces_of(
            s,
        ).push(seq![x]),
        s.len() > 0 && x.at_ms <= s.last().at_ms + 4_000 ==> {
            &&& traces_of(s.push(x)).len() == traces_of(s).len()
            &&& traces_of(s.push(x)).last() == traces_of(s).last().push(x)
            &&& traces_of(s.push(x)).drop_last() == traces_of(s).drop_last()
        },
{
    law_traces_are_the_samples(s);
    assert(s.push(x).drop_last() =~= s);
    let one = seq![x];
    assert(one.drop_last() =~= Seq::<MempoolSample>::empty());
    assert(traces_of(one.drop_last()) =~= Seq::<Seq<MempoolSample>>::empty());
    assert(traces_of(one) =~= seq![seq![x]]);
    if s.len() > 0 && x.at_ms <= s.last().at_ms + 4_000 {
        let t = traces_of(s);
        assert(t.drop_last().push(t.last().push(x)).drop_last() =~= t.drop_last());
    }
}

/// The peak is the greatest depth, and the axis reaches it and the saturation line.
pub proof fn law_the_peak_is_the_greatest(s: Seq<MempoolSample>)
    ensures
        forall|i: int| 0 <= i < s.len() ==> (#[trigger] s[i]).depth <= peak_of(s),
        s.len() > 0 ==> exists|i: int| 0 <= i < s.len() && (#[trigger] s[i]).depth == peak_of(s),
        s.len() == 0 ==> peak_of(s) == 0,
        scope_reach(s) >= peak_of(s),
        scope_reach(s) >= SATURATION_DEPTH,
        scope_reach(s) == peak_of(s) || scope_reach(s) == SATURATION_DEPTH,
    decreases s.len(),
{
    if s.len() > 0 {
        let d = s.drop_last();
        law_the_peak_is_the_greatest(d);
        assert forall|i: int| 0 <= i < s.len() implies (#[trigger] s[i]).depth <= peak_of(s) by {
            if i < d.len() {
                assert(d[i] == s[i]);
            }
        }
        if peak_of(s) == s.last().depth {
            assert(s[s.len() - 1].depth == peak_of(s));
        } else {
            let i = choose|i: int| 0 <= i < d.len() && (#[trigger] d[i]).depth == peak_of(d);
            assert(s[i].depth == peak_of(s));
        }
    }
}

/// An age is the time since, and nothing where the clock went back.
pub proof fn law_an_age_is_the_time_since(now_ms: u64, at_ms: u64)
    ensures
        at_ms <= now_ms ==> age(now_ms, at_ms) + at_ms == now_ms,
        now_ms <= at_ms ==> age(now_ms, at_ms) == 0,
{
}

/// The health of a node follows from three facts: whether it was ever probed, whether the
/// last probe reached it, and whether that was recent.
pub proof fn law_health_follows_from_the_probes(v: ConnView)
    ensures
        health_of(v) == Health::Probing <==> !v.probed,
        health_of(v) == Health::Live <==> v.probed && v.ok && v.fresh,
        health_of(v) == Health::Stalled <==> v.probed && v.ok && !v.fresh,
        health_of(v) == Health::Offline <==> v.probed && !v.ok,
{
}

/// A wallet's phase follows from what its worker told: a fault before an end, an end before a
/// wait, and only one with none of these fires, while the run is on.
pub proof fn law_a_phase_follows_from_what_was_told(w: status::StatView, running: bool)
    ensures
        phase_of(w, running) == WalletPhase::Failed <==> w.fault is Some,
        phase_of(w, running) == WalletPhase::Finished <==> w.fault is None && w.ended,
        phase_of(w, running) == WalletPhase::Waiting <==> w.fault is None && !w.ended
            && w.waiting is Some,
        phase_of(w, running) == WalletPhase::Firing <==> w.fault is None && !w.ended
            && w.waiting is None && running,
        phase_of(w, running) == WalletPhase::Idle <==> w.fault is None && !w.ended
            && w.waiting is None && !running,
{
}

/// A clipped label keeps its column: one that fits stays as it is, and one that does not is
/// cut to the width, its start and an ellipsis.
pub proof fn law_a_clipped_label_keeps_its_column(s: Seq<char>, n: nat)
    requires
        n > 0,
    ensures
        s.len() <= n ==> clipped(s, n) == s,
        s.len() > n ==> {
            &&& clipped(s, n).len() == n
            &&& clipped(s, n).last() == '…'
            &&& clipped(s, n).drop_last() == s.take(n - 1)
        },
{
    reveal_strlit("…");
    if s.len() > n {
        assert(clipped(s, n).drop_last() =~= s.take(n - 1));
    }
}

/// The caption gives the depth, its pressure and its share of the capacity; an unknown depth
/// gets no figure at all.
pub proof fn law_the_caption_gives_the_depth(d: u64)
    ensures
        ({
            let p = present::pressure_of(d, 16_384);
            let (glyph, word) = match p {
                Pressure::Empty => ("○"@, "EMPTY"@),
                Pressure::Light => ("◔"@, "LIGHT"@),
                Pressure::Building => ("◑"@, "BUILDING"@),
                Pressure::Heavy => ("◕"@, "HEAVY"@),
                Pressure::Saturated => ("●"@, "SATURATED"@),
            };
            caption_text(Some(d)) == glyph + " "@ + word + "  ·  "@ + xus::grouped(d as nat)
                + " pooled  ·  "@ + present::pct_text(d, 16_384) + " of "@ + xus::grouped(16_384)
                + " cap  ·  1 cell = "@ + text::decimal(256) + " tx"@
        }),
        caption_text(None) == "— depth unavailable (the node did not answer sov_getMempoolSize)"@,
{
}

/// What follows the health is about what the health is: the tip and how fast it was read of a
/// live node, how long ago of a stalled one, the error of one that is offline, and the
/// address of one that was never probed.
pub proof fn law_the_detail_follows_the_health(v: ConnView, rpc_addr: Seq<char>)
    requires
        v.ok ==> v.probed,
        v.ok ==> v.beat_age_secs is Some,
    ensures
        health_of(v) == Health::Live ==> v.detail_text(rpc_addr) == "tip "@ + xus::grouped(
            v.tip as nat,
        ) + "  ·  "@ + xus::grouped(v.latency_ms as nat) + " ms"@,
        health_of(v) == Health::Stalled ==> v.detail_text(rpc_addr) == "last beat "@
            + present::elapsed_text(v.beat_age_secs->0 as nat) + " ago  ·  tip "@ + xus::grouped(
            v.tip as nat,
        ),
        health_of(v) == Health::Offline ==> v.detail_text(rpc_addr) == v.error@,
        health_of(v) == Health::Probing ==> v.detail_text(rpc_addr) == rpc_addr,
{
}

/// The sentence beside the state gives its figures: what is missing, what is armed, how many
/// fire and how fast, and what the last run came to; a dry run is always said to be one.
pub proof fn law_the_state_is_told_with_its_figures(f: StateFacts)
    ensures
        f.blocker matches Some(b) ==> state_text(OpState::Setup, f) == match b {
            Blocker::UnlockWallet => "Unlock a wallet to arm the cannon"@,
            Blocker::SelectWallet => "Check at least one wallet to fire from"@,
            Blocker::AddDestination => "Add at least one destination address"@,
        },
        state_text(OpState::Ready, f) == f.mode@ + " — "@ + text::decimal(f.selected as nat)
            + " wallet(s) armed"@ + (if f.dry_run {
            ", dry-run (nothing is submitted)"@
        } else {
            ""@
        }),
        state_text(OpState::Firing, f) == f.mode@ + " · "@ + text::decimal(f.live as nat)
            + " wallet(s) · "@ + f.accepted_rate@ + " accepted/s"@ + (if f.dry_run {
            " (dry-run)"@
        } else {
            ""@
        }),
        f.last_run matches Some(r) ==> state_text(OpState::Stopped, f) == r.mode@ + (if r.dry_run {
            " (dry-run)"@
        } else {
            ""@
        }) + " · "@ + text::decimal(r.wallets as nat) + " wallet(s) · "@ + xus::grouped(
            r.accepted as nat,
        ) + " accepted, "@ + xus::grouped(r.rejected as nat) + " rejected in "@
            + present::elapsed_text(r.duration_secs as nat),
{
}

/// A wallet that failed or waits says why, in the words it was told with.
pub proof fn law_a_wallet_says_why(w: status::StatView, running: bool)
    ensures
        w.fault matches Some(why) ==> phase_text(w, running) == "✖ failed — "@ + why,
        w.fault is None && !w.ended && w.waiting is Some ==> phase_text(w, running)
            == "⏳ waiting — "@ + w.waiting->0,
{
}

/// A column of no width shows the ellipsis alone, and nothing of nothing.
pub proof fn law_a_column_of_no_width(s: Seq<char>)
    ensures
        s.len() == 0 ==> clipped(s, 0) == s,
        s.len() > 0 ==> clipped(s, 0) == "…"@,
{
    if s.len() > 0 {
        assert(clipped(s, 0) =~= "…"@);
    }
}

} // verus!
