//! The firing worker of one wallet: what one shot sends, and what each answer of the
//! node means for the nonce.
//!
//! A shot alternates decisions with work that only a client of the node can do. Each
//! function here takes what came back and says what is next. The rule that keeps the
//! account gap-free: a nonce is committed only when the node has consumed its slot.

use crate::amounts;
use crate::amounts::{AmountMode, TipMode};
use crate::chain;
use crate::chain::{AccountId, SigningDomain};
use crate::dest::DestSelector;
use crate::heartbeat;
use crate::heartbeat::HeartbeatLimits;
use crate::json;
use crate::json::{parse_fee_auction_active, Json};
use crate::meter::MeterKind;
use crate::nonce;
use crate::nonce::NonceSequencer;
use crate::reject;
use crate::reject::{classify_reject, disposition, Disposition, RejectClass};
use crate::rng;
use crate::rng::Rng;
use crate::status;
use crate::status::{LogLine, Status};
use crate::text::owned;
use crate::xus;
use crate::xus::grains_to_xus;
use vstd::prelude::*;
use vstd::utf8::*;

verus! {

/// Fee reserved per transfer for the local affordability check. The node's mempool is
/// the real authority.
pub const FEE_ESTIMATE_GRAINS: u128 = 21_000;

/// How often the per-block worker polls the tip while idle between blocks.
pub const POLL_INTERVAL_MS: u64 = 500;

/// How often a continuous worker reconciles its nonce and balance with the node.
pub const RECONCILE_INTERVAL_MS: u64 = 1_000;

/// Back-off after a capacity rejection before retrying the same nonce.
pub const CAPACITY_BACKOFF_MS: u64 = 200;

/// Back-off after an unclassified submit failure.
pub const OTHER_BACKOFF_MS: u64 = 500;

/// Back-off while the balance is fully committed by still-pending transactions.
pub const AFFORD_BACKOFF_MS: u64 = 4_000;

/// What a worker knows of the account it fires from.
#[derive(Debug)]
pub struct Account {
    seq: NonceSequencer,
    known_balance: Option<u128>,
    height: u64,
}

/// An account by its contents.
pub struct AccountView {
    /// The next nonce to use.
    pub pending: u64,
    /// The balance, debited per send and refreshed from the node.
    pub balance: Option<u128>,
    /// Last chain height observed.
    pub height: u64,
}

/// What a worker fires, and under which rules.
#[derive(Debug)]
pub struct Orders {
    /// The worker's place among the wallets of the run.
    pub wallet_index: usize,
    /// The wallet's label.
    pub label: String,
    /// How much to send.
    pub amount_mode: AmountMode,
    /// How much to bid.
    pub tip_mode: TipMode,
    /// Build and sign, but submit nothing.
    pub dry_run: bool,
    /// Commit a nonce only when the node has consumed its slot. Per-block workers
    /// allocate on send instead.
    pub commit_on_accept: bool,
}

/// One transfer to be built.
#[derive(Debug)]
pub struct Shot {
    /// The destination.
    pub to: AccountId,
    /// The amount.
    pub amount_grains: u128,
    /// The bid.
    pub tip_grains: u128,
    /// The nonce.
    pub nonce: u64,
}

/// What one shot tells the worker's loop to do next. There is no way to give up: every
/// rejection a node can return is recoverable.
#[derive(Clone, Copy, Debug, PartialEq, Eq, Structural)]
pub enum FireResult {
    /// Keep going at full pace.
    Continue,
    /// Back off for so many milliseconds; the nonce is held.
    Backoff(u64),
}

/// What the worker has to do after a decision.
#[derive(Clone, Copy, Debug, PartialEq, Eq, Structural)]
pub enum Next {
    /// Ask the node for the account's balance.
    AskBalance,
    /// Build and sign the transfer.
    Build,
    /// Submit the signed transfer.
    Submit,
    /// Ask the node for the account's nonce.
    AskNonce,
    /// Ask the node for the account's balance and nonce.
    AskBalanceAndNonce,
    /// The shot is over.
    Done(FireResult),
}

/// What a transfer commits, held at the largest amount.
pub open spec fn cost(amount: u128, tip: u128) -> u128 {
    let c = amount + FEE_ESTIMATE_GRAINS + tip;
    if c > u128::MAX {
        u128::MAX
    } else {
        c as u128
    }
}

/// What a transfer commits: the amount, the fee and the bid.
pub fn shot_cost(amount: u128, tip: u128) -> (c: u128)
    ensures
        c == cost(amount, tip),
{
    amount.saturating_add(FEE_ESTIMATE_GRAINS).saturating_add(tip)
}

/// A known balance that does not cover a transfer.
pub open spec fn short_of(balance: Option<u128>, amount: u128, tip: u128) -> bool {
    balance matches Some(b) && b < cost(amount, tip)
}

/// A balance after a transfer was sent.
pub open spec fn debited(balance: Option<u128>, amount: u128, tip: u128) -> Option<u128> {
    match balance {
        Some(b) => Some(
            if b < cost(amount, tip) {
                0
            } else {
                (b - cost(amount, tip)) as u128
            },
        ),
        None => None,
    }
}

impl Account {
    /// The account's contents.
    pub closed spec fn view(&self) -> AccountView {
        AccountView {
            pending: self.seq@,
            balance: self.known_balance,
            height: self.height,
        }
    }

    /// An account of which nothing is known yet.
    pub fn new() -> (a: Self)
        ensures
            a@ == (AccountView { pending: 0, balance: None, height: 0 }),
    {
        Account { seq: NonceSequencer::new(), known_balance: None, height: 0 }
    }

    /// The next nonce to use.
    pub fn pending(&self) -> (n: u64)
        ensures
            n == self@.pending,
    {
        self.seq.peek()
    }

    /// The balance, where it is known.
    pub fn balance(&self) -> (b: Option<u128>)
        ensures
            b == self@.balance,
    {
        self.known_balance
    }

    /// Last chain height observed.
    pub fn height(&self) -> (h: u64)
        ensures
            h == self@.height,
    {
        self.height
    }

    /// Note the chain height.
    pub fn observe_height(&mut self, height: u64)
        ensures
            final(self)@ == (AccountView { height, ..old(self)@ }),
    {
        self.height = height;
    }

    /// Take in the node's answers: its next nonce raises the floor, the balance replaces
    /// ours even where it could not be read, and the height replaces ours where it could.
    pub fn reconcile(&mut self, nonce: u64, balance: Option<u128>, height: Option<u64>)
        ensures
            final(self)@ == (AccountView {
                pending: nonce::reconciled(old(self)@.pending, nonce),
                balance,
                height: match height {
                    Some(h) => h,
                    None => old(self)@.height,
                },
            }),
    {
        self.seq.reconcile(nonce);
        self.known_balance = balance;
        if let Some(h) = height {
            self.height = h;
        }
    }

    fn debit(&mut self, amount: u128, tip: u128)
        ensures
            final(self)@ == (AccountView {
                balance: debited(old(self)@.balance, amount, tip),
                ..old(self)@
            }),
    {
        if let Some(b) = self.known_balance {
            self.known_balance = Some(b.saturating_sub(shot_cost(amount, tip)));
        }
    }
}

/// What a shot's line in the log holds.
pub open spec fn shot_line(
    label: Seq<char>,
    height: u64,
    shot: Shot,
    ok: bool,
    detail: Seq<char>,
) -> status::LogView {
    status::LogView {
        wallet: label,
        height,
        to: shot.to@,
        amount_grains: shot.amount_grains,
        nonce: shot.nonce,
        ok,
        detail,
    }
}

fn log_shot(status: &mut Status, label: &String, height: u64, shot: &Shot, ok: bool, detail: &str)
    requires
        old(status)@.wf(),
    ensures
        final(status)@.wf(),
        final(status)@ == old(status)@.logged(shot_line(label@, height, *shot, ok, detail@)),
{
    status.push_log(
        LogLine {
            wallet: owned(label.as_str()),
            height,
            to: owned(shot.to.as_str()),
            amount_grains: shot.amount_grains,
            nonce: shot.nonce,
            ok,
            detail: owned(detail),
        },
    );
}

/// Orders whose ranges can be drawn from.
pub open spec fn can_draw(o: Orders) -> bool {
    &&& o.amount_mode matches AmountMode::Range { min, max } ==> amounts::drawable(min, max)
    &&& o.tip_mode matches TipMode::Range { min, max } ==> amounts::drawable(min, max)
}

/// The amount that is drawn, and the generator after it.
pub open spec fn amount_drawn(m: AmountMode, state: u64) -> (u128, u64) {
    match m {
        AmountMode::Fixed(v) => (v, state),
        AmountMode::Range { min, max } => (
            amounts::drawn_between(state, min, max) as u128,
            rng::after_draw(state),
        ),
    }
}

/// The bid that is drawn, and the generator after it.
pub open spec fn tip_drawn(m: TipMode, state: u64) -> (u128, u64) {
    match m {
        TipMode::Off => (0, state),
        TipMode::Fixed(v) => (v, state),
        TipMode::Range { min, max } => (
            amounts::drawn_between(state, min, max) as u128,
            rng::after_draw(state),
        ),
    }
}

/// The destination that is picked, and the generator after it.
pub open spec fn dest_picked(s: DestSelector, state: u64) -> (Seq<char>, u64) {
    match s.spec_mode() {
        crate::dest::DestMode::RoundRobin => (s.list()[s.cursor()], state),
        crate::dest::DestMode::Random => (
            s.list()[rng::drawn(state, s.list().len()) as int],
            rng::after_draw(state),
        ),
    }
}

/// The selector's place after a pick.
pub open spec fn cursor_after(s: DestSelector) -> int {
    match s.spec_mode() {
        crate::dest::DestMode::RoundRobin => crate::dest::cycled(s.cursor(), s.list().len()),
        crate::dest::DestMode::Random => s.cursor(),
    }
}

/// Draw the next shot: destination, amount and bid, in this order, at the pending nonce.
/// A bid counts only while the auction is live. Where the known balance does not cover
/// the shot, the node is asked before anything is built.
pub fn aim(
    orders: &Orders,
    selector: &mut DestSelector,
    rng: &mut Rng,
    account: &Account,
    auction_active: bool,
) -> (r: (Shot, Next))
    requires
        old(selector).wf(),
        can_draw(*orders),
    ensures
        final(selector).wf(),
        final(selector).list() == old(selector).list(),
        final(selector).spec_mode() == old(selector).spec_mode(),
        final(selector).cursor() == cursor_after(*old(selector)),
        ({
            let (to, s1) = dest_picked(*old(selector), old(rng)@);
            let (amount, s2) = amount_drawn(orders.amount_mode, s1);
            let (tip, s3) = tip_drawn(orders.tip_mode, s2);
            &&& r.0.to@ == to
            &&& r.0.amount_grains == amount
            &&& r.0.tip_grains == if auction_active {
                tip
            } else {
                0
            }
            &&& r.0.nonce == account@.pending
            &&& final(rng)@ == s3
        }),
        r.1 == if short_of(account@.balance, r.0.amount_grains, r.0.tip_grains) {
            Next::AskBalance
        } else {
            Next::Build
        },
{
    let to = selector.next(rng);
    let amount_grains: u128 = orders.amount_mode.pick(rng);
    let bid: u128 = orders.tip_mode.pick(rng);
    let tip_grains: u128 = if auction_active {
        bid
    } else {
        0
    };
    let shot = Shot { to, amount_grains, tip_grains, nonce: account.pending() };
    let next = match account.known_balance {
        Some(b) => if b < shot_cost(amount_grains, tip_grains) {
            Next::AskBalance
        } else {
            Next::Build
        },
        None => Next::Build,
    };
    (shot, next)
}

/// Why a shot waits for its balance.
pub open spec fn short_text(balance: u128, amount: u128) -> Seq<char> {
    "balance "@ + xus::plain_text(balance as nat) + " XUS can't cover "@ + xus::plain_text(
        amount as nat,
    ) + " XUS + fee — waiting for pending txs to mine"@
}

/// The node's balance, or ours where it could not be read.
pub open spec fn refreshed(known: Option<u128>, fresh: Option<u128>) -> Option<u128> {
    if fresh is Some {
        fresh
    } else {
        known
    }
}

/// The node was asked for the balance that a shot was short of. If it still falls short,
/// the shot waits: pending transactions release the balance as they mine.
pub fn on_balance(
    orders: &Orders,
    account: &mut Account,
    status: &mut Status,
    now_ms: u64,
    shot: &Shot,
    fresh: Option<u128>,
) -> (next: Next)
    requires
        old(status)@.wf(),
        old(status)@.has_room(),
    ensures
        final(status)@.wf(),
        final(account)@ == (AccountView {
            balance: refreshed(old(account)@.balance, fresh),
            ..old(account)@
        }),
        ({
            let known = refreshed(old(account)@.balance, fresh);
            if short_of(known, shot.amount_grains, shot.tip_grains) {
                &&& next == Next::Done(FireResult::Backoff(AFFORD_BACKOFF_MS))
                &&& final(status)@ == old(status)@.recorded(
                    now_ms,
                    MeterKind::RejAfford,
                ).published(
                    orders.wallet_index as int,
                    old(account)@.pending,
                    known,
                    Some(short_text(known->Some_0, shot.amount_grains)),
                )
            } else {
                &&& next == Next::Build
                &&& final(status)@ == old(status)@
            }
        }),
{
    if fresh.is_some() {
        account.known_balance = fresh;
    }
    match account.known_balance {
        Some(b) => {
            if b < shot_cost(shot.amount_grains, shot.tip_grains) {
                let mut why = owned("balance ");
                why.append(grains_to_xus(b).as_str());
                why.append(" XUS can't cover ");
                why.append(grains_to_xus(shot.amount_grains).as_str());
                why.append(" XUS + fee — waiting for pending txs to mine");
                status.record(now_ms, MeterKind::RejAfford);
                status.publish(
                    orders.wallet_index,
                    account.pending(),
                    account.known_balance,
                    Some(why),
                );
                return Next::Done(FireResult::Backoff(AFFORD_BACKOFF_MS));
            }
        },
        None => {},
    }
    Next::Build
}

/// The shot could not be built or signed: it is counted and logged, and nothing else
/// changes.
pub fn on_build_failed(
    orders: &Orders,
    account: &Account,
    status: &mut Status,
    now_ms: u64,
    shot: &Shot,
    error: &str,
) -> (next: Next)
    requires
        old(status)@.wf(),
        old(status)@.has_room(),
    ensures
        final(status)@.wf(),
        next == Next::Done(FireResult::Continue),
        final(status)@ == old(status)@.recorded(now_ms, MeterKind::Attempted).recorded(
            now_ms,
            MeterKind::RejOther,
        ).logged(shot_line(orders.label@, account@.height, *shot, false, error@)),
{
    status.record(now_ms, MeterKind::Attempted);
    assert(MeterKind::RejOther.spec_index() != MeterKind::Attempted.spec_index());
    assert(old(status)@.meter.totals[MeterKind::RejOther.spec_index()] < u64::MAX);
    status.record(now_ms, MeterKind::RejOther);
    log_shot(status, &orders.label, account.height, shot, false, error);
    Next::Done(FireResult::Continue)
}

/// The account after a shot was sent: the nonce committed where that is due now, and the
/// balance debited.
pub open spec fn sent(a: AccountView, shot: Shot, commit: bool) -> AccountView {
    AccountView {
        pending: if commit {
            (a.pending + 1) as u64
        } else {
            a.pending
        },
        balance: debited(a.balance, shot.amount_grains, shot.tip_grains),
        ..a
    }
}

/// The account once a shot is built: a per-block worker allocates its nonce here.
pub open spec fn built(a: AccountView, commit_on_accept: bool) -> AccountView {
    if commit_on_accept {
        a
    } else {
        AccountView { pending: (a.pending + 1) as u64, ..a }
    }
}

/// The shot is built and signed. A dry run ends here, as if it had been accepted.
pub fn on_built(
    orders: &Orders,
    account: &mut Account,
    status: &mut Status,
    now_ms: u64,
    shot: &Shot,
) -> (next: Next)
    requires
        old(status)@.wf(),
        old(status)@.has_room(),
        !orders.commit_on_accept || orders.dry_run ==> old(account)@.pending < u64::MAX,
    ensures
        final(status)@.wf(),
        ({
            let attempted = old(status)@.recorded(now_ms, MeterKind::Attempted);
            let ready = built(old(account)@, orders.commit_on_accept);
            if orders.dry_run {
                &&& next == Next::Done(FireResult::Continue)
                &&& final(account)@ == sent(ready, *shot, orders.commit_on_accept)
                &&& final(status)@ == attempted.recorded(now_ms, MeterKind::Accepted).logged(
                    shot_line(
                        orders.label@,
                        old(account)@.height,
                        *shot,
                        true,
                        "dry-run (not submitted)"@,
                    ),
                ).published(
                    orders.wallet_index as int,
                    final(account)@.pending,
                    final(account)@.balance,
                    None,
                )
            } else {
                &&& next == Next::Submit
                &&& final(account)@ == ready
                &&& final(status)@ == attempted
            }
        }),
{
    status.record(now_ms, MeterKind::Attempted);
    if !orders.commit_on_accept {
        let _ = account.seq.next();
    }
    if orders.dry_run {
        assert(MeterKind::Accepted.spec_index() != MeterKind::Attempted.spec_index());
        assert(old(status)@.meter.totals[MeterKind::Accepted.spec_index()] < u64::MAX);
        status.record(now_ms, MeterKind::Accepted);
        if orders.commit_on_accept {
            account.seq.advance();
        }
        log_shot(status, &orders.label, account.height, shot, true, "dry-run (not submitted)");
        account.debit(shot.amount_grains, shot.tip_grains);
        status.publish(orders.wallet_index, account.pending(), account.known_balance, None);
        return Next::Done(FireResult::Continue);
    }
    Next::Submit
}

/// The text cut to its first six and last four bytes, where it is longer than twelve.
pub open spec fn shortened(h: Seq<char>) -> Seq<char> {
    let bytes = encode_utf8(h);
    let n = bytes.len() as int;
    if n > 12 {
        decode_utf8(bytes.subrange(0, 6)) + "…"@ + decode_utf8(bytes.subrange(n - 4, n))
    } else {
        h
    }
}

/// Neither cut of [`shortened`] falls inside a character.
pub open spec fn cuttable(h: Seq<char>) -> bool {
    let bytes = encode_utf8(h);
    bytes.len() > 12 ==> is_char_boundary(bytes, 6) && is_char_boundary(bytes, bytes.len() - 4)
}

/// Plain ASCII text, such as a hash in hexadecimal, can always be shortened: what is left
/// are its first six and last four characters.
pub proof fn law_ascii_is_shortened_by_characters(h: Seq<char>)
    requires
        is_ascii_chars(h),
    ensures
        cuttable(h),
        shortened(h) == if h.len() > 12 {
            h.take(6) + "…"@ + h.skip(h.len() - 4)
        } else {
            h
        },
{
    let bytes = encode_utf8(h);
    is_ascii_chars_encode_utf8(h);
    if h.len() > 12 {
        let n = h.len() as int;
        lemma_ascii_cut(h, 6);
        lemma_ascii_cut(h, n - 4);
        assert(bytes.subrange(0, 6) =~= encode_utf8(h.take(6)));
        assert(bytes.subrange(n - 4, n) =~= encode_utf8(h.skip(n - 4)));
        encode_utf8_decode_utf8(h.take(6));
        encode_utf8_decode_utf8(h.skip(n - 4));
    }
}

/// In ASCII text every character is a byte of its own.
proof fn lemma_ascii_cut(h: Seq<char>, at: int)
    requires
        is_ascii_chars(h),
        0 <= at < h.len(),
    ensures
        is_char_boundary(encode_utf8(h), at),
        encode_utf8(h.take(at)) == encode_utf8(h).subrange(0, at),
        encode_utf8(h.skip(at)) == encode_utf8(h).subrange(at, h.len() as int),
{
    let bytes = encode_utf8(h);
    is_ascii_chars_encode_utf8(h);
    encode_utf8_valid_utf8(h);
    assert(bytes[at] == h[at] as u8);
    assert(!is_continuation_byte(bytes[at]));
    is_char_boundary_iff_not_is_continuation_byte(bytes, at);
    assert(is_ascii_chars(h.take(at)));
    assert(is_ascii_chars(h.skip(at)));
    is_ascii_chars_encode_utf8(h.take(at));
    is_ascii_chars_encode_utf8(h.skip(at));
    assert forall|i: int| 0 <= i < at implies #[trigger] encode_utf8(h.take(at))[i]
        == bytes[i] by {
        assert(h.take(at)[i] == h[i]);
    }
    assert(encode_utf8(h.take(at)) =~= bytes.subrange(0, at));
    assert forall|i: int| 0 <= i < h.len() - at implies #[trigger] encode_utf8(h.skip(at))[i]
        == bytes[at + i] by {
        assert(h.skip(at)[i] == h[at + i]);
    }
    assert(encode_utf8(h.skip(at)) =~= bytes.subrange(at, h.len() as int));
}

/// A hash or an account id, shortened.
pub fn short_hash(h: &str) -> (s: String)
    requires
        cuttable(h@),
    ensures
        s@ == shortened(h@),
{
    let n: usize = h.as_bytes().len();
    if n > 12 {
        let (head, _) = h.split_at(6);
        let (_, tail) = h.split_at(n - 4);
        let mut s = owned(head);
        s.append("…");
        s.append(tail);
        proof {
            encode_utf8_decode_utf8(head@);
            encode_utf8_decode_utf8(tail@);
            assert(s@ =~= shortened(h@));
        }
        s
    } else {
        owned(h)
    }
}

/// The node accepted the shot under this transaction id.
pub fn on_accepted(
    orders: &Orders,
    account: &mut Account,
    status: &mut Status,
    now_ms: u64,
    shot: &Shot,
    txid: &str,
) -> (next: Next)
    requires
        old(status)@.wf(),
        old(status)@.has_room(),
        cuttable(txid@),
        orders.commit_on_accept ==> old(account)@.pending < u64::MAX,
    ensures
        final(status)@.wf(),
        next == Next::Done(FireResult::Continue),
        final(account)@ == sent(old(account)@, *shot, orders.commit_on_accept),
        final(status)@ == old(status)@.recorded(now_ms, MeterKind::Accepted).logged(
            shot_line(
                orders.label@,
                old(account)@.height,
                *shot,
                true,
                "submitted "@ + shortened(txid@),
            ),
        ).published(
            orders.wallet_index as int,
            final(account)@.pending,
            final(account)@.balance,
            None,
        ),
{
    status.record(now_ms, MeterKind::Accepted);
    if orders.commit_on_accept {
        account.seq.advance();
    }
    let mut detail = owned("submitted ");
    detail.append(short_hash(txid).as_str());
    log_shot(status, &orders.label, account.height, shot, true, detail.as_str());
    account.debit(shot.amount_grains, shot.tip_grains);
    status.publish(orders.wallet_index, account.pending(), account.known_balance, None);
    Next::Done(FireResult::Continue)
}

/// The meter a rejection counts under.
pub open spec fn meter_of(class: RejectClass) -> MeterKind {
    match class {
        RejectClass::Capacity => MeterKind::RejCapacity,
        RejectClass::NonceStale => MeterKind::RejNonce,
        RejectClass::NonceOccupied => MeterKind::RejNonce,
        RejectClass::Insufficient => MeterKind::RejAfford,
        RejectClass::NonceGap => MeterKind::RejOther,
        RejectClass::Other => MeterKind::RejOther,
    }
}

fn reject_meter(class: RejectClass) -> (k: MeterKind)
    ensures
        k == meter_of(class),
{
    match class {
        RejectClass::Capacity => MeterKind::RejCapacity,
        RejectClass::NonceStale => MeterKind::RejNonce,
        RejectClass::NonceOccupied => MeterKind::RejNonce,
        RejectClass::Insufficient => MeterKind::RejAfford,
        RejectClass::NonceGap => MeterKind::RejOther,
        RejectClass::Other => MeterKind::RejOther,
    }
}

/// What a rejection leads to.
pub open spec fn next_after(d: Disposition) -> Next {
    match d {
        Disposition::HoldAndRetry => Next::Done(FireResult::Backoff(CAPACITY_BACKOFF_MS)),
        Disposition::Advance => Next::Done(FireResult::Continue),
        Disposition::ReconcileForward => Next::AskNonce,
        Disposition::WaitAffordable => Next::AskBalanceAndNonce,
        Disposition::HoldAndRetryOther => Next::Done(FireResult::Backoff(OTHER_BACKOFF_MS)),
    }
}

/// The account after a rejection: the nonce moves only where its slot is consumed.
pub open spec fn rejected(a: AccountView, d: Disposition, commit_on_accept: bool) -> AccountView {
    if d is Advance && commit_on_accept {
        AccountView { pending: (a.pending + 1) as u64, ..a }
    } else {
        a
    }
}

/// The node rejected the shot with this message.
pub fn on_rejected(
    orders: &Orders,
    account: &mut Account,
    status: &mut Status,
    now_ms: u64,
    shot: &Shot,
    msg: &str,
) -> (next: Next)
    requires
        old(status)@.wf(),
        old(status)@.has_room(),
        orders.commit_on_accept ==> old(account)@.pending < u64::MAX,
    ensures
        final(status)@.wf(),
        ({
            let class = reject::class_of(msg@);
            let d = reject::disposition_of(class);
            let noted = old(status)@.recorded(now_ms, meter_of(class)).logged(
                shot_line(orders.label@, old(account)@.height, *shot, false, msg@),
            );
            &&& next == next_after(d)
            &&& final(account)@ == rejected(old(account)@, d, orders.commit_on_accept)
            &&& final(status)@ == match d {
                Disposition::Advance => noted.published(
                    orders.wallet_index as int,
                    final(account)@.pending,
                    final(account)@.balance,
                    None,
                ),
                Disposition::HoldAndRetryOther => noted.erred(orders.label@ + ": "@ + msg@),
                _ => noted,
            }
        }),
{
    let class = classify_reject(msg);
    let kind = reject_meter(class);
    assert(old(status)@.meter.totals[kind.spec_index()] < u64::MAX);
    status.record(now_ms, kind);
    log_shot(status, &orders.label, account.height, shot, false, msg);
    match disposition(class) {
        Disposition::HoldAndRetry => Next::Done(FireResult::Backoff(CAPACITY_BACKOFF_MS)),
        Disposition::Advance => {
            if orders.commit_on_accept {
                account.seq.advance();
            }
            status.publish(orders.wallet_index, account.pending(), account.known_balance, None);
            Next::Done(FireResult::Continue)
        },
        Disposition::ReconcileForward => Next::AskNonce,
        Disposition::WaitAffordable => Next::AskBalanceAndNonce,
        Disposition::HoldAndRetryOther => {
            let mut e = owned(orders.label.as_str());
            e.append(": ");
            e.append(msg);
            status.set_error(e.as_str());
            Next::Done(FireResult::Backoff(OTHER_BACKOFF_MS))
        },
    }
}

/// The pending nonce after the node was asked for its own.
pub open spec fn raised(pending: u64, reported: Option<u64>) -> u64 {
    match reported {
        Some(n) => nonce::reconciled(pending, n),
        None => pending,
    }
}

/// The node was asked for its nonce after a stale one: move forward, never back.
pub fn on_nonce(
    orders: &Orders,
    account: &mut Account,
    status: &mut Status,
    reported: Option<u64>,
) -> (next: Next)
    requires
        old(status)@.wf(),
    ensures
        final(status)@.wf(),
        next == Next::Done(FireResult::Continue),
        final(account)@ == (AccountView {
            pending: raised(old(account)@.pending, reported),
            ..old(account)@
        }),
        final(status)@ == old(status)@.published(
            orders.wallet_index as int,
            final(account)@.pending,
            final(account)@.balance,
            None,
        ),
{
    if let Some(n) = reported {
        account.seq.reconcile(n);
    }
    status.publish(orders.wallet_index, account.pending(), account.known_balance, None);
    Next::Done(FireResult::Continue)
}

/// The node was asked for balance and nonce after it found the balance committed: hold
/// the nonce and wait, until the backlog mines out.
pub fn on_committed_balance(
    orders: &Orders,
    account: &mut Account,
    status: &mut Status,
    fresh: Option<u128>,
    reported: Option<u64>,
) -> (next: Next)
    requires
        old(status)@.wf(),
    ensures
        final(status)@.wf(),
        next == Next::Done(FireResult::Backoff(AFFORD_BACKOFF_MS)),
        final(account)@ == (AccountView {
            pending: raised(old(account)@.pending, reported),
            balance: refreshed(old(account)@.balance, fresh),
            ..old(account)@
        }),
        final(status)@ == old(status)@.published(
            orders.wallet_index as int,
            final(account)@.pending,
            final(account)@.balance,
            Some("balance committed by pending txs — resumes as they mine"@),
        ),
{
    if fresh.is_some() {
        account.known_balance = fresh;
    }
    if let Some(n) = reported {
        account.seq.reconcile(n);
    }
    status.publish(
        orders.wallet_index,
        account.pending(),
        account.known_balance,
        Some(owned("balance committed by pending txs — resumes as they mine")),
    );
    Next::Done(FireResult::Backoff(AFFORD_BACKOFF_MS))
}

/// A rejection never burns a nonce: in continuous modes it is committed exactly where the
/// slot was already taken by our own earlier submit, and held everywhere else.
pub proof fn law_a_rejection_never_burns_a_nonce(a: AccountView, class: RejectClass)
    requires
        a.pending < u64::MAX,
    ensures
        ({
            let d = reject::disposition_of(class);
            rejected(a, d, true).pending == if class is NonceOccupied {
                a.pending + 1
            } else {
                a.pending as int
            }
        }),
{
}

/// Whatever the node answers, the pending nonce never moves back, and one shot moves it
/// by at most one beyond what the node reports.
pub proof fn law_the_nonce_never_moves_back(
    a: AccountView,
    shot: Shot,
    class: RejectClass,
    reported: Option<u64>,
    commit: bool,
)
    requires
        a.pending < u64::MAX,
    ensures
        built(a, commit).pending >= a.pending,
        sent(a, shot, commit).pending >= a.pending,
        rejected(a, reject::disposition_of(class), commit).pending >= a.pending,
        raised(a.pending, reported) >= a.pending,
        sent(built(a, commit), shot, commit).pending == a.pending + 1,
        raised(a.pending, reported) > a.pending ==> reported == Some(
            raised(a.pending, reported),
        ),
{
}

/// A shot on a known balance is built only when the balance covers amount, fee and bid,
/// so what is debited was there.
pub proof fn law_a_built_shot_is_covered(balance: u128, amount: u128, tip: u128)
    requires
        !short_of(Some(balance), amount, tip),
        amount + FEE_ESTIMATE_GRAINS + tip <= u128::MAX,
    ensures
        debited(Some(balance), amount, tip) == Some(
            (balance - amount - FEE_ESTIMATE_GRAINS - tip) as u128,
        ),
        balance >= amount + FEE_ESTIMATE_GRAINS + tip,
{
}

/// What the most expensive transfer of some orders commits.
pub open spec fn worst_case(amount: AmountMode, tip: TipMode) -> u128 {
    cost(amount.spec_largest(), tip.spec_largest())
}

/// What the most expensive next transfer commits: the largest amount, the fee and the
/// largest bid. The heartbeat's rails are held against this.
pub fn worst_case_cost(amount: &AmountMode, tip: &TipMode) -> (c: u128)
    ensures
        c == worst_case(*amount, *tip),
{
    shot_cost(amount.largest(), tip.largest())
}

/// No draw is what crosses the reserve: where the rails allow the worst case on a known
/// balance, every transfer that can be drawn leaves the reserve untouched. A reserve of
/// nothing protects nothing.
pub proof fn law_no_draw_crosses_the_reserve(
    limits: HeartbeatLimits,
    orders: Orders,
    balance: u128,
    sent: u64,
    spent: u128,
    s: u64,
    t: u64,
)
    requires
        can_draw(orders),
        limits.reserve_grains > 0,
        heartbeat::halted(
            limits,
            Some(balance),
            sent,
            spent,
            worst_case(orders.amount_mode, orders.tip_mode),
        ) is None,
    ensures
        ({
            let amount = amount_drawn(orders.amount_mode, s).0;
            let tip = tip_drawn(orders.tip_mode, t).0;
            &&& !short_of(Some(balance), amount, tip)
            &&& debited(Some(balance), amount, tip) matches Some(left) && left
                >= limits.reserve_grains
        }),
{
    let worst = worst_case(orders.amount_mode, orders.tip_mode);
    heartbeat::law_the_reserve_is_never_crossed(limits, balance, sent, spent, worst);
    if let AmountMode::Range { min, max } = orders.amount_mode {
        lemma_draw_is_in_range(s, min, max);
    }
    if let TipMode::Range { min, max } = orders.tip_mode {
        lemma_draw_is_in_range(t, min, max);
    }
}

proof fn lemma_draw_is_in_range(state: u64, min: u128, max: u128)
    requires
        amounts::drawable(min, max),
    ensures
        min <= amounts::drawn_between(state, min, max) <= max,
{
    let n = (max - min + 1) as nat;
    let w = rng::wide_draw(state);
    assert(0 <= w % n < n);
}

/// Which tips a per-block worker has fired on.
#[derive(Clone, Copy, Debug)]
pub struct TipWatch {
    last: Option<u64>,
}

/// A height above every one seen so far.
pub open spec fn is_new_tip(last: Option<u64>, height: u64) -> bool {
    match last {
        Some(h) => height > h,
        None => true,
    }
}

impl TipWatch {
    /// The newest tip that was seen.
    pub closed spec fn view(&self) -> Option<u64> {
        self.last
    }

    /// A watch that has seen no tip.
    pub fn new() -> (w: Self)
        ensures
            w@ is None,
    {
        TipWatch { last: None }
    }

    /// Take in a tip and say whether it is a new one. A tip is new once, whether or not
    /// what follows works out.
    pub fn observe(&mut self, height: u64) -> (new: bool)
        ensures
            new == is_new_tip(old(self)@, height),
            final(self)@ == if is_new_tip(old(self)@, height) {
                Some(height)
            } else {
                old(self)@
            },
    {
        let new: bool = match self.last {
            Some(h) => height > h,
            None => true,
        };
        if new {
            self.last = Some(height);
        }
        new
    }
}

/// The newest tip after some were seen.
pub open spec fn newest_tip(seen: Seq<u64>) -> Option<u64>
    decreases seen.len(),
{
    if seen.len() == 0 {
        None
    } else {
        let before = newest_tip(seen.drop_last());
        if is_new_tip(before, seen.last()) {
            Some(seen.last())
        } else {
            before
        }
    }
}

/// A block is fired on at most once: a height that was seen before, or one below, is
/// never new again.
pub proof fn law_a_block_is_fired_on_once(seen: Seq<u64>, i: int, height: u64)
    requires
        0 <= i < seen.len(),
        height <= seen[i],
    ensures
        !is_new_tip(newest_tip(seen), height),
    decreases seen.len(),
{
    if i < seen.len() - 1 {
        law_a_block_is_fired_on_once(seen.drop_last(), i, height);
    }
}

/// Whether a continuous worker is due to reconcile with the node.
pub fn sync_due(last_ms: Option<u64>, now_ms: u64) -> (b: bool)
    ensures
        b == match last_ms {
            Some(t) => now_ms - t >= RECONCILE_INTERVAL_MS,
            None => true,
        },
{
    match last_ms {
        Some(t) => now_ms.saturating_sub(t) >= RECONCILE_INTERVAL_MS,
        None => true,
    }
}

/// What a worker knows of the network it signs for.
#[derive(Debug)]
pub struct Network {
    domain: Option<SigningDomain>,
    auction_active: bool,
}

/// An optional domain by its contents.
pub open spec fn domain_of(d: Option<SigningDomain>) -> Option<chain::DomainView> {
    match d {
        Some(x) => Some(x@),
        None => None,
    }
}

impl Network {
    /// The domain signatures are bound to; `None` while they are not bound.
    pub closed spec fn spec_domain(&self) -> Option<chain::DomainView> {
        domain_of(self.domain)
    }

    /// The blockspace auction is live.
    pub closed spec fn spec_active(&self) -> bool {
        self.auction_active
    }

    /// A network of which nothing is known yet: signatures are not bound, and no bid is
    /// attached.
    pub fn new() -> (n: Self)
        ensures
            n.spec_domain() is None,
            !n.spec_active(),
    {
        Network { domain: None, auction_active: false }
    }

    /// The domain signatures are bound to.
    pub fn domain(&self) -> (d: Option<&SigningDomain>)
        ensures
            match d {
                Some(x) => Some(x@) == self.spec_domain(),
                None => self.spec_domain() is None,
            },
    {
        match &self.domain {
            Some(x) => Some(x),
            None => None,
        }
    }

    /// Whether the blockspace auction is live.
    pub fn auction_active(&self) -> (b: bool)
        ensures
            b == self.spec_active(),
    {
        self.auction_active
    }

    /// Take in the node's answers. Only a definitive one changes anything: a transient
    /// failure never downgrades a bound worker to unbound signatures.
    pub fn refresh(&mut self, domain: Option<Option<SigningDomain>>, deployments: Option<&Json>)
        ensures
            final(self).spec_domain() == match domain {
                Some(d) => domain_of(d),
                None => old(self).spec_domain(),
            },
            final(self).spec_active() == match deployments {
                Some(j) => json::auction_listed_active(j@),
                None => old(self).spec_active(),
            },
    {
        if let Some(d) = domain {
            self.domain = d;
        }
        if let Some(j) = deployments {
            self.auction_active = parse_fee_auction_active(j);
        }
    }
}

/// A transfer commits its amount, the fee and its bid, held at the largest amount; a known
/// balance is short of it exactly where it holds less; and what is debited is that, down to
/// nothing. An unknown balance is short of nothing, and stays unknown.
pub proof fn law_a_transfer_commits_its_parts(balance: u128, amount: u128, tip: u128)
    ensures
        amount + FEE_ESTIMATE_GRAINS + tip <= u128::MAX ==> cost(amount, tip) == amount
            + FEE_ESTIMATE_GRAINS + tip,
        amount + FEE_ESTIMATE_GRAINS + tip > u128::MAX ==> cost(amount, tip) == u128::MAX,
        amount + FEE_ESTIMATE_GRAINS + tip <= u128::MAX ==> (short_of(Some(balance), amount, tip)
            <==> balance < amount + FEE_ESTIMATE_GRAINS + tip),
        balance >= amount + FEE_ESTIMATE_GRAINS + tip ==> debited(Some(balance), amount, tip)
            == Some((balance - amount - FEE_ESTIMATE_GRAINS - tip) as u128),
        balance < amount + FEE_ESTIMATE_GRAINS + tip && amount + FEE_ESTIMATE_GRAINS + tip
            <= u128::MAX ==> debited(Some(balance), amount, tip) == Some(0u128),
        !short_of(None, amount, tip),
        debited(None, amount, tip) is None,
{
}

/// What a rejection leads to, class by class: a full pool is waited out with the nonce held;
/// a taken slot is passed at once, and only there does the nonce move, by one; a stale nonce
/// is asked about; a committed balance too; and anything else is tried again later. The
/// balance and the height stay.
pub proof fn law_each_rejection_leads_where_it_should(a: AccountView, class: RejectClass)
    requires
        a.pending < u64::MAX,
    ensures
        ({
            let d = reject::disposition_of(class);
            let next = next_after(d);
            &&& next == Next::Done(FireResult::Backoff(CAPACITY_BACKOFF_MS)) <==> class is Capacity
            &&& next == Next::Done(FireResult::Continue) <==> class is NonceOccupied
            &&& next == Next::AskNonce <==> class is NonceStale
            &&& next == Next::AskBalanceAndNonce <==> class is Insufficient
            &&& next == Next::Done(FireResult::Backoff(OTHER_BACKOFF_MS)) <==> class is NonceGap
                || class is Other
            &&& rejected(a, d, true).pending == a.pending + if class is NonceOccupied {
                1int
            } else {
                0
            }
            &&& rejected(a, d, false) == a
            &&& rejected(a, d, true).balance == a.balance
            &&& rejected(a, d, true).height == a.height
        }),
{
}

/// A rejection is metered under its reason: capacity, nonce, affordability, or any other.
pub proof fn law_each_rejection_has_its_meter(class: RejectClass)
    ensures
        meter_of(class) == MeterKind::RejCapacity <==> class is Capacity,
        meter_of(class) == MeterKind::RejNonce <==> class is NonceStale || class is NonceOccupied,
        meter_of(class) == MeterKind::RejAfford <==> class is Insufficient,
        meter_of(class) == MeterKind::RejOther <==> class is NonceGap || class is Other,
{
}

/// A shot that goes through uses one nonce, whichever way the nonce is committed: on building
/// where the worker allocates on send, on acceptance where it commits on accept, and never
/// both. It costs what it commits, and leaves the height.
pub proof fn law_one_shot_uses_one_nonce(a: AccountView, shot: Shot)
    requires
        a.pending < u64::MAX,
    ensures
        built(a, true) == a,
        built(a, false).pending == a.pending + 1,
        built(a, false).balance == a.balance && built(a, false).height == a.height,
        sent(a, shot, true).pending == a.pending + 1,
        sent(a, shot, false).pending == a.pending,
        forall|commit: bool|
            {
                &&& (#[trigger] sent(a, shot, commit)).height == a.height
                &&& sent(a, shot, commit).balance == debited(
                    a.balance,
                    shot.amount_grains,
                    shot.tip_grains,
                )
            },
{
}

/// The node's word on the balance replaces ours, and its silence does not; its word on the
/// nonce moves ours forward to it, and never back.
pub proof fn law_only_an_answer_changes_what_is_known(
    known: Option<u128>,
    fresh: Option<u128>,
    pending: u64,
    reported: Option<u64>,
)
    ensures
        fresh is Some ==> refreshed(known, fresh) == fresh,
        fresh is None ==> refreshed(known, fresh) == known,
        reported is None ==> raised(pending, reported) == pending,
        reported matches Some(n) ==> n > pending ==> raised(pending, reported) == n,
        reported matches Some(n) ==> n <= pending ==> raised(pending, reported) == pending,
{
}

/// What is drawn is what the orders say: a fixed amount as it stands, drawing nothing; one
/// from a range, with one draw; and no bid at all where none is ordered.
pub proof fn law_orders_are_drawn_as_given(m: AmountMode, t: TipMode, state: u64)
    ensures
        m matches AmountMode::Fixed(v) ==> amount_drawn(m, state) == (v, state),
        m matches AmountMode::Range { min, max } ==> min <= max ==> {
            &&& min <= amount_drawn(m, state).0 <= max
            &&& amount_drawn(m, state).0 - min == rng::wide_draw(state) % ((max - min + 1) as nat)
            &&& amount_drawn(m, state).1 == rng::scrambled(rng::scrambled(state))
        },
        t is Off ==> tip_drawn(t, state) == (0u128, state),
        t matches TipMode::Fixed(v) ==> tip_drawn(t, state) == (v, state),
        t matches TipMode::Range { min, max } ==> min <= max ==> {
            &&& min <= tip_drawn(t, state).0 <= max
            &&& tip_drawn(t, state).0 - min == rng::wide_draw(state) % ((max - min + 1) as nat)
            &&& tip_drawn(t, state).1 == rng::scrambled(rng::scrambled(state))
        },
{
    if let AmountMode::Range { min, max } = m {
        if min <= max {
            amounts::law_a_range_is_drawn_whole(state, min, max);
        }
    }
    if let TipMode::Range { min, max } = t {
        if min <= max {
            amounts::law_a_range_is_drawn_whole(state, min, max);
        }
    }
}

/// The most expensive transfer is no cheaper than any that the orders can draw, and is one of
/// those where the orders are fixed.
pub proof fn law_the_worst_case_is_the_dearest(m: AmountMode, t: TipMode, s: u64, u: u64)
    requires
        m matches AmountMode::Range { min, max } ==> min <= max,
        t matches TipMode::Range { min, max } ==> min <= max,
    ensures
        cost(amount_drawn(m, s).0, tip_drawn(t, u).0) <= worst_case(m, t),
        m is Fixed && !(t is Range) ==> cost(amount_drawn(m, s).0, tip_drawn(t, u).0) == worst_case(
            m,
            t,
        ),
        m matches AmountMode::Range { max, .. } ==> worst_case(m, t) >= cost(max, 0),
{
    law_orders_are_drawn_as_given(m, t, s);
    law_orders_are_drawn_as_given(m, t, u);
}

/// The newest tip is the highest that was seen, and a tip is new exactly where it is above
/// every one of them; the first always is.
pub proof fn law_a_tip_is_new_above_all_seen(seen: Seq<u64>, height: u64)
    ensures
        newest_tip(seen) is None <==> seen.len() == 0,
        newest_tip(seen) matches Some(h) ==> seen.contains(h),
        forall|i: int|
            0 <= i < seen.len() ==> (newest_tip(seen) matches Some(h) && #[trigger] seen[i] <= h),
        is_new_tip(newest_tip(seen), height) <==> forall|i: int|
            0 <= i < seen.len() ==> #[trigger] seen[i] < height,
    decreases seen.len(),
{
    if seen.len() > 0 {
        let d = seen.drop_last();
        law_a_tip_is_new_above_all_seen(d, seen.last());
        let n = newest_tip(seen)->Some_0;
        assert(seen.contains(n)) by {
            if n == seen.last() {
                assert(seen[seen.len() - 1] == n);
            } else {
                let i = choose|i: int| 0 <= i < d.len() && d[i] == n;
                assert(seen[i] == n);
            }
        }
        assert forall|i: int| 0 <= i < seen.len() implies #[trigger] seen[i] <= n by {
            if i < d.len() {
                assert(d[i] == seen[i]);
            }
        }
        if is_new_tip(newest_tip(seen), height) {
            assert forall|i: int| 0 <= i < seen.len() implies #[trigger] seen[i] < height by {
                assert(seen[i] <= n);
            }
        } else {
            let i = choose|i: int| 0 <= i < seen.len() && seen[i] == n;
            assert(!(seen[i] < height));
        }
    }
}

/// A round robin takes the next destination and draws nothing; at random one is drawn, and
/// the cycle stays where it is.
pub proof fn law_a_destination_is_picked_as_ordered(s: DestSelector, state: u64)
    requires
        s.wf(),
    ensures
        s.spec_mode() == crate::dest::DestMode::RoundRobin ==> {
            &&& dest_picked(s, state) == (s.list()[s.cursor()], state)
            &&& cursor_after(s) == if s.cursor() + 1 == s.list().len() {
                0
            } else {
                s.cursor() + 1
            }
        },
        s.spec_mode() == crate::dest::DestMode::Random ==> {
            &&& dest_picked(s, state).0 == s.list()[(rng::wide_draw(state) % s.list().len()) as int]
            &&& dest_picked(s, state).1 == rng::scrambled(rng::scrambled(state))
            &&& cursor_after(s) == s.cursor()
        },
{
    let n = s.list().len();
    if s.cursor() + 1 == n {
        vstd::arithmetic::div_mod::lemma_mod_self_0(n as int);
    } else {
        vstd::arithmetic::div_mod::lemma_small_mod((s.cursor() + 1) as nat, n);
    }
}

/// A line of the log says who fired, at which height, what was sent to whom under which
/// nonce, whether it went through, and what happened.
pub proof fn law_a_line_says_what_was_fired(
    label: Seq<char>,
    height: u64,
    shot: Shot,
    ok: bool,
    detail: Seq<char>,
)
    ensures
        ({
            let l = shot_line(label, height, shot, ok, detail);
            &&& l.wallet == label
            &&& l.height == height
            &&& l.to == shot.to@
            &&& l.amount_grains == shot.amount_grains
            &&& l.nonce == shot.nonce
            &&& l.ok == ok
            &&& l.detail == detail
        }),
{
}

/// A wait for funds is told with what there is and what is to be covered, in that order.
pub proof fn law_a_wait_for_funds_gives_both_amounts(balance: u128, amount: u128)
    ensures
        short_text(balance, amount) == "balance "@ + xus::plain_text(balance as nat)
            + " XUS can't cover "@ + xus::plain_text(amount as nat)
            + " XUS + fee — waiting for pending txs to mine"@,
{
}

} // verus!
