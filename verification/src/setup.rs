//! From the operator's form to a run: destinations, amount, rate, and one worker per
//! selected wallet.

use crate::amounts::AmountMode;
use crate::chain::AccountId;
use crate::dest;
use crate::dest::DestMode;
use crate::duel::DuelSide;
use crate::keystore;
use crate::keystore::Roster;
use crate::text;
use crate::text::{chars_of, owned, push_decimal, trim_string};
use crate::transfer::KeyScheme;
use crate::xus;
use crate::xus::{digits_value, parse_xus};
use vstd::prelude::*;

verus! {

/// Hard cap on transactions fired per new block.
pub const MAX_RATE: u32 = 100;

/// Which rate mode the operator selected.
#[derive(Clone, Copy, Debug, PartialEq, Eq, Structural)]
pub enum ModeChoice {
    /// A number of transactions on each new block.
    PerBlock,
    /// A steady rate, independent of blocks.
    TargetTps,
    /// As fast as the mempool allows.
    Firehose,
}

/// How fast to fire.
#[derive(Clone, Copy, Debug, PartialEq, Eq, Structural)]
pub enum RateMode {
    /// Fire so many transactions on each new block.
    PerBlock(u32),
    /// Pace submissions to a target per second; the pacer holds the figure.
    TargetTps,
    /// Submit as fast as signing and posting allow.
    Firehose,
    /// Keep a gentle, indefinite trickle flowing.
    Heartbeat {
        /// Target interval between submissions, in milliseconds.
        interval_ms: u64,
        /// Symmetric jitter as a percentage of the interval.
        jitter_pct: u32,
    },
    /// One side of the auction duel: the heartbeat's pace without jitter.
    Duel {
        /// Interval between this side's submissions, in milliseconds.
        interval_ms: u64,
        /// Which side this worker is.
        side: DuelSide,
    },
}

/// The lines of a text: what stands between line feeds.
pub open spec fn lines_of(s: Seq<char>) -> Seq<Seq<char>>
    decreases s.len(),
{
    if s.len() == 0 {
        seq![Seq::<char>::empty()]
    } else {
        let before = lines_of(s.drop_last());
        if s.last() == '\n' {
            before.push(Seq::empty())
        } else {
            before.drop_last().push(before.last().push(s.last()))
        }
    }
}

fn split_lines(s: &str) -> (r: Vec<String>)
    ensures
        keystore::views(r@) == lines_of(s@),
{
    let v = chars_of(s);
    let n: usize = v.len();
    let mut done: Vec<String> = Vec::new();
    let mut line = String::new();
    let mut i: usize = 0;
    assert(keystore::views(done@).push(line@) =~= lines_of(v@.take(0)));
    while i < n
        invariant
            n == v@.len(),
            i <= n,
            keystore::views(done@).push(line@) == lines_of(v@.take(i as int)),
        decreases n - i,
    {
        let ghost before = lines_of(v@.take(i as int));
        let ghost open = line@;
        assert(v@.take(i + 1).drop_last() =~= v@.take(i as int));
        assert(before.last() == open);
        assert(before.drop_last() =~= keystore::views(done@));
        if v[i] == '\n' {
            done.push(line);
            line = String::new();
            assert(keystore::views(done@) =~= before);
            assert(line@ =~= Seq::<char>::empty());
        } else {
            line.push(v[i]);
        }
        i = i + 1;
    }
    assert(v@.take(i as int) =~= v@);
    let ghost all = keystore::views(done@).push(line@);
    done.push(line);
    assert(keystore::views(done@) =~= all);
    done
}

/// The lines that name something, trimmed, each with its number from one.
pub open spec fn named_lines(lines: Seq<Seq<char>>) -> Seq<(usize, Seq<char>)>
    decreases lines.len(),
{
    if lines.len() == 0 {
        Seq::empty()
    } else {
        let before = named_lines(lines.drop_last());
        let t = text::trim(lines.last());
        if t.len() == 0 {
            before
        } else {
            before.push((lines.len() as usize, t))
        }
    }
}

/// Numbered texts by their contents.
pub open spec fn numbered(v: Seq<(usize, String)>) -> Seq<(usize, Seq<char>)> {
    v.map_values(|p: (usize, String)| (p.0, p.1@))
}

/// The destinations that the operator wrote, one per line, blank lines skipped.
pub fn destination_lines(input: &str) -> (r: Vec<(usize, String)>)
    ensures
        numbered(r@) == named_lines(lines_of(input@)),
{
    let lines = split_lines(input);
    let ghost all = lines_of(input@);
    let mut r: Vec<(usize, String)> = Vec::new();
    let n: usize = lines.len();
    let mut i: usize = 0;
    assert(numbered(r@) =~= named_lines(all.take(0)));
    while i < n
        invariant
            n == lines@.len(),
            all == keystore::views(lines@),
            i <= n,
            numbered(r@) == named_lines(all.take(i as int)),
        decreases n - i,
    {
        let t = trim_string(lines[i].as_str());
        let ghost before = numbered(r@);
        assert(all.take(i + 1).drop_last() =~= all.take(i as int));
        assert(all.take(i + 1).last() == lines@[i as int]@);
        if t.as_str().unicode_len() > 0 {
            let ghost shown = t@;
            r.push((i + 1, t));
            assert(numbered(r@) =~= before.push(((i + 1) as usize, shown)));
        }
        i = i + 1;
    }
    assert(all.take(i as int) =~= all);
    r
}

/// A line after the chain's rules for account ids were asked about it.
#[derive(Debug)]
pub struct CheckedLine {
    /// Its number.
    pub line: usize,
    /// What it says.
    pub said: String,
    /// The account it names, or why it names none.
    pub answer: Result<AccountId, String>,
}

/// Why a line is refused.
pub open spec fn refusal(l: CheckedLine) -> Seq<char> {
    "line "@ + text::decimal(l.line as nat) + ": '"@ + l.said@ + "' is not a valid account: "@
        + l.answer->Err_0@
}

/// The place of the first line that is refused, or the length where none is.
pub open spec fn first_refused(lines: Seq<CheckedLine>) -> nat
    decreases lines.len(),
{
    if lines.len() == 0 || lines[0].answer is Err {
        0
    } else {
        1 + first_refused(lines.skip(1))
    }
}

/// The accounts that accepted lines name.
pub open spec fn named_accounts(lines: Seq<CheckedLine>) -> Seq<Seq<char>> {
    lines.map_values(|l: CheckedLine| l.answer->Ok_0@)
}

proof fn lemma_first_refused(lines: Seq<CheckedLine>, i: nat)
    requires
        i <= lines.len(),
        forall|k: int| 0 <= k < i ==> (#[trigger] lines[k]).answer is Ok,
        i < lines.len() ==> lines[i as int].answer is Err,
    ensures
        first_refused(lines) == i,
    decreases i,
{
    if i > 0 {
        assert(lines[0].answer is Ok);
        let rest = lines.skip(1);
        assert forall|k: int| 0 <= k < i - 1 implies (#[trigger] rest[k]).answer is Ok by {
            assert(rest[k] == lines[k + 1]);
        }
        lemma_first_refused(rest, (i - 1) as nat);
    }
}

/// The destinations of a run. In the closed loop they are the unlocked wallets' own
/// accounts, so that no principal leaves them; else they are the lines, all of which
/// have to name an account.
pub fn parse_dests(recycle: bool, own: &Roster, lines: &Vec<CheckedLine>) -> (r: Result<
    Vec<AccountId>,
    String,
>)
    ensures
        r is Ok <==> if recycle {
            own@.len() > 0
        } else {
            lines@.len() > 0 && first_refused(lines@) == lines@.len()
        },
        r matches Ok(v) ==> dest::texts(v@) == if recycle {
            keystore::accounts_of(own@)
        } else {
            named_accounts(lines@)
        },
        r matches Err(e) ==> e@ == if recycle {
            "unlock your wallets first — recycle sends XUS among your own accounts"@
        } else if lines@.len() == 0 {
            "add at least one destination address (one per line)"@
        } else {
            refusal(lines@[first_refused(lines@) as int])
        },
{
    if recycle {
        if own.len() == 0 {
            return Err(
                owned("unlock your wallets first — recycle sends XUS among your own accounts"),
            );
        }
        return Ok(own.accounts());
    }
    let mut out: Vec<AccountId> = Vec::new();
    let n: usize = lines.len();
    let mut i: usize = 0;
    assert(dest::texts(out@) =~= named_accounts(lines@.take(0)));
    while i < n
        invariant
            n == lines@.len(),
            i <= n,
            !recycle,
            forall|k: int| 0 <= k < i ==> (#[trigger] lines@[k]).answer is Ok,
            dest::texts(out@) == named_accounts(lines@.take(i as int)),
        decreases n - i,
    {
        match &lines[i].answer {
            Ok(a) => {
                let ghost before = out@;
                out.push(a.clone());
                assert(dest::texts(out@) =~= dest::texts(before).push(a@));
                assert(named_accounts(lines@.take(i + 1)) =~= named_accounts(
                    lines@.take(i as int),
                ).push(a@));
            },
            Err(e) => {
                proof {
                    lemma_first_refused(lines@, i as nat);
                }
                let mut why = owned("line ");
                push_decimal(&mut why, lines[i].line as u128);
                why.append(": '");
                why.append(lines[i].said.as_str());
                why.append("' is not a valid account: ");
                why.append(e.as_str());
                return Err(why);
            },
        }
        i = i + 1;
    }
    proof {
        lemma_first_refused(lines@, n as nat);
        assert(lines@.take(i as int) =~= lines@);
    }
    if n == 0 {
        return Err(owned("add at least one destination address (one per line)"));
    }
    Ok(out)
}

/// The closed loop never pays a stranger: whichever entry of its destinations is picked,
/// it is the account of an unlocked wallet.
pub proof fn law_recycle_never_pays_a_stranger(w: Seq<keystore::WalletView>, i: int)
    requires
        0 <= i < keystore::accounts_of(w).len(),
    ensures
        keystore::holds(w, keystore::accounts_of(w)[i]),
{
    assert(w[i].account == keystore::accounts_of(w)[i]);
}

/// What the amount fields say.
pub open spec fn amount_read(
    random: bool,
    fixed: Seq<char>,
    min: Seq<char>,
    max: Seq<char>,
) -> Option<AmountMode> {
    if random {
        match (xus::parsed(min), xus::parsed(max)) {
            (Some(a), Some(b)) => Some(AmountMode::Range { min: a, max: b }),
            _ => None,
        }
    } else {
        match xus::parsed(fixed) {
            Some(v) => Some(AmountMode::Fixed(v)),
            None => None,
        }
    }
}

/// Parse and validate the amount fields.
pub fn parse_amount_mode(random: bool, fixed: &str, min: &str, max: &str) -> (r: Result<
    AmountMode,
    String,
>)
    ensures
        r is Ok <==> (amount_read(random, fixed@, min@, max@) matches Some(m) && m.valid()),
        r matches Ok(m) ==> Some(m) == amount_read(random, fixed@, min@, max@),
        r matches Err(e) ==> e@ == match amount_read(random, fixed@, min@, max@) {
            Some(AmountMode::Fixed(_)) => "amount must be greater than zero"@,
            Some(AmountMode::Range { min: a, max: b }) => if b < a {
                "amount max must be ≥ min"@
            } else {
                "amount max must be greater than zero"@
            },
            None => if !random {
                "amount is not a valid XUS value"@
            } else if xus::parsed(min@) is None {
                "amount min is not a valid XUS value"@
            } else {
                "amount max is not a valid XUS value"@
            },
        },
{
    let mode = if random {
        let a = match parse_xus(min) {
            Some(v) => v,
            None => {
                return Err(owned("amount min is not a valid XUS value"));
            },
        };
        let b = match parse_xus(max) {
            Some(v) => v,
            None => {
                return Err(owned("amount max is not a valid XUS value"));
            },
        };
        AmountMode::Range { min: a, max: b }
    } else {
        match parse_xus(fixed) {
            Some(v) => AmountMode::Fixed(v),
            None => {
                return Err(owned("amount is not a valid XUS value"));
            },
        }
    };
    match mode.validate() {
        Ok(()) => Ok(mode),
        Err(e) => Err(e),
    }
}

/// The count that a text writes: decimal digits, white space around them and one plus
/// sign before them allowed.
pub open spec fn count_read(s: Seq<char>) -> Option<u32> {
    let t = text::trim(s);
    let d = if t.len() > 0 && t[0] == '+' {
        t.skip(1)
    } else {
        t
    };
    if d.len() > 0 && xus::all_digits(d) && xus::number(d) <= u32::MAX {
        Some(xus::number(d) as u32)
    } else {
        None
    }
}

/// Read a count.
pub fn parse_count(s: &str) -> (r: Option<u32>)
    ensures
        r == count_read(s@),
{
    let all = chars_of(s);
    let v = text::trim_chars(&all);
    let from: usize = if v.len() > 0 && v[0] == '+' {
        1
    } else {
        0
    };
    let n: usize = v.len();
    assert(v@.subrange(from as int, n as int) =~= if v@.len() > 0 && v@[0] == '+' {
        v@.skip(1)
    } else {
        v@
    });
    if from == n {
        return None;
    }
    match digits_value(&v, from, n) {
        Some(x) => if x <= u32::MAX as u128 {
            Some(x as u32)
        } else {
            None
        },
        None => None,
    }
}

/// Parse and validate the rate. Whether the target rate is a figure in its band is the
/// pacer's to say.
pub fn parse_rate_mode(choice: ModeChoice, rate: &str, target_in_band: bool) -> (r: Result<
    RateMode,
    String,
>)
    ensures
        r is Ok <==> match choice {
            ModeChoice::PerBlock => count_read(rate@) matches Some(n) && 1 <= n <= MAX_RATE,
            ModeChoice::TargetTps => target_in_band,
            ModeChoice::Firehose => true,
        },
        r matches Ok(m) ==> m == match choice {
            ModeChoice::PerBlock => RateMode::PerBlock(count_read(rate@)->Some_0),
            ModeChoice::TargetTps => RateMode::TargetTps,
            ModeChoice::Firehose => RateMode::Firehose,
        },
        r matches Err(e) ==> e@ == if choice is PerBlock {
            "per-block rate must be between 1 and "@ + text::decimal(MAX_RATE as nat)
        } else {
            "target TX/s must be between 0.1 and 500"@
        },
{
    match choice {
        ModeChoice::PerBlock => {
            match parse_count(rate) {
                Some(n) => {
                    if 1 <= n && n <= MAX_RATE {
                        return Ok(RateMode::PerBlock(n));
                    }
                },
                None => {},
            }
            let mut e = owned("per-block rate must be between 1 and ");
            push_decimal(&mut e, MAX_RATE as u128);
            Err(e)
        },
        ModeChoice::TargetTps => {
            if target_in_band {
                Ok(RateMode::TargetTps)
            } else {
                Err(owned("target TX/s must be between 0.1 and 500"))
            }
        },
        ModeChoice::Firehose => Ok(RateMode::Firehose),
    }
}

/// The configured rate mode and its parameter, in words.
pub open spec fn mode_text(choice: ModeChoice, rate: Seq<char>, tps: Seq<char>) -> Seq<char> {
    match choice {
        ModeChoice::PerBlock => "per block × "@ + text::trim(rate),
        ModeChoice::TargetTps => "paced "@ + text::trim(tps) + " TX/s"@,
        ModeChoice::Firehose => "firehose"@,
    }
}

/// One-line description of the configured rate mode and its parameter.
pub fn mode_summary(choice: ModeChoice, rate: &str, tps: &str) -> (s: String)
    ensures
        s@ == mode_text(choice, rate@, tps@),
{
    match choice {
        ModeChoice::PerBlock => {
            let mut s = owned("per block × ");
            s.append(trim_string(rate).as_str());
            s
        },
        ModeChoice::TargetTps => {
            let mut s = owned("paced ");
            s.append(trim_string(tps).as_str());
            s.append(" TX/s");
            s
        },
        ModeChoice::Firehose => owned("firehose"),
    }
}

/// One worker of a run.
#[derive(Debug)]
pub struct WorkerPlan {
    /// The place of its wallet in the roster.
    pub wallet: usize,
    /// The wallet's label.
    pub label: String,
    /// The account it fires from.
    pub from: AccountId,
    /// The scheme it signs under.
    pub scheme: KeyScheme,
}

/// A run that can start.
#[derive(Debug)]
pub struct RunPlan {
    /// One worker per selected wallet, in roster order.
    pub workers: Vec<WorkerPlan>,
    /// Where to send.
    pub dests: Vec<AccountId>,
    /// How a destination is picked.
    pub dest_mode: DestMode,
    /// How much to send.
    pub amount_mode: AmountMode,
    /// How fast.
    pub mode: RateMode,
    /// Build and sign, but submit nothing.
    pub dry_run: bool,
}

/// The workers of some wallets stand for the selected ones, in order.
pub open spec fn staffs(workers: Seq<WorkerPlan>, w: Seq<keystore::WalletView>) -> bool {
    let chosen = keystore::chosen(w, w.len() as int);
    &&& workers.len() == chosen.len()
    &&& forall|k: int|
        0 <= k < workers.len() ==> {
            let x = w[chosen[k] as int];
            &&& (#[trigger] workers[k]).wallet == chosen[k]
            &&& workers[k].label@ == x.label
            &&& workers[k].from@ == x.account
            &&& workers[k].scheme == x.scheme
        }
}

proof fn lemma_chosen_in_range(w: Seq<keystore::WalletView>, n: int)
    requires
        0 <= n <= w.len(),
    ensures
        forall|k: int|
            0 <= k < keystore::chosen(w, n).len() ==> 0 <= #[trigger] keystore::chosen(w, n)[k]
                < n || n > usize::MAX,
    decreases n,
{
    if n > 0 {
        lemma_chosen_in_range(w, n - 1);
        let before = keystore::chosen(w, n - 1);
        assert forall|k: int| 0 <= k < keystore::chosen(w, n).len() implies 0
            <= #[trigger] keystore::chosen(w, n)[k] < n || n > usize::MAX by {
            if k < before.len() {
                assert(keystore::chosen(w, n)[k] == before[k]);
            }
        }
    }
}

/// Plan a run from what the form came to, or say what is wrong with it first.
pub fn plan_run(
    roster: &Roster,
    dests: Result<Vec<AccountId>, String>,
    amount: Result<AmountMode, String>,
    mode: Result<RateMode, String>,
    dest_random: bool,
    dry_run: bool,
) -> (r: Result<RunPlan, String>)
    ensures
        r is Ok <==> keystore::firing(roster@) > 0 && dests is Ok && amount is Ok && mode is Ok,
        r matches Ok(p) ==> {
            &&& staffs(p.workers@, roster@)
            &&& Ok::<Vec<AccountId>, String>(p.dests) == dests
            &&& Ok::<AmountMode, String>(p.amount_mode) == amount
            &&& Ok::<RateMode, String>(p.mode) == mode
            &&& p.dest_mode == if dest_random {
                DestMode::Random
            } else {
                DestMode::RoundRobin
            }
            &&& p.dry_run == dry_run
        },
        r matches Err(e) ==> e@ == if roster@.len() == 0 {
            "unlock a wallet first"@
        } else if keystore::firing(roster@) == 0 {
            "select at least one wallet to fire from"@
        } else if dests is Err {
            dests->Err_0@
        } else if amount is Err {
            amount->Err_0@
        } else {
            mode->Err_0@
        },
{
    if roster.len() == 0 {
        proof {
            reveal(Seq::filter);
        }
        return Err(owned("unlock a wallet first"));
    }
    if roster.selected_count() == 0 {
        return Err(owned("select at least one wallet to fire from"));
    }
    let dests = match dests {
        Ok(d) => d,
        Err(e) => {
            return Err(e);
        },
    };
    let amount_mode = match amount {
        Ok(m) => m,
        Err(e) => {
            return Err(e);
        },
    };
    let mode = match mode {
        Ok(m) => m,
        Err(e) => {
            return Err(e);
        },
    };
    let selected = roster.selected();
    let mut workers: Vec<WorkerPlan> = Vec::new();
    let total: usize = roster.len();
    proof {
        lemma_chosen_in_range(roster@, total as int);
    }
    let mut i: usize = 0;
    while i < selected.len()
        invariant
            i <= selected@.len(),
            total == roster@.len(),
            selected@ == keystore::chosen(roster@, total as int),
            forall|k: int| 0 <= k < selected@.len() ==> 0 <= #[trigger] selected@[k] < total,
            workers@.len() == i,
            forall|k: int|
                0 <= k < i ==> {
                    let x = roster@[selected@[k] as int];
                    &&& (#[trigger] workers@[k]).wallet == selected@[k]
                    &&& workers@[k].label@ == x.label
                    &&& workers@[k].from@ == x.account
                    &&& workers@[k].scheme == x.scheme
                },
        decreases selected@.len() - i,
    {
        let at: usize = selected[i];
        assert(0 <= selected@[i as int] < total);
        let w = roster.get(at);
        workers.push(
            WorkerPlan {
                wallet: at,
                label: owned(w.label.as_str()),
                from: w.account.clone(),
                scheme: w.scheme,
            },
        );
        i = i + 1;
    }
    Ok(
        RunPlan {
            workers,
            dests,
            dest_mode: if dest_random {
                DestMode::Random
            } else {
                DestMode::RoundRobin
            },
            amount_mode,
            mode,
            dry_run,
        },
    )
}

/// Lines put together again, a line feed between two.
pub open spec fn with_breaks(lines: Seq<Seq<char>>) -> Seq<char>
    decreases lines.len(),
{
    if lines.len() == 0 {
        Seq::empty()
    } else if lines.len() == 1 {
        lines[0]
    } else {
        with_breaks(lines.drop_last()) + seq!['\n'] + lines.last()
    }
}

/// Splitting loses nothing: the lines with line feeds between them are the text, and no line
/// has one in it.
pub proof fn law_lines_are_the_text(s: Seq<char>)
    ensures
        lines_of(s).len() > 0,
        with_breaks(lines_of(s)) == s,
        forall|i: int, j: int|
            0 <= i < lines_of(s).len() && 0 <= j < lines_of(s)[i].len() ==> #[trigger] lines_of(
                s,
            )[i][j] != '\n',
    decreases s.len(),
{
    if s.len() > 0 {
        let head = s.drop_last();
        law_lines_are_the_text(head);
        let before = lines_of(head);
        let l = lines_of(s);
        assert(s =~= head.push(s.last()));
        if s.last() == '\n' {
            assert(l.drop_last() =~= before);
            assert(with_breaks(l) =~= head + seq!['\n']);
            assert(with_breaks(l) =~= s);
            assert forall|i: int, j: int| 0 <= i < l.len() && 0 <= j < l[i].len() implies
                #[trigger] l[i][j] != '\n' by {
                assert(i < before.len());
                assert(before[i][j] != '\n');
            }
        } else {
            assert(l.drop_last() =~= before.drop_last());
            assert(l.last() == before.last().push(s.last()));
            if before.len() == 1 {
                assert(with_breaks(l) =~= before[0].push(s.last()));
                assert(with_breaks(before) == before[0]);
            } else {
                assert(with_breaks(l) =~= with_breaks(before).push(s.last()));
            }
            assert(with_breaks(l) =~= s);
            assert forall|i: int, j: int| 0 <= i < l.len() && 0 <= j < l[i].len() implies
                #[trigger] l[i][j] != '\n' by {
                if i < l.len() - 1 {
                    assert(before[i][j] != '\n');
                } else if j < before.last().len() {
                    assert(before[before.len() - 1][j] != '\n');
                }
            }
        }
    }
}

/// This entry stands for the line of its number: what it says, without the white space around
/// it, and it says something.
pub open spec fn stands_for(lines: Seq<Seq<char>>, e: (usize, Seq<char>)) -> bool {
    &&& 1 <= e.0 <= lines.len()
    &&& e.1 == text::trim(lines[e.0 - 1])
    &&& e.1.len() > 0
}

/// The named lines are the lines that say something, every one of them, in order, each under
/// its own number.
pub proof fn law_named_lines_are_the_ones_that_speak(lines: Seq<Seq<char>>)
    requires
        lines.len() <= usize::MAX,
    ensures
        forall|k: int|
            0 <= k < named_lines(lines).len() ==> stands_for(
                lines,
                #[trigger] named_lines(lines)[k],
            ),
        forall|a: int, b: int|
            0 <= a < b < named_lines(lines).len() ==> (#[trigger] named_lines(lines)[a]).0 < (
            #[trigger] named_lines(lines)[b]).0,
        forall|i: int|
            0 <= i < lines.len() && text::trim(#[trigger] lines[i]).len() > 0 ==> named_lines(
                lines,
            ).contains(((i + 1) as usize, text::trim(lines[i]))),
    decreases lines.len(),
{
    if lines.len() > 0 {
        let head = lines.drop_last();
        law_named_lines_are_the_ones_that_speak(head);
        let before = named_lines(head);
        let n = named_lines(lines);
        assert forall|k: int| 0 <= k < n.len() implies stands_for(lines, #[trigger] n[k]) by {
            if k < before.len() {
                assert(n[k] == before[k]);
                assert(stands_for(head, before[k]));
                assert(head[before[k].0 - 1] == lines[before[k].0 - 1]);
            }
        }
        assert forall|a: int, b: int| 0 <= a < b < n.len() implies (#[trigger] n[a]).0 < (
        #[trigger] n[b]).0 by {
            assert(n[a] == before[a]);
            assert(stands_for(head, before[a]));
            if b < before.len() {
                assert(n[b] == before[b]);
            }
        }
        assert forall|i: int|
            0 <= i < lines.len() && text::trim(#[trigger] lines[i]).len() > 0 implies n.contains(
            ((i + 1) as usize, text::trim(lines[i])),
        ) by {
            if i < head.len() {
                assert(head[i] == lines[i]);
                let e = ((i + 1) as usize, text::trim(head[i]));
                assert(before.contains(e));
                let k = choose|k: int| 0 <= k < before.len() && before[k] == e;
                assert(n[k] == e);
            } else {
                assert(n[before.len() as int] == ((i + 1) as usize, text::trim(lines[i])));
            }
        }
    }
}

/// The line that is reported is the first that names no account.
pub proof fn law_the_first_bad_line_is_reported(lines: Seq<CheckedLine>)
    ensures
        first_refused(lines) <= lines.len(),
        forall|k: int| 0 <= k < first_refused(lines) ==> (#[trigger] lines[k]).answer is Ok,
        first_refused(lines) < lines.len() ==> lines[first_refused(lines) as int].answer is Err,
    decreases lines.len(),
{
    if lines.len() > 0 && lines[0].answer is Ok {
        let rest = lines.skip(1);
        law_the_first_bad_line_is_reported(rest);
        assert forall|k: int| 0 <= k < first_refused(lines) implies (
        #[trigger] lines[k]).answer is Ok by {
            if k > 0 {
                assert(rest[k - 1] == lines[k]);
            }
        }
    }
}

/// The destinations are the accounts the lines name, one for each, in their order.
pub proof fn law_destinations_are_as_written(lines: Seq<CheckedLine>, i: int)
    requires
        0 <= i < lines.len(),
        lines[i].answer is Ok,
    ensures
        named_accounts(lines).len() == lines.len(),
        lines[i].answer matches Ok(a) && named_accounts(lines)[i] == a@,
{
}

/// The amount is what the fields of the chosen kind say; the others are not read.
pub proof fn law_only_the_chosen_fields_are_read(
    fixed: Seq<char>,
    min: Seq<char>,
    max: Seq<char>,
)
    ensures
        amount_read(false, fixed, min, max) is Some <==> xus::parsed(fixed) is Some,
        xus::parsed(fixed) matches Some(v) ==> amount_read(false, fixed, min, max) == Some(
            AmountMode::Fixed(v),
        ),
        amount_read(true, fixed, min, max) is Some <==> xus::parsed(min) is Some && xus::parsed(
            max,
        ) is Some,
        amount_read(true, fixed, min, max) matches Some(m) ==> m == (AmountMode::Range {
            min: xus::parsed(min)->Some_0,
            max: xus::parsed(max)->Some_0,
        }),
{
}

/// A count reads as the number its digits write, where that fits, with or without one plus
/// sign; a text that reads as a count is such digits.
pub proof fn law_a_count_is_its_digits(d: Seq<char>, s: Seq<char>)
    requires
        d.len() > 0,
        xus::all_digits(d),
    ensures
        count_read(d) == if xus::number(d) <= u32::MAX {
            Some(xus::number(d) as u32)
        } else {
            None
        },
        count_read(seq!['+'] + d) == count_read(d),
        count_read(s) is Some ==> {
            let t = text::trim(s);
            &&& t.len() > 0
            &&& '0' <= t.last() <= '9'
            &&& '0' <= t[0] <= '9' || t[0] == '+'
            &&& forall|i: int| 1 <= i < t.len() ==> '0' <= #[trigger] t[i] <= '9'
        },
{
    assert('0' <= d[0] <= '9' && '0' <= d[d.len() - 1] <= '9');
    assert(text::trim(d) == d);
    let p = seq!['+'] + d;
    assert(p[0] == '+' && p.last() == d.last());
    assert(text::trim(p) == p);
    assert(p.skip(1) =~= d);
    if count_read(s) is Some {
        let t = text::trim(s);
        if t[0] == '+' {
            let rest = t.skip(1);
            assert forall|i: int| 1 <= i < t.len() implies '0' <= #[trigger] t[i] <= '9' by {
                assert(rest[i - 1] == t[i]);
            }
        }
    }
}

/// A run has one worker for each wallet that is set to fire, and no other: every such wallet
/// has one, in the roster's order, under its own label, account and scheme.
pub proof fn law_one_worker_per_selected_wallet(
    workers: Seq<WorkerPlan>,
    w: Seq<keystore::WalletView>,
    k: int,
    i: int,
)
    requires
        staffs(workers, w),
        w.len() <= usize::MAX,
    ensures
        0 <= k < workers.len() ==> {
            let at = workers[k].wallet as int;
            &&& 0 <= at < w.len()
            &&& w[at].fire
            &&& workers[k].label@ == w[at].label
            &&& workers[k].from@ == w[at].account
            &&& workers[k].scheme == w[at].scheme
        },
        0 <= i < w.len() && w[i].fire ==> exists|j: int|
            0 <= j < workers.len() && (#[trigger] workers[j]).wallet == i,
        0 <= k < i < workers.len() ==> workers[k].wallet < workers[i].wallet,
{
    let chosen = keystore::chosen(w, w.len() as int);
    keystore::law_the_chosen_are_those_that_fire(w, w.len() as int);
    if 0 <= k < workers.len() {
        assert(workers[k].wallet == chosen[k]);
    }
    if 0 <= i < workers.len() {
        assert(workers[i].wallet == chosen[i]);
    }
    if 0 <= i < w.len() && w[i].fire {
        assert(chosen.contains(i as usize));
        let j = choose|j: int| 0 <= j < chosen.len() && chosen[j] == i as usize;
        assert(workers[j].wallet == chosen[j]);
    }
}

/// A refusal names the line, what it says, and why it names no account.
pub proof fn law_a_refusal_names_the_line(l: CheckedLine)
    ensures
        l.answer matches Err(why) ==> refusal(l) == "line "@ + text::decimal(l.line as nat)
            + ": '"@ + l.said@ + "' is not a valid account: "@ + why@,
{
}

/// The mode is summed up with its own parameter, as it was typed, and with no other.
pub proof fn law_a_mode_is_told_with_its_parameter(rate: Seq<char>, tps: Seq<char>)
    ensures
        mode_text(ModeChoice::PerBlock, rate, tps) == "per block × "@ + text::trim(rate),
        mode_text(ModeChoice::TargetTps, rate, tps) == "paced "@ + text::trim(tps) + " TX/s"@,
        mode_text(ModeChoice::Firehose, rate, tps) == "firehose"@,
{
}

/// White space around a count changes nothing.
pub proof fn law_white_space_around_a_count_is_ignored(s: Seq<char>)
    ensures
        count_read(s) == count_read(text::trim(s)),
{
    text::law_trimming_again_takes_nothing(s);
}

} // verus!
