//! A weighted mix of action kinds: traffic that is not all plain transfers.
//!
//! Block space is consumed by a population of action types with very different
//! sizes and costs. A run draws its action from a weighted mix; each kind is
//! self-contained, buildable from a funded account with no prior on-chain state,
//! and leaves nothing locked.

use crate::chain::AccountId;
use crate::chain::Action;
use crate::chain::ActionView;
use crate::text;
use crate::text::chars_of;
use crate::text::owned;
use crate::text::push_decimal;
use vstd::prelude::*;

verus! {

/// The action kinds a traffic run can draw from, ordered by footprint.
#[derive(Clone, Copy, Debug, PartialEq, Eq, PartialOrd, Ord, Structural)]
pub enum ActionKind {
    /// A plain transparent payment, the smallest useful transaction.
    Transfer,
    /// Issue units of an asset the signer owns; re-issuing the same symbol mints
    /// more of the same asset, so it is safely repeatable.
    TokenIssue,
    /// Mint an NFT with a metadata blob whose size the operator can dial.
    NftMint,
    /// Claim a name. This costs a real one-time registration fee on top of gas, so
    /// it is never in a default mix.
    RegisterName,
}

impl ActionKind {
    /// Every kind, for enumeration.
    pub fn all() -> (r: [ActionKind; 4])
        ensures
            r@ == seq![
                ActionKind::Transfer,
                ActionKind::TokenIssue,
                ActionKind::NftMint,
                ActionKind::RegisterName,
            ],
    {
        let r = [
            ActionKind::Transfer,
            ActionKind::TokenIssue,
            ActionKind::NftMint,
            ActionKind::RegisterName,
        ];
        assert(r@ =~= seq![
            ActionKind::Transfer,
            ActionKind::TokenIssue,
            ActionKind::NftMint,
            ActionKind::RegisterName,
        ]);
        r
    }

    /// A short label for the per-kind cost table.
    pub open spec fn spec_label(self) -> Seq<char> {
        match self {
            ActionKind::Transfer => "Transfer"@,
            ActionKind::TokenIssue => "TokenIssue"@,
            ActionKind::NftMint => "NftMint"@,
            ActionKind::RegisterName => "RegisterName"@,
        }
    }

    /// A short label for the per-kind cost table.
    pub fn label(self) -> (s: &'static str)
        ensures
            s@ == self.spec_label(),
    {
        match self {
            ActionKind::Transfer => "Transfer",
            ActionKind::TokenIssue => "TokenIssue",
            ActionKind::NftMint => "NftMint",
            ActionKind::RegisterName => "RegisterName",
        }
    }

    /// Whether this kind spends XUS beyond the intrinsic gas fee.
    pub fn has_extra_xus_cost(self) -> (b: bool)
        ensures
            b == (self == ActionKind::RegisterName),
    {
        self == ActionKind::RegisterName
    }
}

/// Two kinds have the same label only if they are the same kind.
pub proof fn law_labels_are_distinct(a: ActionKind, b: ActionKind)
    requires
        a.spec_label() == b.spec_label(),
    ensures
        a == b,
{
    reveal_strlit("Transfer");
    reveal_strlit("TokenIssue");
    reveal_strlit("NftMint");
    reveal_strlit("RegisterName");
    assert("Transfer"@.len() == 8 && "TokenIssue"@.len() == 10);
    assert("NftMint"@.len() == 7 && "RegisterName"@.len() == 12);
}

/// Some kind is listed again at this index.
pub open spec fn repeats_at(ws: Seq<(ActionKind, u64)>, i: int) -> bool {
    exists|j: int| 0 <= j < i && (#[trigger] ws[j]).0 == ws[i].0
}

/// No kind is listed twice.
pub open spec fn kinds_distinct(ws: Seq<(ActionKind, u64)>) -> bool {
    forall|i: int| 0 <= i < ws.len() ==> !#[trigger] repeats_at(ws, i)
}

/// The entries that can be drawn.
pub open spec fn drawable(ws: Seq<(ActionKind, u64)>) -> Seq<(ActionKind, u64)> {
    ws.filter(|p: (ActionKind, u64)| p.1 != 0)
}

/// The sum of the weights, stopping at the largest value.
pub open spec fn total_of(ws: Seq<(ActionKind, u64)>) -> u64
    decreases ws.len(),
{
    if ws.len() == 0 {
        0
    } else {
        let t = total_of(ws.drop_last()) + ws.last().1;
        if t > u64::MAX {
            u64::MAX
        } else {
            t as u64
        }
    }
}

/// A point on the weight line selects the kind whose stretch it falls in: kind `i`
/// owns the stretch from the sum of the weights before it to that sum with its own.
pub open spec fn selects(ws: Seq<(ActionKind, u64)>, point: int, kind: ActionKind) -> bool {
    exists|i: int|
        #![trigger ws[i]]
        0 <= i < ws.len() && ws[i].0 == kind && total_of(ws.take(i)) <= point < total_of(
            ws.take(i + 1),
        )
}

/// A weighted distribution over [`ActionKind`].
///
/// Weights are relative and need not sum to anything in particular; a kind with
/// weight zero is never drawn. Construction refuses a mix that could never produce
/// an action.
#[derive(Clone, Debug)]
pub struct ActionMix {
    weights: Vec<(ActionKind, u64)>,
    total: u64,
}

/// Why a list of weights is refused.
pub open spec fn mix_complaint(ws: Seq<(ActionKind, u64)>, e: Seq<char>) -> bool {
    if ws.len() == 0 {
        e == "choose at least one action kind"@
    } else if !kinds_distinct(ws) {
        exists|i: int|
            #![trigger ws[i]]
            0 <= i < ws.len() && repeats_at(ws, i) && (forall|k: int|
                0 <= k < i ==> !#[trigger] repeats_at(ws, k)) && e == "action kind "@
                + ws[i].0.spec_label() + " listed twice"@
    } else {
        e == "at least one action kind needs a weight above zero"@
    }
}

impl ActionMix {
    /// The kinds that can be drawn, with their weights, in the order given.
    pub closed spec fn view(&self) -> Seq<(ActionKind, u64)> {
        self.weights@
    }

    /// Something can be drawn, and the total is right.
    pub closed spec fn wf(&self) -> bool {
        &&& self.total == total_of(self@)
        &&& self.total > 0
        &&& forall|i: int| 0 <= i < self@.len() ==> (#[trigger] self@[i]).1 > 0
    }

    /// Build a mix from `(kind, weight)` pairs.
    ///
    /// Refused if the list is empty, if a kind appears twice, or if every weight is
    /// zero.
    pub fn new(weights: &[(ActionKind, u64)]) -> (r: Result<Self, String>)
        ensures
            r is Ok <==> weights@.len() > 0 && kinds_distinct(weights@) && total_of(
                drawable(weights@),
            ) > 0,
            match r {
                Ok(m) => m.wf() && m@ == drawable(weights@),
                Err(e) => mix_complaint(weights@, e@),
            },
    {
        if weights.len() == 0 {
            return Err(owned("choose at least one action kind"));
        }
        let mut i: usize = 0;
        while i < weights.len()
            invariant
                i <= weights@.len(),
                weights@.len() > 0,
                forall|k: int| 0 <= k < i ==> !#[trigger] repeats_at(weights@, k),
            decreases weights@.len() - i,
        {
            let mut j: usize = 0;
            while j < i
                invariant
                    j <= i < weights@.len(),
                    weights@.len() > 0,
                    forall|k: int| 0 <= k < i ==> !#[trigger] repeats_at(weights@, k),
                    forall|k: int| 0 <= k < j ==> (#[trigger] weights@[k]).0 != weights@[i as int].0,
                decreases i - j,
            {
                if weights[j].0 == weights[i].0 {
                    let mut e = owned("action kind ");
                    e.append(weights[i].0.label());
                    e.append(" listed twice");
                    proof {
                        assert(weights@[j as int].0 == weights@[i as int].0);
                        assert(repeats_at(weights@, i as int));
                        assert(!kinds_distinct(weights@));
                    }
                    return Err(e);
                }
                j = j + 1;
            }
            assert(!repeats_at(weights@, i as int));
            i = i + 1;
        }
        assert(kinds_distinct(weights@));
        let ghost f = |p: (ActionKind, u64)| p.1 != 0;
        let mut kept: Vec<(ActionKind, u64)> = Vec::new();
        let mut total: u64 = 0;
        let mut n: usize = 0;
        proof {
            reveal(Seq::filter);
            assert(weights@.take(0).filter(f) =~= Seq::<(ActionKind, u64)>::empty());
        }
        while n < weights.len()
            invariant
                n <= weights@.len(),
                f == (|p: (ActionKind, u64)| p.1 != 0),
                kept@ == weights@.take(n as int).filter(f),
                total == total_of(kept@),
                forall|k: int| 0 <= k < kept@.len() ==> (#[trigger] kept@[k]).1 > 0,
                kept@.len() > 0 ==> total > 0,
            decreases weights@.len() - n,
        {
            let ghost before = kept@;
            proof {
                reveal(Seq::filter);
                assert(weights@.take(n + 1).drop_last() =~= weights@.take(n as int));
                assert(weights@.take(n + 1).last() == weights@[n as int]);
            }
            if weights[n].1 != 0 {
                total = total.saturating_add(weights[n].1);
                kept.push(weights[n]);
                assert(kept@.drop_last() =~= before);
            }
            n = n + 1;
        }
        assert(weights@.take(n as int) =~= weights@);
        assert(kept@ == drawable(weights@));
        if total == 0 {
            return Err(owned("at least one action kind needs a weight above zero"));
        }
        Ok(Self { weights: kept, total })
    }

    /// The sum of the non-zero weights, the draw's modulus.
    pub fn total_weight(&self) -> (t: u64)
        requires
            self.wf(),
        ensures
            t == total_of(self@),
            t > 0,
    {
        self.total
    }

    /// The kind selected by a uniform draw, reduced modulo the total weight. Any
    /// draw is valid.
    pub fn pick(&self, draw: u128) -> (k: ActionKind)
        requires
            self.wf(),
        ensures
            selects(self@, draw as int % total_of(self@) as int, k),
    {
        let point: u64 = (draw % (self.total as u128)) as u64;
        let mut acc: u64 = 0;
        let mut i: usize = 0;
        assert(self@.take(0) =~= Seq::<(ActionKind, u64)>::empty());
        while i < self.weights.len()
            invariant
                i <= self@.len(),
                self.wf(),
                acc == total_of(self@.take(i as int)),
                acc <= point,
                point == draw as int % total_of(self@) as int,
            decreases self@.len() - i,
        {
            proof {
                assert(self@.take(i + 1).drop_last() =~= self@.take(i as int));
                assert(self@.take(i + 1).last() == self@[i as int]);
            }
            acc = acc.saturating_add(self.weights[i].1);
            if point < acc {
                return self.weights[i].0;
            }
            i = i + 1;
        }
        assert(self@.take(i as int) =~= self@);
        assert(false);
        ActionKind::Transfer
    }

    /// The kinds in the mix that carry an extra irreversible XUS cost.
    pub fn costly_kinds(&self) -> (r: Vec<ActionKind>)
        requires
            self.wf(),
        ensures
            r@ == self@.map_values(|p: (ActionKind, u64)| p.0).filter(
                |k: ActionKind| k == ActionKind::RegisterName,
            ),
    {
        let ghost kinds = self@.map_values(|p: (ActionKind, u64)| p.0);
        let ghost f = |k: ActionKind| k == ActionKind::RegisterName;
        let mut r: Vec<ActionKind> = Vec::new();
        let mut i: usize = 0;
        proof {
            reveal(Seq::filter);
            assert(kinds.take(0).filter(f) =~= Seq::<ActionKind>::empty());
        }
        while i < self.weights.len()
            invariant
                i <= self@.len(),
                kinds == self@.map_values(|p: (ActionKind, u64)| p.0),
                f == (|k: ActionKind| k == ActionKind::RegisterName),
                r@ == kinds.take(i as int).filter(f),
            decreases self@.len() - i,
        {
            proof {
                reveal(Seq::filter);
                assert(kinds.take(i + 1).drop_last() =~= kinds.take(i as int));
                assert(kinds.take(i + 1).last() == self@[i as int].0);
            }
            if self.weights[i].0.has_extra_xus_cost() {
                r.push(self.weights[i].0);
            }
            i = i + 1;
        }
        assert(kinds.take(i as int) =~= kinds);
        r
    }
}

/// The weight line never goes down.
proof fn lemma_total_monotonic(ws: Seq<(ActionKind, u64)>, i: int, j: int)
    requires
        0 <= i <= j <= ws.len(),
    ensures
        total_of(ws.take(i)) <= total_of(ws.take(j)),
    decreases j - i,
{
    if i < j {
        lemma_total_monotonic(ws, i, j - 1);
        assert(ws.take(j).drop_last() =~= ws.take(j - 1));
    }
}

/// Every point below the total selects exactly one kind.
pub proof fn law_a_point_selects_one_kind(
    ws: Seq<(ActionKind, u64)>,
    point: int,
    a: ActionKind,
    b: ActionKind,
)
    requires
        selects(ws, point, a),
        selects(ws, point, b),
    ensures
        a == b,
{
    let i = choose|i: int|
        #![trigger ws[i]]
        0 <= i < ws.len() && ws[i].0 == a && total_of(ws.take(i)) <= point < total_of(
            ws.take(i + 1),
        );
    let j = choose|j: int|
        #![trigger ws[j]]
        0 <= j < ws.len() && ws[j].0 == b && total_of(ws.take(j)) <= point < total_of(
            ws.take(j + 1),
        );
    if i < j {
        lemma_total_monotonic(ws, i + 1, j);
    } else if j < i {
        lemma_total_monotonic(ws, j + 1, i);
    }
}

/// What the weights add up to, however much that is.
pub open spec fn weight_of(ws: Seq<(ActionKind, u64)>) -> nat
    decreases ws.len(),
{
    if ws.len() == 0 {
        0
    } else {
        weight_of(ws.drop_last()) + ws.last().1 as nat
    }
}

/// Below saturation the total of a part is the sum of its weights.
proof fn lemma_total_is_the_weight(ws: Seq<(ActionKind, u64)>, i: int)
    requires
        0 <= i <= ws.len(),
        weight_of(ws) <= u64::MAX,
    ensures
        total_of(ws.take(i)) == weight_of(ws.take(i)),
        weight_of(ws.take(i)) <= weight_of(ws),
    decreases ws.len(), i,
{
    if i < ws.len() {
        assert(ws.drop_last().take(i) =~= ws.take(i));
        lemma_total_is_the_weight(ws.drop_last(), i);
    } else if i > 0 {
        assert(ws.take(i) =~= ws);
        assert(ws.drop_last().take(i - 1) =~= ws.drop_last());
        lemma_total_is_the_weight(ws.drop_last(), i - 1);
    } else {
        assert(ws.take(i) =~= ws);
    }
}

/// What can be drawn of distinct kinds lists each kind once.
proof fn lemma_drawable_kinds(ws: Seq<(ActionKind, u64)>, i: int, j: int)
    requires
        kinds_distinct(ws),
        0 <= i < j < drawable(ws).len(),
    ensures
        drawable(ws)[i].0 != drawable(ws)[j].0,
    decreases ws.len(),
{
    reveal(Seq::filter);
    let f = |p: (ActionKind, u64)| p.1 != 0;
    let d = drawable(ws);
    let head = ws.drop_last();
    assert(kinds_distinct(head)) by {
        assert forall|k: int| 0 <= k < head.len() implies !#[trigger] repeats_at(head, k) by {
            assert(!repeats_at(ws, k));
            if repeats_at(head, k) {
                let m = choose|m: int| 0 <= m < k && (#[trigger] head[m]).0 == head[k].0;
                assert(ws[m].0 == ws[k].0);
            }
        }
    }
    let rest = drawable(head);
    if j < rest.len() {
        lemma_drawable_kinds(head, i, j);
    } else {
        assert(d[j] == ws.last());
        assert(rest[i] == d[i]);
        assert(rest.contains(rest[i]));
        head.lemma_filter_contains_rev(f, rest[i]);
        let m = choose|m: int| 0 <= m < head.len() && head[m] == rest[i];
        assert(!repeats_at(ws, ws.len() - 1));
        assert(ws[m].0 != ws[ws.len() - 1].0);
    }
}

/// Draws land in each kind in proportion to its weight: as long as the sum of the weights
/// can be counted, a mix's total is that sum, and the stretch of points that selects a kind
/// is exactly as long as its weight.
pub proof fn law_draws_are_in_proportion(ws: Seq<(ActionKind, u64)>, i: int, point: int)
    requires
        kinds_distinct(ws),
        0 <= i < drawable(ws).len(),
        weight_of(drawable(ws)) <= u64::MAX,
    ensures
        ({
            let d = drawable(ws);
            &&& total_of(d) == weight_of(d)
            &&& total_of(d.take(i + 1)) - total_of(d.take(i)) == d[i].1
            &&& selects(d, point, d[i].0) <==> total_of(d.take(i)) <= point < total_of(
                d.take(i + 1),
            )
        }),
{
    let d = drawable(ws);
    lemma_total_is_the_weight(d, i);
    lemma_total_is_the_weight(d, i + 1);
    lemma_total_is_the_weight(d, d.len() as int);
    assert(d.take(d.len() as int) =~= d);
    assert(d.take(i + 1).drop_last() =~= d.take(i));
    assert(d.take(i + 1).last() == d[i]);
    if selects(d, point, d[i].0) {
        let j = choose|j: int|
            #![trigger d[j]]
            0 <= j < d.len() && d[j].0 == d[i].0 && total_of(d.take(j)) <= point < total_of(
                d.take(j + 1),
            );
        if j < i {
            lemma_drawable_kinds(ws, j, i);
        } else if i < j {
            lemma_drawable_kinds(ws, i, j);
        }
    }
}

/// A kind listed with weight zero is never drawn.
pub proof fn law_zero_weight_is_never_drawn(
    ws: Seq<(ActionKind, u64)>,
    i: int,
    point: int,
)
    requires
        kinds_distinct(ws),
        0 <= i < ws.len(),
        ws[i].1 == 0,
    ensures
        !selects(drawable(ws), point, ws[i].0),
{
    let d = drawable(ws);
    let f = |p: (ActionKind, u64)| p.1 != 0;
    if selects(d, point, ws[i].0) {
        let j = choose|j: int|
            #![trigger d[j]]
            0 <= j < d.len() && d[j].0 == ws[i].0 && total_of(d.take(j)) <= point < total_of(
                d.take(j + 1),
            );
        ws.lemma_filter_pred(f, j);
        assert(d.contains(d[j]));
        ws.lemma_filter_contains_rev(f, d[j]);
        let k = choose|k: int| 0 <= k < ws.len() && ws[k] == d[j];
        if k < i {
            assert(repeats_at(ws, i));
        } else if i < k {
            assert(repeats_at(ws, k));
        }
        assert(f(d[j]));
        assert(k == i);
    }
}

/// The per-draw inputs an action needs beyond its kind.
///
/// `unique` keeps repeatable kinds from colliding: it becomes the NFT's token id and
/// the registered name's discriminator.
#[derive(Clone, Debug)]
pub struct ActionParams {
    /// Recipient for the kinds that have one.
    pub to: AccountId,
    /// Value in grains for the kinds that move value.
    pub amount_grains: u128,
    /// Per-draw uniqueness discriminator.
    pub unique: u64,
    /// The asset or collection symbol used by `TokenIssue` and `NftMint`.
    pub symbol: String,
    /// Padding bytes attached to `NftMint` metadata.
    pub metadata_bytes: usize,
}

/// A letter `A` to `Z` or `a` to `z`, or a digit.
pub open spec fn is_alphanumeric(c: char) -> bool {
    'a' <= c <= 'z' || 'A' <= c <= 'Z' || '0' <= c <= '9'
}

/// The chain's symbol rule: 1 to 16 bytes, all ASCII letters and digits.
pub open spec fn symbol_ok(symbol: &str) -> bool {
    &&& 0 < symbol@.len()
    &&& symbol.len() <= 16
    &&& forall|i: int| 0 <= i < symbol@.len() ==> is_alphanumeric(#[trigger] symbol@[i])
}

/// Why a symbol is refused.
pub open spec fn symbol_complaint(symbol: &str) -> Seq<char> {
    if symbol@.len() == 0 || symbol.len() > 16 {
        "symbol must be 1–16 characters"@
    } else {
        "symbol must be ASCII letters and digits only"@
    }
}

/// Check the chain's symbol rule, so an unusable mix is refused before the run
/// starts.
pub fn validate_symbol(symbol: &str) -> (r: Result<(), String>)
    ensures
        r is Ok <==> symbol_ok(symbol),
        r matches Err(e) ==> e@ == symbol_complaint(symbol),
{
    if symbol.is_empty() || symbol.len() > 16 {
        return Err(owned("symbol must be 1–16 characters"));
    }
    let v = chars_of(symbol);
    let mut i: usize = 0;
    while i < v.len()
        invariant
            i <= v@.len(),
            v@ == symbol@,
            0 < symbol@.len(),
            symbol.len() <= 16,
            forall|k: int| 0 <= k < i ==> is_alphanumeric(#[trigger] symbol@[k]),
        decreases v@.len() - i,
    {
        let c = v[i];
        let ok: bool = ('a' <= c && c <= 'z') || ('A' <= c && c <= 'Z') || ('0' <= c && c <= '9');
        if !ok {
            assert(!is_alphanumeric(symbol@[i as int]));
            return Err(owned("symbol must be ASCII letters and digits only"));
        }
        i = i + 1;
    }
    Ok(())
}

/// The largest metadata padding a single draw may request: a client-side sanity
/// bound, deliberately well under any consensus limit.
pub const MAX_METADATA_BYTES: usize = 65_536;

/// A prefix of lowercase ASCII letters.
pub open spec fn prefix_ok(prefix: Seq<char>) -> bool {
    0 < prefix.len() && forall|i: int| 0 <= i < prefix.len() ==> 'a' <= #[trigger] prefix[i] <= 'z'
}

/// The name a draw would claim.
pub open spec fn name_text(prefix: Seq<char>, unique: u64) -> Seq<char> {
    prefix + text::decimal(unique as nat) + ".sov"@
}

/// The name a `RegisterName` draw would claim, for the chain's own rules to judge.
pub fn name_candidate(prefix: &str, unique: u64) -> (r: Result<String, String>)
    ensures
        r is Ok <==> prefix_ok(prefix@),
        match r {
            Ok(n) => n@ == name_text(prefix@, unique),
            Err(e) => e@ == "name prefix must be lowercase ASCII letters"@,
        },
{
    let v = chars_of(prefix);
    if v.len() == 0 {
        return Err(owned("name prefix must be lowercase ASCII letters"));
    }
    let mut i: usize = 0;
    while i < v.len()
        invariant
            i <= v@.len(),
            v@ == prefix@,
            forall|k: int| 0 <= k < i ==> 'a' <= #[trigger] prefix@[k] <= 'z',
        decreases v@.len() - i,
    {
        let c = v[i];
        if !('a' <= c && c <= 'z') {
            assert(!('a' <= prefix@[i as int] <= 'z'));
            return Err(owned("name prefix must be lowercase ASCII letters"));
        }
        i = i + 1;
    }
    let mut name = owned(prefix);
    push_decimal(&mut name, unique as u128);
    name.append(".sov");
    Ok(name)
}

/// What the chain says of a name.
#[derive(Clone, Debug, PartialEq, Eq)]
pub enum NameRuling {
    /// It is not an id at all, with the chain's reason.
    Invalid(String),
    /// It is an id, but not one that can be registered.
    NotRegistrable,
    /// It can be registered.
    Registrable,
}

/// Build the name a `RegisterName` draw will claim, given the chain's ruling on
/// [`name_candidate`]. A name the chain would not accept is an error here, before it
/// costs a fee on chain.
pub fn cannon_name(prefix: &str, unique: u64, ruling: &NameRuling) -> (r: Result<String, String>)
    ensures
        r is Ok <==> prefix_ok(prefix@) && ruling is Registrable,
        match r {
            Ok(n) => n@ == name_text(prefix@, unique),
            Err(e) => e@ == name_complaint(prefix@, unique, *ruling),
        },
{
    let name = match name_candidate(prefix, unique) {
        Ok(n) => n,
        Err(e) => {
            return Err(e);
        },
    };
    match ruling {
        NameRuling::Invalid(why) => {
            let mut e = owned("generated name `");
            e.append(name.as_str());
            e.append("` is not a valid id: ");
            e.append(why.as_str());
            Err(e)
        },
        NameRuling::NotRegistrable => {
            let mut e = owned("generated name `");
            e.append(name.as_str());
            e.append("` is not registrable");
            Err(e)
        },
        NameRuling::Registrable => Ok(name),
    }
}

/// Why a name is refused.
pub open spec fn name_complaint(prefix: Seq<char>, unique: u64, ruling: NameRuling) -> Seq<char> {
    if !prefix_ok(prefix) {
        "name prefix must be lowercase ASCII letters"@
    } else {
        match ruling {
            NameRuling::Invalid(why) => "generated name `"@ + name_text(prefix, unique)
                + "` is not a valid id: "@ + why@,
            _ => "generated name `"@ + name_text(prefix, unique) + "` is not registrable"@,
        }
    }
}

/// A number as eight bytes, most significant first.
pub open spec fn big_endian(n: u64) -> Seq<u8> {
    seq![
        (n >> 56u64) as u8,
        (n >> 48u64) as u8,
        (n >> 40u64) as u8,
        (n >> 32u64) as u8,
        (n >> 24u64) as u8,
        (n >> 16u64) as u8,
        (n >> 8u64) as u8,
        (n >> 0u64) as u8,
    ]
}

fn big_endian_bytes(n: u64) -> (v: Vec<u8>)
    ensures
        v@ == big_endian(n),
{
    let mut v: Vec<u8> = Vec::new();
    v.push(#[verifier::truncate] ((n >> 56u64) as u8));
    v.push(#[verifier::truncate] ((n >> 48u64) as u8));
    v.push(#[verifier::truncate] ((n >> 40u64) as u8));
    v.push(#[verifier::truncate] ((n >> 32u64) as u8));
    v.push(#[verifier::truncate] ((n >> 24u64) as u8));
    v.push(#[verifier::truncate] ((n >> 16u64) as u8));
    v.push(#[verifier::truncate] ((n >> 8u64) as u8));
    v.push(#[verifier::truncate] ((n >> 0u64) as u8));
    assert(v@ =~= big_endian(n));
    v
}

/// Distinct draws mint distinct token ids.
pub proof fn law_token_ids_are_distinct(a: u64, b: u64)
    requires
        big_endian(a) == big_endian(b),
    ensures
        a == b,
{
    let x = big_endian(a);
    let y = big_endian(b);
    assert(x[0] == y[0] && x[1] == y[1] && x[2] == y[2] && x[3] == y[3]);
    assert(x[4] == y[4] && x[5] == y[5] && x[6] == y[6] && x[7] == y[7]);
    assert(a == b) by (bit_vector)
        requires
            (a >> 56u64) as u8 == (b >> 56u64) as u8,
            (a >> 48u64) as u8 == (b >> 48u64) as u8,
            (a >> 40u64) as u8 == (b >> 40u64) as u8,
            (a >> 32u64) as u8 == (b >> 32u64) as u8,
            (a >> 24u64) as u8 == (b >> 24u64) as u8,
            (a >> 16u64) as u8 == (b >> 16u64) as u8,
            (a >> 8u64) as u8 == (b >> 8u64) as u8,
            (a >> 0u64) as u8 == (b >> 0u64) as u8,
    ;
}

fn padding(n: usize) -> (v: Vec<u8>)
    ensures
        v@ == Seq::new(n as nat, |i: int| 0x78u8),
{
    let mut v: Vec<u8> = Vec::new();
    let mut i: usize = 0;
    while i < n
        invariant
            i <= n,
            v@ == Seq::new(i as nat, |k: int| 0x78u8),
        decreases n - i,
    {
        v.push(0x78);
        i = i + 1;
        assert(v@ =~= Seq::new(i as nat, |k: int| 0x78u8));
    }
    v
}

/// The inputs a kind needs are usable.
pub open spec fn buildable(
    kind: ActionKind,
    params: ActionParams,
    prefix: Seq<char>,
    ruling: NameRuling,
) -> bool {
    match kind {
        ActionKind::Transfer => true,
        ActionKind::TokenIssue => symbol_fits(params.symbol),
        ActionKind::NftMint => symbol_fits(params.symbol) && params.metadata_bytes
            <= MAX_METADATA_BYTES,
        ActionKind::RegisterName => prefix_ok(prefix) && ruling is Registrable,
    }
}

/// The symbol rule on an owned symbol.
pub open spec fn symbol_fits(symbol: String) -> bool {
    &&& 0 < symbol@.len()
    &&& vstd::utf8::encode_utf8(symbol@).len() as usize <= 16
    &&& forall|i: int| 0 <= i < symbol@.len() ==> is_alphanumeric(#[trigger] symbol@[i])
}

/// The action one draw builds.
pub open spec fn built_action(
    kind: ActionKind,
    params: ActionParams,
    prefix: Seq<char>,
) -> ActionView {
    match kind {
        ActionKind::Transfer => ActionView::Transfer {
            to: params.to@,
            amount_grains: params.amount_grains,
        },
        ActionKind::TokenIssue => ActionView::TokenIssue {
            symbol: params.symbol@,
            amount_grains: params.amount_grains,
            to: params.to@,
        },
        ActionKind::NftMint => ActionView::NftMint {
            symbol: params.symbol@,
            token_id: big_endian(params.unique),
            to: params.to@,
            metadata: Seq::new(params.metadata_bytes as nat, |i: int| 0x78u8),
        },
        ActionKind::RegisterName => ActionView::RegisterName {
            name: name_text(prefix, params.unique),
        },
    }
}

/// Why an action could not be built.
pub open spec fn build_complaint(
    kind: ActionKind,
    params: ActionParams,
    prefix: Seq<char>,
    ruling: NameRuling,
) -> Seq<char> {
    match kind {
        ActionKind::RegisterName => name_complaint(prefix, params.unique, ruling),
        _ => if params.symbol@.len() == 0 || vstd::utf8::encode_utf8(params.symbol@).len() as usize
            > 16 {
            "symbol must be 1–16 characters"@
        } else if !symbol_fits(params.symbol) {
            "symbol must be ASCII letters and digits only"@
        } else {
            "metadata padding must be at most 65536 bytes"@
        },
    }
}

/// Build the concrete [`Action`] for one draw. Nothing here signs.
pub fn build_action(
    kind: ActionKind,
    params: &ActionParams,
    name_prefix: &str,
    ruling: &NameRuling,
) -> (r: Result<Action, String>)
    ensures
        r is Ok <==> buildable(kind, *params, name_prefix@, *ruling),
        match r {
            Ok(a) => a@ == built_action(kind, *params, name_prefix@),
            Err(e) => e@ == build_complaint(kind, *params, name_prefix@, *ruling),
        },
{
    match kind {
        ActionKind::Transfer => Ok(
            Action::Transfer { to: params.to.clone(), amount_grains: params.amount_grains },
        ),
        ActionKind::TokenIssue => {
            match validate_symbol(params.symbol.as_str()) {
                Ok(()) => {},
                Err(e) => {
                    return Err(e);
                },
            }
            Ok(
                Action::TokenIssue {
                    symbol: owned(params.symbol.as_str()),
                    amount_grains: params.amount_grains,
                    to: params.to.clone(),
                },
            )
        },
        ActionKind::NftMint => {
            match validate_symbol(params.symbol.as_str()) {
                Ok(()) => {},
                Err(e) => {
                    return Err(e);
                },
            }
            if params.metadata_bytes > MAX_METADATA_BYTES {
                return Err(owned("metadata padding must be at most 65536 bytes"));
            }
            Ok(
                Action::NftMint {
                    symbol: owned(params.symbol.as_str()),
                    token_id: big_endian_bytes(params.unique),
                    to: params.to.clone(),
                    metadata: padding(params.metadata_bytes),
                },
            )
        },
        ActionKind::RegisterName => match cannon_name(name_prefix, params.unique, ruling) {
            Ok(name) => Ok(Action::RegisterName { name }),
            Err(e) => Err(e),
        },
    }
}

/// Every point below the total selects a kind.
pub proof fn law_every_point_selects_a_kind(ws: Seq<(ActionKind, u64)>, point: int)
    requires
        0 <= point < total_of(ws),
    ensures
        exists|k: ActionKind| #[trigger] selects(ws, point, k),
    decreases ws.len(),
{
    let rest = ws.drop_last();
    assert(ws.take(ws.len() as int) =~= ws);
    assert(ws.take(ws.len() - 1) =~= rest);
    if point < total_of(rest) {
        law_every_point_selects_a_kind(rest, point);
        let k = choose|k: ActionKind| #[trigger] selects(rest, point, k);
        let i = choose|i: int|
            #![trigger rest[i]]
            0 <= i < rest.len() && rest[i].0 == k && total_of(rest.take(i)) <= point < total_of(
                rest.take(i + 1),
            );
        assert(rest.take(i) =~= ws.take(i));
        assert(rest.take(i + 1) =~= ws.take(i + 1));
        assert(ws[i].0 == k);
        assert(selects(ws, point, k));
    } else {
        let i = ws.len() - 1;
        assert(ws[i].0 == ws.last().0);
        assert(selects(ws, point, ws.last().0));
    }
}

/// The total is the sum of the weights while that can be counted, and the largest count
/// where it cannot.
pub proof fn law_the_total_is_the_sum(ws: Seq<(ActionKind, u64)>)
    ensures
        weight_of(ws) <= u64::MAX ==> total_of(ws) == weight_of(ws),
        weight_of(ws) > u64::MAX ==> total_of(ws) == u64::MAX,
    decreases ws.len(),
{
    if ws.len() > 0 {
        law_the_total_is_the_sum(ws.drop_last());
    }
}

/// What can be drawn is what has weight, in the order it was listed; and a list repeats no
/// kind exactly where any two of its entries are of different kinds.
pub proof fn law_what_has_weight_can_be_drawn(ws: Seq<(ActionKind, u64)>)
    ensures
        drawable(ws) == ws.filter(|p: (ActionKind, u64)| p.1 > 0),
        kinds_distinct(ws) <==> forall|i: int, j: int|
            0 <= i < j < ws.len() ==> (#[trigger] ws[i]).0 != (#[trigger] ws[j]).0,
{
    assert((|p: (ActionKind, u64)| p.1 > 0) =~= (|p: (ActionKind, u64)| p.1 != 0));
    if kinds_distinct(ws) {
        assert forall|i: int, j: int| 0 <= i < j < ws.len() implies (#[trigger] ws[i]).0 != (
        #[trigger] ws[j]).0 by {
            assert(!repeats_at(ws, j));
        }
    }
}

/// A symbol is one to sixteen ASCII letters and digits, and nothing else is.
pub proof fn law_a_symbol_is_short_and_plain(symbol: String)
    requires
        vstd::utf8::encode_utf8(symbol@).len() <= usize::MAX,
    ensures
        symbol_fits(symbol) <==> {
            &&& 1 <= symbol@.len() <= 16
            &&& forall|i: int|
                0 <= i < symbol@.len() ==> '0' <= #[trigger] symbol@[i] <= '9' || 'A' <= symbol@[i]
                    <= 'Z' || 'a' <= symbol@[i] <= 'z'
        },
{
    if forall|i: int|
        0 <= i < symbol@.len() ==> '0' <= #[trigger] symbol@[i] <= '9' || 'A' <= symbol@[i] <= 'Z'
            || 'a' <= symbol@[i] <= 'z' {
        assert(vstd::utf8::is_ascii_chars(symbol@));
        vstd::utf8::is_ascii_chars_encode_utf8(symbol@);
    }
    if symbol_fits(symbol) {
        assert forall|i: int| 0 <= i < symbol@.len() implies '0' <= #[trigger] symbol@[i] <= '9'
            || 'A' <= symbol@[i] <= 'Z' || 'a' <= symbol@[i] <= 'z' by {
            assert(is_alphanumeric(symbol@[i]));
        }
        assert(vstd::utf8::is_ascii_chars(symbol@));
        vstd::utf8::is_ascii_chars_encode_utf8(symbol@);
    }
}

/// A token id is the number in base two hundred and fifty-six, the highest place first.
pub proof fn law_a_token_id_is_its_number(n: u64)
    ensures
        big_endian(n).len() == 8,
        ({
            let b = big_endian(n);
            n == 0x100_0000_0000_0000 * b[0] + 0x1_0000_0000_0000 * b[1] + 0x100_0000_0000 * b[2]
                + 0x1_0000_0000 * b[3] + 0x100_0000 * b[4] + 0x1_0000 * b[5] + 0x100 * b[6] + b[7]
        }),
{
    let b = big_endian(n);
    let (b0, b1, b2, b3) = (b[0], b[1], b[2], b[3]);
    let (b4, b5, b6, b7) = (b[4], b[5], b[6], b[7]);
    assert(n == 0x100_0000_0000_0000 * b0 + 0x1_0000_0000_0000 * b1 + 0x100_0000_0000 * b2
        + 0x1_0000_0000 * b3 + 0x100_0000 * b4 + 0x1_0000 * b5 + 0x100 * b6 + b7) by (bit_vector)
        requires
            b0 == (n >> 56u64) as u8,
            b1 == (n >> 48u64) as u8,
            b2 == (n >> 40u64) as u8,
            b3 == (n >> 32u64) as u8,
            b4 == (n >> 24u64) as u8,
            b5 == (n >> 16u64) as u8,
            b6 == (n >> 8u64) as u8,
            b7 == (n >> 0u64) as u8,
    ;
}

/// A name is the prefix, the draw's number and the suffix; two draws under one prefix claim
/// two names.
pub proof fn law_names_are_distinct(prefix: Seq<char>, a: u64, b: u64)
    ensures
        name_text(prefix, a) == prefix + text::decimal(a as nat) + ".sov"@,
        name_text(prefix, a) == name_text(prefix, b) ==> a == b,
{
    if name_text(prefix, a) == name_text(prefix, b) {
        let (x, y) = (text::decimal(a as nat), text::decimal(b as nat));
        let (s, t) = (name_text(prefix, a), name_text(prefix, b));
        let n = prefix.len() as int;
        assert(s.len() == n + x.len() + ".sov"@.len());
        assert(t.len() == n + y.len() + ".sov"@.len());
        assert(s.subrange(n, n + x.len()) =~= x);
        assert(t.subrange(n, n + y.len()) =~= y);
        crate::xus::lemma_number_of_decimal(a as nat);
        crate::xus::lemma_number_of_decimal(b as nat);
    }
}

/// A prefix is lowercase letters, one at least.
pub proof fn law_a_prefix_is_small_letters(prefix: Seq<char>)
    ensures
        prefix_ok(prefix) <==> prefix.len() >= 1 && !exists|i: int|
            0 <= i < prefix.len() && (#[trigger] prefix[i] < 'a' || prefix[i] > 'z'),
{
}

/// A kind is built where what it needs is usable, and is not held up by what it does not
/// need: a transfer always, an issue by its symbol, a mint by its symbol and its padding, and
/// a name by its prefix and the chain's ruling.
pub proof fn law_a_kind_is_built_from_what_it_needs(
    params: ActionParams,
    prefix: Seq<char>,
    ruling: NameRuling,
)
    ensures
        buildable(ActionKind::Transfer, params, prefix, ruling),
        buildable(ActionKind::TokenIssue, params, prefix, ruling) <==> symbol_fits(params.symbol),
        buildable(ActionKind::NftMint, params, prefix, ruling) <==> symbol_fits(params.symbol)
            && params.metadata_bytes <= 65_536,
        buildable(ActionKind::RegisterName, params, prefix, ruling) <==> prefix_ok(prefix)
            && ruling is Registrable,
{
}

/// What is built is of the kind that was drawn, and says what the draw says: to whom, how
/// much, under which symbol, which token with how much padding, or which name.
pub proof fn law_an_action_says_what_was_drawn(params: ActionParams, prefix: Seq<char>)
    ensures
        built_action(ActionKind::Transfer, params, prefix) matches ActionView::Transfer {
            to,
            amount_grains,
        } && to == params.to@ && amount_grains == params.amount_grains,
        built_action(ActionKind::TokenIssue, params, prefix) matches ActionView::TokenIssue {
            symbol,
            amount_grains,
            to,
        } && symbol == params.symbol@ && amount_grains == params.amount_grains && to == params.to@,
        built_action(ActionKind::NftMint, params, prefix) matches ActionView::NftMint {
            symbol,
            token_id,
            to,
            metadata,
        } && symbol == params.symbol@ && token_id == big_endian(params.unique) && to == params.to@
            && metadata.len() == params.metadata_bytes,
        built_action(ActionKind::RegisterName, params, prefix) matches ActionView::RegisterName {
            name,
        } && name == name_text(prefix, params.unique),
{
}

/// An action that is refused is told the first thing that is wrong with it: a symbol that is
/// empty or too long, one with other characters, too much padding, a prefix that is not small
/// letters, or what the chain said of the name.
pub proof fn law_a_refused_action_is_told_why(
    params: ActionParams,
    prefix: Seq<char>,
    ruling: NameRuling,
)
    requires
        vstd::utf8::encode_utf8(params.symbol@).len() <= usize::MAX,
    ensures
        ({
            let bytes = vstd::utf8::encode_utf8(params.symbol@).len();
            let issue = build_complaint(ActionKind::TokenIssue, params, prefix, ruling);
            let mint = build_complaint(ActionKind::NftMint, params, prefix, ruling);
            let name = build_complaint(ActionKind::RegisterName, params, prefix, ruling);
            let claimed = "generated name `"@ + name_text(prefix, params.unique);
            &&& params.symbol@.len() == 0 || bytes > 16 ==> issue
                == "symbol must be 1–16 characters"@ && mint == issue
            &&& params.symbol@.len() > 0 && bytes <= 16 && !symbol_fits(params.symbol) ==> issue
                == "symbol must be ASCII letters and digits only"@ && mint == issue
            &&& symbol_fits(params.symbol) && params.metadata_bytes > 65_536 ==> mint
                == "metadata padding must be at most 65536 bytes"@
            &&& !prefix_ok(prefix) ==> name == "name prefix must be lowercase ASCII letters"@
            &&& prefix_ok(prefix) && ruling is NotRegistrable ==> name == claimed
                + "` is not registrable"@
            &&& ruling matches NameRuling::Invalid(why) ==> prefix_ok(prefix) ==> name == claimed
                + "` is not a valid id: "@ + why@
        }),
{
}

} // verus!
