//! Prove the defenses hold: a front-door adversarial battery.
//!
//! A fixed set of malformed transactions is fired at a node through its ordinary
//! submit call. Each is rejected for a reason independent of chain state, so
//! nothing lands in the mempool, and the load-bearing verdict is *no residue*: the
//! pool did not grow and every attack drew an explicit rejection.
//!
//! Here the battery is assembled from honestly signed transactions and the node's
//! answers are judged; signing and sending are the caller's.

use crate::chain::Signature;
use crate::chain::SignatureView;
use crate::chain::SignedTransaction;
use crate::chain::SignedView;
use crate::chain::TransactionView;
use crate::json;
use crate::json::Json;
use crate::json::JsonView;
use crate::text;
use crate::text::chars_of;
use crate::text::contains;
use crate::text::owned;
use crate::text::same_text;
use crate::text::slice_chars;
use crate::text::string_of;
use crate::text::trim_chars;
use crate::text::trim_string;
use vstd::prelude::*;

verus! {

/// The exact phrase an operator must type to arm the battery against a mainnet
/// node, with white space around it ignored. A deliberate speed bump, not a secret.
pub const MAINNET_CONFIRM_PHRASE: &'static str = "FIRE ON MAINNET";

/// Whether a chain id names a mainnet network.
pub fn is_mainnet(chain_id: &str) -> (b: bool)
    ensures
        b == text::contains_text(chain_id@, "mainnet"@),
{
    let v = chars_of(chain_id);
    contains(&v, "mainnet")
}

/// The mainnet guard, as one decision: the battery may fire when the target is not
/// mainnet, or when the operator has explicitly confirmed mainnet.
pub fn may_fire(is_mainnet: bool, confirmed: bool) -> (b: bool)
    ensures
        b == (is_mainnet ==> confirmed),
{
    !is_mainnet || confirmed
}

/// Whether a typed confirmation string satisfies the mainnet guard.
pub fn confirmation_ok(typed: &str) -> (b: bool)
    ensures
        b == (text::trim(typed@) == MAINNET_CONFIRM_PHRASE@),
{
    let t = trim_string(typed);
    same_text(t.as_str(), MAINNET_CONFIRM_PHRASE)
}

/// The judgment on one attack.
#[derive(Clone, Copy, Debug, PartialEq, Eq, Structural)]
pub enum Verdict {
    /// The door held: the node rejected the attack before admission.
    Defended,
    /// The node admitted the adversarial transaction: a real finding.
    Vulnerable,
    /// The node could not be reached for this probe; neither a pass nor a fail, but
    /// the battery did not complete.
    Info,
}

/// One attack's result: what it was, and how the node answered.
#[derive(Clone, Debug)]
pub struct AttackOutcome {
    pub category: &'static str,
    pub name: &'static str,
    pub verdict: Verdict,
    pub detail: String,
}

/// Which half of a hybrid signature to corrupt.
#[derive(Clone, Copy, Debug, PartialEq, Eq, Structural)]
pub enum Half {
    Ed25519,
    MlDsa,
}

/// A byte string with its first byte inverted.
pub open spec fn flipped(b: Seq<u8>) -> Seq<u8> {
    b.update(0, b[0] ^ 0xff)
}

/// A signature with one half corrupted. A classical signature has no post-quantum
/// half and is left alone.
pub open spec fn tampered(sig: SignatureView, half: Half) -> SignatureView {
    match sig {
        SignatureView::V2HybridMlDsa65 { ed25519, ml_dsa } => match half {
            Half::Ed25519 => SignatureView::V2HybridMlDsa65 { ed25519: flipped(ed25519), ml_dsa },
            Half::MlDsa => SignatureView::V2HybridMlDsa65 { ed25519, ml_dsa: flipped(ml_dsa) },
        },
        SignatureView::V1Ed25519(b) => SignatureView::V1Ed25519(b),
    }
}

/// A signature whose halves have bytes to corrupt.
pub open spec fn tamperable(sig: SignatureView) -> bool {
    match sig {
        SignatureView::V2HybridMlDsa65 { ml_dsa, .. } => ml_dsa.len() > 0,
        SignatureView::V1Ed25519(_) => true,
    }
}

/// Flip a byte in one half of a hybrid signature. A classical signature is returned
/// unchanged.
pub fn tamper_signature(sig: Signature, half: Half) -> (r: Signature)
    requires
        half == Half::MlDsa ==> tamperable(sig@),
    ensures
        r@ == tampered(sig@, half),
{
    match sig {
        Signature::V2HybridMlDsa65 { ed25519, ml_dsa } => {
            let mut ed = ed25519;
            let mut pq = ml_dsa;
            let ghost ed0 = ed@;
            let ghost pq0 = pq@;
            match half {
                Half::Ed25519 => {
                    ed[0] = ed[0] ^ 0xff;
                    assert(ed@ =~= flipped(ed0));
                },
                Half::MlDsa => {
                    let b: u8 = pq[0] ^ 0xff;
                    pq.set(0, b);
                    assert(pq@ =~= flipped(pq0));
                },
            }
            Signature::V2HybridMlDsa65 { ed25519: ed, ml_dsa: pq }
        },
        other => other,
    }
}

/// The classical half of a signature.
pub open spec fn classical_half(sig: SignatureView) -> Seq<u8> {
    match sig {
        SignatureView::V2HybridMlDsa65 { ed25519, .. } => ed25519,
        SignatureView::V1Ed25519(b) => b,
    }
}

/// Extract the Ed25519 half of a signature, for the downgrade probe.
pub fn ed_half(sig: &Signature) -> (b: [u8; 64])
    ensures
        b@ == classical_half(sig@),
{
    match sig {
        Signature::V2HybridMlDsa65 { ed25519, .. } => *ed25519,
        Signature::V1Ed25519(b) => *b,
    }
}

/// Corrupting a half always changes that half and nothing else, and corrupting it
/// again restores it.
pub proof fn law_tampering_changes_exactly_one_half(ed25519: Seq<u8>, ml_dsa: Seq<u8>)
    requires
        ed25519.len() > 0,
        ml_dsa.len() > 0,
    ensures
        ({
            let sig = SignatureView::V2HybridMlDsa65 { ed25519, ml_dsa };
            &&& tampered(sig, Half::Ed25519) == (SignatureView::V2HybridMlDsa65 {
                ed25519: flipped(ed25519),
                ml_dsa,
            })
            &&& tampered(sig, Half::MlDsa) == (SignatureView::V2HybridMlDsa65 {
                ed25519,
                ml_dsa: flipped(ml_dsa),
            })
            &&& flipped(ed25519) != ed25519
            &&& flipped(ml_dsa) != ml_dsa
            &&& flipped(flipped(ed25519)) == ed25519
            &&& flipped(flipped(ml_dsa)) == ml_dsa
        }),
{
    let a: u8 = ed25519[0];
    let b: u8 = ml_dsa[0];
    assert(a ^ 0xff != a && b ^ 0xff != b && (a ^ 0xff) ^ 0xff == a && (b ^ 0xff) ^ 0xff == b) by (bit_vector);
    assert(flipped(ed25519)[0] != ed25519[0]);
    assert(flipped(ml_dsa)[0] != ml_dsa[0]);
    assert(flipped(flipped(ed25519)) =~= ed25519);
    assert(flipped(flipped(ml_dsa)) =~= ml_dsa);
}

/// Where a specimen's spending account comes from.
#[derive(Clone, Copy, Debug, PartialEq, Eq)]
pub enum AccountSource {
    /// The implicit account of the key that a repeated seed byte derives.
    Implicit(u8),
    /// A named account.
    Named(&'static str),
}

/// A transfer to be signed honestly before it is corrupted: the spending account,
/// the seed byte of the signing key, the nonce and the amount.
#[derive(Clone, Copy, Debug, PartialEq, Eq)]
pub struct Specimen {
    pub account: AccountSource,
    pub key_seed: u8,
    pub nonce: u64,
    pub amount_sov: u64,
}

/// A transfer whose declared account is the implicit id of `account_seed`, signed by
/// `key_seed`'s key. When the seeds match it is a well-formed self-certifying
/// transfer; when they differ, the account is spent by a key that is not its own.
pub fn signed(account_seed: u8, key_seed: u8, nonce: u64, amount_sov: u64) -> (s: Specimen)
    ensures
        s == (Specimen {
            account: AccountSource::Implicit(account_seed),
            key_seed,
            nonce,
            amount_sov,
        }),
{
    Specimen { account: AccountSource::Implicit(account_seed), key_seed, nonce, amount_sov }
}

/// A well-formed, self-certifying transfer from a throwaway implicit account.
pub fn base(seed: u8) -> (s: Specimen)
    ensures
        s == honest(seed),
{
    signed(seed, seed, 0, 1)
}

/// A well-formed, self-certifying transfer.
pub open spec fn honest(seed: u8) -> Specimen {
    Specimen { account: AccountSource::Implicit(seed), key_seed: seed, nonce: 0, amount_sov: 1 }
}

/// The transfers the battery is made from, in the order [`battery`] takes them.
pub open spec fn specimen_list() -> Seq<Specimen> {
    seq![
        honest(9),
        honest(10),
        honest(11),
        honest(13),
        Specimen {
            account: AccountSource::Implicit(3),
            key_seed: 4,
            nonce: 0,
            amount_sov: 1,
        },
        Specimen {
            account: AccountSource::Named("attacker.sov"),
            key_seed: 21,
            nonce: 0,
            amount_sov: 1,
        },
        Specimen {
            account: AccountSource::Implicit(14),
            key_seed: 14,
            nonce: 7,
            amount_sov: 3,
        },
        Specimen {
            account: AccountSource::Implicit(14),
            key_seed: 14,
            nonce: 0,
            amount_sov: 1,
        },
        honest(15),
        honest(30),
    ]
}

/// The transfers the battery is made from: nine to corrupt, then the one whose JSON
/// form the malformed payloads are edits of.
pub fn specimens() -> (v: Vec<Specimen>)
    ensures
        v@ == specimen_list(),
{
    let v = vec![
        base(9),
        base(10),
        base(11),
        base(13),
        signed(3, 4, 0, 1),
        Specimen {
            account: AccountSource::Named("attacker.sov"),
            key_seed: 21,
            nonce: 0,
            amount_sov: 1,
        },
        signed(14, 14, 7, 3),
        signed(14, 14, 0, 1),
        base(15),
        base(30),
    ];
    assert(v@ =~= specimen_list());
    v
}

/// What a single attack submits: an intentionally corrupt signed transaction, or a
/// raw JSON-RPC call for the malformed-protocol probes.
#[derive(Debug)]
pub enum Payload {
    /// Submit this signed transaction.
    Signed(Box<SignedTransaction>),
    /// Make this raw JSON-RPC call.
    Call { method: &'static str, params: Json },
}

/// A payload by its contents.
pub enum PayloadView {
    Signed(SignedView),
    Call { method: Seq<char>, params: JsonView },
}

impl Payload {
    pub open spec fn view(&self) -> PayloadView {
        match self {
            Payload::Signed(s) => PayloadView::Signed(s@),
            Payload::Call { method, params } => PayloadView::Call {
                method: method@,
                params: params@,
            },
        }
    }
}

/// One named attack, ready to fire.
#[derive(Debug)]
pub struct Attack {
    pub category: &'static str,
    pub name: &'static str,
    pub payload: Payload,
}

/// An attack by its contents.
pub struct AttackView {
    pub category: Seq<char>,
    pub name: Seq<char>,
    pub payload: PayloadView,
}

/// An attack that submits a signed transaction.
pub open spec fn corrupt(category: Seq<char>, name: Seq<char>, s: SignedView) -> AttackView {
    AttackView { category, name, payload: PayloadView::Signed(s) }
}

/// An attack that submits a raw document.
pub open spec fn malformed(category: Seq<char>, name: Seq<char>, doc: JsonView) -> AttackView {
    AttackView {
        category,
        name,
        payload: PayloadView::Call { method: "sov_submitTransaction"@, params: doc },
    }
}

impl Attack {
    pub open spec fn view(&self) -> AttackView {
        AttackView { category: self.category@, name: self.name@, payload: self.payload@ }
    }

    fn signed(category: &'static str, name: &'static str, stx: SignedTransaction) -> (a: Self)
        ensures
            a@ == corrupt(category@, name@, stx@),
    {
        Attack { category, name, payload: Payload::Signed(Box::new(stx)) }
    }

    fn submit_raw(category: &'static str, name: &'static str, params: Json) -> (a: Self)
        ensures
            a@ == malformed(category@, name@, params@),
    {
        Attack {
            category,
            name,
            payload: Payload::Call { method: "sov_submitTransaction", params },
        }
    }

    fn call(
        category: &'static str,
        name: &'static str,
        method: &'static str,
        params: Json,
    ) -> (a: Self)
        ensures
            a@ == (AttackView {
                category: category@,
                name: name@,
                payload: PayloadView::Call { method: method@, params: params@ },
            }),
    {
        Attack { category, name, payload: Payload::Call { method, params } }
    }
}

/// A signed transaction under another signature.
pub open spec fn resigned(s: SignedView, signature: SignatureView) -> SignedView {
    SignedView { transaction: s.transaction, signature }
}

/// The next nonce, wrapping at the largest.
pub open spec fn nonce_after(n: u64) -> u64 {
    if n == u64::MAX {
        0
    } else {
        (n + 1) as u64
    }
}

/// A text of `n` copies of one character.
pub open spec fn repeated(c: char, n: nat) -> Seq<char> {
    Seq::new(n, |i: int| c)
}

fn repeat(c: char, n: usize) -> (s: String)
    ensures
        s@ == repeated(c, n as nat),
{
    let mut s = String::new();
    let mut i: usize = 0;
    assert(s@ =~= repeated(c, 0));
    while i < n
        invariant
            i <= n,
            s@ == repeated(c, i as nat),
        decreases n - i,
    {
        s.push(c);
        i = i + 1;
        assert(s@ =~= repeated(c, i as nat));
    }
    s
}

/// The signature-integrity attacks: each half forged alone, both, and a downgrade to
/// the classical half.
pub open spec fn crypto_attacks(s: Seq<SignedView>) -> Seq<AttackView> {
    seq![
        corrupt(
            "crypto"@,
            "forge Ed25519 half"@,
            resigned(s[0], tampered(s[0].signature, Half::Ed25519)),
        ),
        corrupt(
            "crypto"@,
            "forge post-quantum half only (keep Ed25519 valid)"@,
            resigned(s[1], tampered(s[1].signature, Half::MlDsa)),
        ),
        corrupt(
            "crypto"@,
            "forge both signature halves"@,
            resigned(s[2], tampered(tampered(s[2].signature, Half::Ed25519), Half::MlDsa)),
        ),
        corrupt(
            "crypto"@,
            "downgrade to Ed25519-only vs a hybrid key"@,
            resigned(s[3], SignatureView::V1Ed25519(classical_half(s[3].signature))),
        ),
    ]
}

/// The authorization attacks (a wrong key, a keyless named account) and the replay
/// attacks (a spliced signature, a nonce changed after signing).
pub open spec fn authorization_attacks(s: Seq<SignedView>) -> Seq<AttackView> {
    seq![
        corrupt("authz"@, "impersonate an implicit account (wrong key)"@, s[4]),
        corrupt("authz"@, "spend from a keyless named account"@, s[5]),
        corrupt(
            "replay"@,
            "replay a signature from another nonce (splice)"@,
            resigned(s[7], s[6].signature),
        ),
        corrupt(
            "replay"@,
            "replay a signed tx at a tampered nonce"@,
            SignedView {
                transaction: TransactionView {
                    nonce: nonce_after(s[8].transaction.nonce),
                    ..s[8].transaction
                },
                signature: s[8].signature,
            },
        ),
    ]
}

/// The payloads that never form a transaction: impossible values, confused or
/// missing fields, an over-long id, an unknown method and an oversized body.
pub open spec fn payload_attacks(valid: JsonView) -> Seq<AttackView> {
    seq![
        malformed(
            "value"@,
            "negative transfer amount (value from nothing)"@,
            json::with_path(
                valid,
                seq!["transaction"@, "action"@, "amount"@],
                JsonView::Number("-1"@),
            ),
        ),
        malformed(
            "value"@,
            "amount overflows u128 balance arithmetic"@,
            json::with_path(
                valid,
                seq!["transaction"@, "action"@, "amount"@],
                JsonView::Text("340282366920938463463374607431768211456"@),
            ),
        ),
        malformed(
            "encoding"@,
            "payload is not a transaction"@,
            JsonView::Text("not-a-transaction"@),
        ),
        malformed(
            "encoding"@,
            "nonce as a string (type confusion)"@,
            json::with_path(
                valid,
                seq!["transaction"@, "nonce"@],
                JsonView::Text("not-a-number"@),
            ),
        ),
        malformed(
            "encoding"@,
            "missing signature field"@,
            json::without_member(valid, "signature"@),
        ),
        malformed(
            "encoding"@,
            "over-length account id (>64 chars)"@,
            json::with_path(
                valid,
                seq!["transaction"@, "signer"@],
                JsonView::Text(repeated('a', 96)),
            ),
        ),
        AttackView {
            category: "rpc"@,
            name: "unknown method"@,
            payload: PayloadView::Call {
                method: "sov_thisMethodDoesNotExist"@,
                params: JsonView::Object(Seq::empty()),
            },
        },
        malformed(
            "rpc"@,
            "oversized request body (~1MB)"@,
            JsonView::Text(repeated('x', 1_000_000)),
        ),
    ]
}

/// A list of attacks by their contents.
pub open spec fn attack_views(v: Seq<Attack>) -> Seq<AttackView> {
    v.map_values(|a: Attack| a@)
}

/// A list of signed transactions by their contents.
pub open spec fn signed_views(v: Seq<SignedTransaction>) -> Seq<SignedView> {
    v.map_values(|s: SignedTransaction| s@)
}

fn push_crypto(a: &mut Vec<Attack>, specimens: &Vec<SignedTransaction>)
    requires
        specimens@.len() >= 4,
        tamperable(specimens@[1].signature@),
        tamperable(specimens@[2].signature@),
    ensures
        attack_views(final(a)@) == attack_views(old(a)@) + crypto_attacks(
            signed_views(specimens@),
        ),
{
    let mut s = specimens[0].clone();
    s.signature = tamper_signature(s.signature, Half::Ed25519);
    a.push(Attack::signed("crypto", "forge Ed25519 half", s));

    let mut s = specimens[1].clone();
    s.signature = tamper_signature(s.signature, Half::MlDsa);
    a.push(Attack::signed("crypto", "forge post-quantum half only (keep Ed25519 valid)", s));

    let mut s = specimens[2].clone();
    s.signature = tamper_signature(tamper_signature(s.signature, Half::Ed25519), Half::MlDsa);
    a.push(Attack::signed("crypto", "forge both signature halves", s));

    let mut s = specimens[3].clone();
    s.signature = Signature::V1Ed25519(ed_half(&s.signature));
    a.push(Attack::signed("crypto", "downgrade to Ed25519-only vs a hybrid key", s));
    assert(attack_views(a@) =~= attack_views(old(a)@) + crypto_attacks(signed_views(specimens@)));
}

fn push_authorization(a: &mut Vec<Attack>, specimens: &Vec<SignedTransaction>)
    requires
        specimens@.len() >= 9,
    ensures
        attack_views(final(a)@) == attack_views(old(a)@) + authorization_attacks(
            signed_views(specimens@),
        ),
{
    a.push(
        Attack::signed(
            "authz",
            "impersonate an implicit account (wrong key)",
            specimens[4].clone(),
        ),
    );
    a.push(Attack::signed("authz", "spend from a keyless named account", specimens[5].clone()));

    let donor = specimens[6].clone();
    let mut victim = specimens[7].clone();
    victim.signature = donor.signature;
    a.push(Attack::signed("replay", "replay a signature from another nonce (splice)", victim));

    let mut s = specimens[8].clone();
    let n: u64 = s.transaction.nonce;
    s.transaction.nonce = if n == u64::MAX {
        0
    } else {
        n + 1
    };
    a.push(Attack::signed("replay", "replay a signed tx at a tampered nonce", s));
    assert(attack_views(a@) =~= attack_views(old(a)@) + authorization_attacks(
        signed_views(specimens@),
    ));
}

fn push_payloads(a: &mut Vec<Attack>, valid: &Json)
    ensures
        attack_views(final(a)@) == attack_views(old(a)@) + payload_attacks(valid@),
{
    let v = json::set_deep(
        valid.copy(),
        "transaction",
        "action",
        "amount",
        Json::Number(owned("-1")),
    );
    a.push(Attack::submit_raw("value", "negative transfer amount (value from nothing)", v));
    let v = json::set_deep(
        valid.copy(),
        "transaction",
        "action",
        "amount",
        Json::Text(owned("340282366920938463463374607431768211456")),
    );
    a.push(Attack::submit_raw("value", "amount overflows u128 balance arithmetic", v));
    a.push(
        Attack::submit_raw(
            "encoding",
            "payload is not a transaction",
            Json::Text(owned("not-a-transaction")),
        ),
    );
    let v = json::set_in(valid.copy(), "transaction", "nonce", Json::Text(owned("not-a-number")));
    a.push(Attack::submit_raw("encoding", "nonce as a string (type confusion)", v));
    let v = json::remove_member(valid.copy(), "signature");
    a.push(Attack::submit_raw("encoding", "missing signature field", v));
    let v = json::set_in(valid.copy(), "transaction", "signer", Json::Text(repeat('a', 96)));
    a.push(Attack::submit_raw("encoding", "over-length account id (>64 chars)", v));
    let none: Vec<(String, Json)> = Vec::new();
    let empty = Json::Object(none);
    assert(empty@->Object_0 =~= Seq::<(Seq<char>, JsonView)>::empty());
    a.push(Attack::call("rpc", "unknown method", "sov_thisMethodDoesNotExist", empty));
    a.push(
        Attack::submit_raw(
            "rpc",
            "oversized request body (~1MB)",
            Json::Text(repeat('x', 1_000_000)),
        ),
    );
    assert(attack_views(a@) =~= attack_views(old(a)@) + payload_attacks(valid@));
}

/// The full, deterministic battery, made from the signed [`specimens`] and the JSON
/// form of the last one. Each attack is rejected for a reason independent of chain
/// state.
pub fn battery(specimens: &Vec<SignedTransaction>, valid: &Json) -> (a: Vec<Attack>)
    requires
        specimens@.len() >= 9,
        forall|i: int|
            0 <= i < specimens@.len() ==> tamperable((#[trigger] specimens@[i]).signature@),
    ensures
        attack_views(a@) == crypto_attacks(signed_views(specimens@)) + authorization_attacks(
            signed_views(specimens@),
        ) + payload_attacks(valid@),
{
    let mut a: Vec<Attack> = Vec::new();
    push_crypto(&mut a, specimens);
    push_authorization(&mut a, specimens);
    push_payloads(&mut a, valid);
    let ghost s = signed_views(specimens@);
    assert(Seq::<AttackView>::empty() + crypto_attacks(s) + authorization_attacks(s)
        + payload_attacks(valid@) =~= crypto_attacks(s) + authorization_attacks(s)
        + payload_attacks(valid@));
    assert(attack_views(Seq::<Attack>::empty()) =~= Seq::<AttackView>::empty());
    a
}

/// The part of a text before its first line break.
pub open spec fn first_line(s: Seq<char>) -> Seq<char>
    decreases s.len(),
{
    if s.len() == 0 || s[0] == '\n' {
        Seq::empty()
    } else {
        seq![s[0]] + first_line(s.drop_first())
    }
}

/// A node error as one tidy line: its first line without the wrapper's prefix, cut
/// to 130 characters.
pub open spec fn tidy(s: Seq<char>) -> Seq<char> {
    let line = text::trim(first_line(text::trim(s)));
    let bare = if text::occurs_at(line, "rejected: "@, 0) {
        line.skip("rejected: "@.len() as int)
    } else {
        line
    };
    if bare.len() > 130 {
        bare.take(129).push('…')
    } else {
        bare
    }
}

/// How many characters stand before the first line break.
fn line_length(v: &Vec<char>) -> (n: usize)
    ensures
        n <= v@.len(),
        v@.take(n as int) == first_line(v@),
{
    let mut n: usize = 0;
    assert(v@.skip(0) =~= v@);
    assert(v@.take(0) + first_line(v@) =~= first_line(v@));
    while n < v.len() && v[n] != '\n'
        invariant
            n <= v@.len(),
            v@.take(n as int) + first_line(v@.skip(n as int)) == first_line(v@),
        decreases v@.len() - n,
    {
        proof {
            let rest = v@.skip(n as int);
            assert(rest.drop_first() =~= v@.skip(n + 1));
            assert(v@.take(n as int) + (seq![rest[0]] + first_line(v@.skip(n + 1))) =~= v@.take(
                n + 1,
            ) + first_line(v@.skip(n + 1)));
        }
        n = n + 1;
    }
    assert(v@.take(n as int) + Seq::<char>::empty() =~= v@.take(n as int));
    n
}

/// Trim a node error to one tidy line.
pub fn trim(s: &str) -> (r: String)
    ensures
        r@ == tidy(s@),
{
    let all = chars_of(s);
    let whole = trim_chars(&all);
    let n = line_length(&whole);
    let head = slice_chars(&whole, 0, n);
    assert(head@ =~= whole@.take(n as int));
    let line = trim_chars(&head);
    let prefix = chars_of("rejected: ");
    let bare = if starts_with(&line, &prefix) {
        let b = slice_chars(&line, prefix.len(), line.len());
        assert(b@ =~= line@.skip(prefix@.len() as int));
        b
    } else {
        line
    };
    if bare.len() > 130 {
        let mut cut = slice_chars(&bare, 0, 129);
        assert(cut@ =~= bare@.take(129));
        cut.push('…');
        string_of(&cut)
    } else {
        string_of(&bare)
    }
}

fn starts_with(v: &Vec<char>, prefix: &Vec<char>) -> (r: bool)
    ensures
        r == text::occurs_at(v@, prefix@, 0),
{
    if v.len() < prefix.len() {
        return false;
    }
    let head = slice_chars(v, 0, prefix.len());
    let mut i: usize = 0;
    while i < prefix.len()
        invariant
            i <= prefix@.len() == head@.len(),
            head@ == v@.subrange(0, prefix@.len() as int),
            prefix@.len() <= v@.len(),
            forall|k: int| 0 <= k < i ==> head@[k] == prefix@[k],
        decreases prefix@.len() - i,
    {
        if head[i] != prefix[i] {
            assert(head@[i as int] != prefix@[i as int]);
            return false;
        }
        i = i + 1;
    }
    assert(head@ =~= prefix@);
    true
}

/// What came back for one attack.
#[derive(Clone, Debug, PartialEq, Eq)]
pub enum Reply {
    /// The payload was admitted.
    Admitted,
    /// The node answered with an error.
    Rejected(String),
    /// The node could not be reached.
    Unreachable(String),
    /// The client gave any other error.
    Failed(String),
}

/// The judgment of a reply.
pub open spec fn judged(r: Reply) -> Verdict {
    match r {
        Reply::Admitted => Verdict::Vulnerable,
        Reply::Rejected(_) => Verdict::Defended,
        Reply::Unreachable(_) => Verdict::Info,
        Reply::Failed(_) => Verdict::Defended,
    }
}

/// The detail shown for a reply.
pub open spec fn detail_of(r: Reply) -> Seq<char> {
    match r {
        Reply::Admitted => "ADMITTED to the mempool — the door did not reject it"@,
        Reply::Rejected(m) => "REJECTED — "@ + tidy(m@),
        Reply::Unreachable(e) => "could not reach node: "@ + e@,
        Reply::Failed(e) => "REJECTED — "@ + tidy(e@),
    }
}

/// Judge a reply: a rejection is a defense, an unreachable node is information, and
/// an admission is a real finding.
pub fn judge(category: &'static str, name: &'static str, reply: &Reply) -> (o: AttackOutcome)
    ensures
        o.category@ == category@,
        o.name@ == name@,
        o.verdict == judged(*reply),
        o.detail@ == detail_of(*reply),
{
    let (verdict, detail) = match reply {
        Reply::Rejected(m) => {
            let mut d = owned("REJECTED — ");
            d.append(trim(m.as_str()).as_str());
            (Verdict::Defended, d)
        },
        Reply::Unreachable(e) => {
            let mut d = owned("could not reach node: ");
            d.append(e.as_str());
            (Verdict::Info, d)
        },
        Reply::Failed(e) => {
            let mut d = owned("REJECTED — ");
            d.append(trim(e.as_str()).as_str());
            (Verdict::Defended, d)
        },
        Reply::Admitted => (
            Verdict::Vulnerable,
            owned("ADMITTED to the mempool — the door did not reject it"),
        ),
    };
    AttackOutcome { category, name, verdict, detail }
}

/// The full result of pointing the battery at a node.
#[derive(Clone, Debug)]
pub struct ProbeReport {
    /// The `host:port` targeted.
    pub target: String,
    /// True once the node answered for its height.
    pub reachable: bool,
    /// The node's chain id, if it reported one.
    pub chain_id: Option<String>,
    /// True if the chain id names mainnet.
    pub is_mainnet: bool,
    /// True if the battery was blocked by the mainnet guard: no attack was fired.
    pub blocked: bool,
    /// Mempool size before the battery.
    pub mempool_before: Option<usize>,
    /// Mempool size after the battery.
    pub mempool_after: Option<usize>,
    /// One outcome per attack.
    pub outcomes: Vec<AttackOutcome>,
}

impl Default for ProbeReport {
    fn default() -> (r: Self)
        ensures
            r.target@ == ""@,
            !r.reachable,
            r.chain_id is None,
            !r.is_mainnet,
            !r.blocked,
            r.mempool_before is None,
            r.mempool_after is None,
            r.outcomes@.len() == 0,
    {
        ProbeReport {
            target: owned(""),
            reachable: false,
            chain_id: None,
            is_mainnet: false,
            blocked: false,
            mempool_before: None,
            mempool_after: None,
            outcomes: Vec::new(),
        }
    }
}

/// How many outcomes have this verdict.
pub open spec fn verdict_count(outcomes: Seq<AttackOutcome>, v: Verdict) -> nat {
    outcomes.filter(|o: AttackOutcome| o.verdict == v).len()
}

/// Every outcome is a defense.
pub open spec fn all_defended(outcomes: Seq<AttackOutcome>) -> bool {
    forall|i: int| 0 <= i < outcomes.len() ==> (#[trigger] outcomes[i]).verdict == Verdict::Defended
}

impl ProbeReport {
    /// Both pool sizes are known and the pool did not grow.
    pub open spec fn spec_no_residue(&self) -> bool {
        match (self.mempool_before, self.mempool_after) {
            (Some(before), Some(after)) => after <= before,
            _ => false,
        }
    }

    /// The probe left no residue in the mempool. Unknown sizes do not fabricate a
    /// pass.
    pub fn no_residue(&self) -> (b: bool)
        ensures
            b == self.spec_no_residue(),
    {
        match (self.mempool_before, self.mempool_after) {
            (Some(before), Some(after)) => after <= before,
            _ => false,
        }
    }

    /// Count of each verdict across the fired attacks: defended, vulnerable, info.
    pub fn counts(&self) -> (c: (usize, usize, usize))
        ensures
            c.0 == verdict_count(self.outcomes@, Verdict::Defended),
            c.1 == verdict_count(self.outcomes@, Verdict::Vulnerable),
            c.2 == verdict_count(self.outcomes@, Verdict::Info),
            c.0 + c.1 + c.2 == self.outcomes@.len(),
    {
        let mut defended: usize = 0;
        let mut vulnerable: usize = 0;
        let mut info: usize = 0;
        let mut i: usize = 0;
        let ghost all = self.outcomes@;
        proof {
            reveal(Seq::filter);
            assert(all.take(0) =~= Seq::<AttackOutcome>::empty());
        }
        while i < self.outcomes.len()
            invariant
                all == self.outcomes@,
                i <= all.len(),
                defended == verdict_count(all.take(i as int), Verdict::Defended),
                vulnerable == verdict_count(all.take(i as int), Verdict::Vulnerable),
                info == verdict_count(all.take(i as int), Verdict::Info),
                defended + vulnerable + info == i,
            decreases all.len() - i,
        {
            proof {
                reveal(Seq::filter);
                assert(all.take(i + 1).drop_last() =~= all.take(i as int));
                assert(all.take(i + 1).last() == all[i as int]);
            }
            match self.outcomes[i].verdict {
                Verdict::Defended => {
                    defended = defended + 1;
                },
                Verdict::Vulnerable => {
                    vulnerable = vulnerable + 1;
                },
                Verdict::Info => {
                    info = info + 1;
                },
            }
            i = i + 1;
        }
        assert(all.take(i as int) =~= all);
        (defended, vulnerable, info)
    }

    /// The battery ran, every attack was rejected, and the pool did not grow.
    pub open spec fn spec_passed(&self) -> bool {
        &&& !self.blocked
        &&& self.reachable
        &&& self.outcomes@.len() > 0
        &&& all_defended(self.outcomes@)
        &&& self.spec_no_residue()
    }

    /// The battery passed: it actually ran, every attack drew an explicit rejection,
    /// and the mempool did not grow.
    pub fn passed(&self) -> (b: bool)
        ensures
            b == self.spec_passed(),
    {
        if self.blocked || !self.reachable || self.outcomes.len() == 0 {
            return false;
        }
        let (defended, vulnerable, info) = self.counts();
        proof {
            lemma_all_defended(self.outcomes@);
        }
        vulnerable == 0 && info == 0 && defended == self.outcomes.len() && self.no_residue()
    }

    /// The pool grew across the battery: the loud failure the operator must see.
    pub fn residue_detected(&self) -> (b: bool)
        ensures
            b == (self.mempool_before is Some && self.mempool_after is Some
                && self.mempool_after->0 > self.mempool_before->0),
    {
        match (self.mempool_before, self.mempool_after) {
            (Some(before), Some(after)) => after > before,
            _ => false,
        }
    }

    /// The node answered and the guard lets the battery fire.
    pub fn cleared(&self) -> (b: bool)
        ensures
            b == (self.reachable && !self.blocked),
    {
        self.reachable && !self.blocked
    }
}

/// All are defended exactly when as many are defended as there are.
proof fn lemma_all_defended(outcomes: Seq<AttackOutcome>)
    ensures
        verdict_count(outcomes, Verdict::Defended) <= outcomes.len(),
        all_defended(outcomes) <==> verdict_count(outcomes, Verdict::Defended) == outcomes.len(),
    decreases outcomes.len(),
{
    reveal(Seq::filter);
    if outcomes.len() > 0 {
        let d = outcomes.drop_last();
        lemma_all_defended(d);
        if all_defended(outcomes) {
            assert(outcomes[outcomes.len() - 1].verdict == Verdict::Defended);
            assert(all_defended(d));
        }
        if all_defended(d) && outcomes.last().verdict == Verdict::Defended {
            assert forall|i: int| 0 <= i < outcomes.len() implies (#[trigger] outcomes[i]).verdict
                == Verdict::Defended by {
                if i < d.len() {
                    assert(d[i].verdict == Verdict::Defended);
                }
            }
        }
    }
}

/// The chain id names mainnet.
pub open spec fn names_mainnet(chain_id: Option<String>) -> bool {
    chain_id matches Some(id) && text::contains_text(id@, "mainnet"@)
}

/// Begin a probe with the node's identity, honoring the mainnet guard.
///
/// `confirmed` is consulted only when the target is mainnet. On a mainnet node
/// without confirmation the report comes back blocked, with the identity detected,
/// and nothing may be fired.
pub fn open_probe(
    target: String,
    reachable: bool,
    chain_id: Option<String>,
    confirmed: bool,
) -> (r: ProbeReport)
    ensures
        r.target == target,
        r.reachable == reachable,
        r.chain_id == chain_id,
        r.is_mainnet == names_mainnet(chain_id),
        r.blocked == (reachable && names_mainnet(chain_id) && !confirmed),
        r.mempool_before is None,
        r.mempool_after is None,
        r.outcomes@.len() == 0,
{
    let mainnet: bool = match &chain_id {
        Some(id) => is_mainnet(id.as_str()),
        None => false,
    };
    let blocked: bool = reachable && !may_fire(mainnet, confirmed);
    ProbeReport {
        target,
        reachable,
        chain_id,
        is_mainnet: mainnet,
        blocked,
        mempool_before: None,
        mempool_after: None,
        outcomes: Vec::new(),
    }
}

/// Finish a cleared probe: the pool sizes around the battery and one judged outcome
/// per attack, in order.
pub fn close_probe(
    report: ProbeReport,
    attacks: &Vec<Attack>,
    replies: &Vec<Reply>,
    before: Option<usize>,
    after: Option<usize>,
) -> (r: ProbeReport)
    requires
        report.reachable,
        !report.blocked,
        report.outcomes@.len() == 0,
        attacks@.len() == replies@.len(),
    ensures
        r.target == report.target,
        r.reachable,
        r.chain_id == report.chain_id,
        r.is_mainnet == report.is_mainnet,
        !r.blocked,
        r.mempool_before == before,
        r.mempool_after == after,
        r.outcomes@.len() == attacks@.len(),
        forall|i: int|
            #![trigger r.outcomes@[i]]
            0 <= i < attacks@.len() ==> {
                &&& r.outcomes@[i].category@ == attacks@[i].category@
                &&& r.outcomes@[i].name@ == attacks@[i].name@
                &&& r.outcomes@[i].verdict == judged(replies@[i])
                &&& r.outcomes@[i].detail@ == detail_of(replies@[i])
            },
{
    let mut outcomes: Vec<AttackOutcome> = Vec::new();
    let mut i: usize = 0;
    while i < attacks.len()
        invariant
            i <= attacks@.len() == replies@.len(),
            outcomes@.len() == i,
            forall|k: int|
                #![trigger outcomes@[k]]
                0 <= k < i ==> {
                    &&& outcomes@[k].category@ == attacks@[k].category@
                    &&& outcomes@[k].name@ == attacks@[k].name@
                    &&& outcomes@[k].verdict == judged(replies@[k])
                    &&& outcomes@[k].detail@ == detail_of(replies@[k])
                },
        decreases attacks@.len() - i,
    {
        outcomes.push(judge(attacks[i].category, attacks[i].name, &replies[i]));
        i = i + 1;
    }
    ProbeReport {
        target: report.target,
        reachable: report.reachable,
        chain_id: report.chain_id,
        is_mainnet: report.is_mainnet,
        blocked: report.blocked,
        mempool_before: before,
        mempool_after: after,
        outcomes,
    }
}

/// A report that passes leaves no doubt: nothing was admitted, nothing went
/// unanswered, and the pool did not grow.
pub proof fn law_a_pass_is_never_silent(r: ProbeReport, i: int)
    requires
        r.spec_passed(),
        0 <= i < r.outcomes@.len(),
    ensures
        r.outcomes@[i].verdict == Verdict::Defended,
        r.mempool_before is Some,
        r.mempool_after is Some,
        r.mempool_after->0 <= r.mempool_before->0,
{
}

/// The battery covers every attack class.
pub proof fn law_battery_covers_every_class(s: Seq<SignedView>, valid: JsonView)
    ensures
        ({
            let b = crypto_attacks(s) + authorization_attacks(s) + payload_attacks(valid);
            &&& b.len() == 16
            &&& b[0].category == "crypto"@
            &&& b[4].category == "authz"@
            &&& b[6].category == "replay"@
            &&& b[8].category == "value"@
            &&& b[10].category == "encoding"@
            &&& b[14].category == "rpc"@
        }),
{
}

/// Two byte strings of one length that differ in the first byte and nowhere else.
pub open spec fn first_byte_differs(a: Seq<u8>, b: Seq<u8>) -> bool {
    &&& a.len() == b.len()
    &&& a.len() > 0
    &&& a[0] != b[0]
    &&& forall|i: int| 1 <= i < a.len() ==> #[trigger] a[i] == b[i]
}

proof fn lemma_flipped_differs(b: Seq<u8>)
    requires
        b.len() > 0,
    ensures
        first_byte_differs(flipped(b), b),
        flipped(b) != b,
{
    let x: u8 = b[0];
    assert(x ^ 0xff != x) by (bit_vector);
    assert(flipped(b)[0] != b[0]);
}

/// No signature attack is an honestly signed transaction: of hybrid specimens the first
/// forges the classical half alone, the second the post-quantum half alone, the third both,
/// and the fourth leaves the post-quantum half away. None touches what was signed.
pub proof fn law_every_signature_attack_forges(s: Seq<SignedView>)
    requires
        s.len() >= 4,
        forall|i: int|
            0 <= i < 4 ==> (#[trigger] s[i]).signature is V2HybridMlDsa65
                && s[i].signature->ed25519.len() > 0 && s[i].signature->ml_dsa.len() > 0,
    ensures
        crypto_attacks(s).len() == 4,
        forall|i: int|
            0 <= i < 4 ==> {
                &&& (#[trigger] crypto_attacks(s)[i]).category == "crypto"@
                &&& crypto_attacks(s)[i].payload is Signed
                &&& crypto_attacks(s)[i].payload->Signed_0.transaction == s[i].transaction
                &&& crypto_attacks(s)[i].payload->Signed_0.signature != s[i].signature
            },
        ({
            let forged = crypto_attacks(s)[0].payload->Signed_0.signature;
            &&& forged is V2HybridMlDsa65
            &&& first_byte_differs(forged->ed25519, s[0].signature->ed25519)
            &&& forged->ml_dsa == s[0].signature->ml_dsa
        }),
        ({
            let forged = crypto_attacks(s)[1].payload->Signed_0.signature;
            &&& forged is V2HybridMlDsa65
            &&& forged->ed25519 == s[1].signature->ed25519
            &&& first_byte_differs(forged->ml_dsa, s[1].signature->ml_dsa)
        }),
        ({
            let forged = crypto_attacks(s)[2].payload->Signed_0.signature;
            &&& forged is V2HybridMlDsa65
            &&& first_byte_differs(forged->ed25519, s[2].signature->ed25519)
            &&& first_byte_differs(forged->ml_dsa, s[2].signature->ml_dsa)
        }),
        crypto_attacks(s)[3].payload->Signed_0.signature == SignatureView::V1Ed25519(
            s[3].signature->ed25519,
        ),
{
    lemma_flipped_differs(s[0].signature->ed25519);
    lemma_flipped_differs(s[1].signature->ml_dsa);
    lemma_flipped_differs(s[2].signature->ed25519);
    lemma_flipped_differs(s[2].signature->ml_dsa);
}

/// The impersonations are sent as they were signed; the spliced signature is one made for
/// another transaction; and the shifted nonce is not the one that was signed, with all else,
/// the signature included, as it was.
pub proof fn law_every_authorization_attack_is_what_it_says(s: Seq<SignedView>)
    requires
        s.len() >= 9,
    ensures
        authorization_attacks(s).len() == 4,
        forall|i: int| 0 <= i < 4 ==> (#[trigger] authorization_attacks(s)[i]).payload is Signed,
        authorization_attacks(s)[0].payload->Signed_0 == s[4],
        authorization_attacks(s)[1].payload->Signed_0 == s[5],
        ({
            let spliced = authorization_attacks(s)[2].payload->Signed_0;
            &&& spliced.transaction == s[7].transaction
            &&& spliced.signature == s[6].signature
        }),
        ({
            let shifted = authorization_attacks(s)[3].payload->Signed_0;
            &&& shifted.signature == s[8].signature
            &&& shifted.transaction.nonce != s[8].transaction.nonce
            &&& s[8].transaction.nonce < u64::MAX ==> shifted.transaction.nonce
                == s[8].transaction.nonce + 1
            &&& shifted.transaction == (TransactionView {
                nonce: shifted.transaction.nonce,
                ..s[8].transaction
            })
        }),
{
}

/// No payload attack is a transaction the node could take: an amount below nothing or above
/// what can be held, a document that is no object, a nonce in words, no signature at all, an
/// account id longer than any, a method nobody serves, and a body of a million characters.
/// The edited ones carry the edit where they say, and everything beside it as it was.
pub proof fn law_every_payload_attack_is_malformed(
    fields: Seq<(Seq<char>, JsonView)>,
    other: Seq<char>,
)
    requires
        forall|i: int, k: int|
            0 <= i < k < fields.len() ==> !((#[trigger] fields[i]).0 == "signature"@ && (
            #[trigger] fields[k]).0 == "signature"@),
    ensures
        ({
            let valid = JsonView::Object(fields);
            let b = payload_attacks(valid);
            let amount = seq!["transaction"@, "action"@, "amount"@];
            &&& b.len() == 8
            &&& forall|i: int| 0 <= i < 8 ==> (#[trigger] b[i]).payload is Call
            &&& forall|i: int|
                0 <= i < 8 && i != 6 ==> (#[trigger] b[i]).payload->method
                    == "sov_submitTransaction"@
            &&& json::at_path(b[0].payload->params, amount) == Some(JsonView::Number("-1"@))
            &&& json::at_path(b[1].payload->params, amount) == Some(
                JsonView::Text("340282366920938463463374607431768211456"@),
            )
            &&& b[2].payload->params is Text
            &&& json::at_path(b[3].payload->params, seq!["transaction"@, "nonce"@]) == Some(
                JsonView::Text("not-a-number"@),
            )
            &&& json::member(b[4].payload->params, "signature"@) is None
            &&& json::at_path(b[5].payload->params, seq!["transaction"@, "signer"@]) matches Some(
                JsonView::Text(id),
            ) && id.len() == 96
            &&& b[6].payload->method == "sov_thisMethodDoesNotExist"@
            &&& b[7].payload->params matches JsonView::Text(body) && body.len() == 1_000_000
            &&& other != "transaction"@ ==> {
                &&& json::member(b[0].payload->params, other) == json::member(valid, other)
                &&& json::member(b[1].payload->params, other) == json::member(valid, other)
                &&& json::member(b[3].payload->params, other) == json::member(valid, other)
                &&& json::member(b[5].payload->params, other) == json::member(valid, other)
            }
            &&& other != "signature"@ ==> json::member(b[4].payload->params, other)
                == json::member(valid, other)
        }),
{
    let valid = JsonView::Object(fields);
    let amount = seq!["transaction"@, "action"@, "amount"@];
    json::law_a_set_path_reads_back(valid, amount, JsonView::Number("-1"@), other);
    json::law_a_set_path_reads_back(
        valid,
        amount,
        JsonView::Text("340282366920938463463374607431768211456"@),
        other,
    );
    json::law_a_set_path_reads_back(
        valid,
        seq!["transaction"@, "nonce"@],
        JsonView::Text("not-a-number"@),
        other,
    );
    json::law_a_set_path_reads_back(
        valid,
        seq!["transaction"@, "signer"@],
        JsonView::Text(repeated('a', 96)),
        other,
    );
    json::law_a_removed_member_is_gone(fields, "signature"@, other);
}

/// Who signs what: every specimen spends from the account of the key that signs it, but for
/// the fifth, which spends from another key's account, and the sixth, which spends from a
/// named one. The donor of the spliced signature is of the same key as its victim, and signs
/// another nonce and another amount.
pub proof fn law_the_specimens_are_signed_as_they_say(i: int)
    requires
        0 <= i < 10,
    ensures
        specimen_list().len() == 10,
        i != 4 && i != 5 ==> specimen_list()[i].account == AccountSource::Implicit(
            specimen_list()[i].key_seed,
        ),
        specimen_list()[4].account matches AccountSource::Implicit(a) && a
            != specimen_list()[4].key_seed,
        specimen_list()[5].account is Named,
        specimen_list()[6].key_seed == specimen_list()[7].key_seed,
        specimen_list()[6].nonce != specimen_list()[7].nonce,
        specimen_list()[6].amount_sov != specimen_list()[7].amount_sov,
        specimen_list()[i].amount_sov > 0,
        i != 6 ==> specimen_list()[i].nonce == 0 && specimen_list()[i].amount_sov == 1,
{
}

/// An answer is judged by what came back: only an admission is a finding, only silence is
/// none, and any refusal is a defense.
pub proof fn law_only_an_admission_is_a_finding(r: Reply)
    ensures
        judged(r) == Verdict::Vulnerable <==> r is Admitted,
        judged(r) == Verdict::Info <==> r is Unreachable,
        judged(r) == Verdict::Defended <==> r is Rejected || r is Failed,
{
}

/// A battery passes exactly where it was not blocked, the node was there, something was
/// fired, every single attack was refused, and the pool is known not to have grown.
pub proof fn law_a_pass_needs_every_attack_refused(r: ProbeReport)
    ensures
        r.spec_passed() <==> {
            &&& !r.blocked
            &&& r.reachable
            &&& r.outcomes@.len() > 0
            &&& forall|i: int|
                0 <= i < r.outcomes@.len() ==> (#[trigger] r.outcomes@[i]).verdict
                    == Verdict::Defended
            &&& r.mempool_before is Some
            &&& r.mempool_after is Some
            &&& r.mempool_after->0 <= r.mempool_before->0
        },
        r.spec_no_residue() <==> r.mempool_before is Some && r.mempool_after is Some
            && r.mempool_after->0 <= r.mempool_before->0,
{
}

/// The first line is the text up to its first line break, and all of it where there is none.
pub proof fn law_the_first_line_ends_at_a_break(s: Seq<char>)
    ensures
        first_line(s).len() <= s.len(),
        first_line(s) == s.take(first_line(s).len() as int),
        first_line(s).len() < s.len() ==> s[first_line(s).len() as int] == '\n',
        forall|i: int| 0 <= i < first_line(s).len() ==> #[trigger] first_line(s)[i] != '\n',
    decreases s.len(),
{
    if s.len() > 0 && s[0] != '\n' {
        let d = s.drop_first();
        law_the_first_line_ends_at_a_break(d);
        let l = first_line(s);
        assert(l =~= s.take(l.len() as int)) by {
            assert forall|i: int| 0 <= i < l.len() implies l[i] == s[i] by {
                if i > 0 {
                    assert(l[i] == first_line(d)[i - 1]);
                    assert(first_line(d)[i - 1] == d[i - 1]);
                }
            }
        }
        assert forall|i: int| 0 <= i < l.len() implies #[trigger] l[i] != '\n' by {
            if i > 0 {
                assert(l[i] == first_line(d)[i - 1]);
            }
        }
    }
}

/// A tidy line is one line of at most a hundred and thirty characters: the error's own first
/// line where that is short, without the wrapper's prefix; else its start, and an ellipsis.
pub proof fn law_a_tidy_line_is_one_short_line(s: Seq<char>)
    ensures
        ({
            let line = text::trim(first_line(text::trim(s)));
            let wrapped = line.len() >= "rejected: "@.len() && line.take(
                "rejected: "@.len() as int,
            ) == "rejected: "@;
            let bare = if wrapped {
                line.skip("rejected: "@.len() as int)
            } else {
                line
            };
            &&& tidy(s).len() <= 130
            &&& bare.len() <= 130 ==> tidy(s) == bare
            &&& bare.len() > 130 ==> tidy(s).len() == 130 && tidy(s).last() == '…'
                && tidy(s).take(129) == bare.take(129)
        }),
{
    let line = text::trim(first_line(text::trim(s)));
    let n = "rejected: "@.len() as int;
    if line.len() >= n {
        assert(line.subrange(0, n) =~= line.take(n));
    }
    let bare = if text::occurs_at(line, "rejected: "@, 0) {
        line.skip(n)
    } else {
        line
    };
    if bare.len() > 130 {
        assert(tidy(s).take(129) =~= bare.take(129));
    }
}

/// A chain is taken for mainnet exactly where its id is known and has the word in it, at
/// whatever place.
pub proof fn law_mainnet_is_known_by_its_name(chain_id: Option<String>)
    ensures
        chain_id is None ==> !names_mainnet(chain_id),
        chain_id matches Some(id) ==> (names_mainnet(chain_id) <==> exists|at: int|
            0 <= at <= id@.len() - 7 && #[trigger] id@.subrange(at, at + 7) == "mainnet"@),
{
    reveal_strlit("mainnet");
    if let Some(id) = chain_id {
        if names_mainnet(chain_id) {
            let at = choose|at: int| #[trigger] text::occurs_at(id@, "mainnet"@, at);
            assert(id@.subrange(at, at + 7) == "mainnet"@);
        }
        if exists|at: int|
            0 <= at <= id@.len() - 7 && #[trigger] id@.subrange(at, at + 7) == "mainnet"@ {
            let at = choose|at: int|
                0 <= at <= id@.len() - 7 && #[trigger] id@.subrange(at, at + 7) == "mainnet"@;
            assert(text::occurs_at(id@, "mainnet"@, at));
        }
    }
}

/// Every outcome is counted under its own kind, one more each time one more comes in.
pub proof fn law_each_outcome_is_counted_once(
    outcomes: Seq<AttackOutcome>,
    o: AttackOutcome,
    v: Verdict,
)
    ensures
        verdict_count(Seq::empty(), v) == 0,
        verdict_count(outcomes.push(o), v) == verdict_count(outcomes, v) + if o.verdict == v {
            1nat
        } else {
            0nat
        },
{
    reveal(Seq::filter);
    assert(outcomes.push(o).drop_last() =~= outcomes);
    assert(Seq::<AttackOutcome>::empty().filter(|o: AttackOutcome| o.verdict == v).len() == 0);
}

/// The detail of a refusal is the node's own words, made one line, however the refusal came;
/// of silence it is the error as it was.
pub proof fn law_the_detail_is_the_answer(r: Reply)
    ensures
        r matches Reply::Rejected(m) ==> detail_of(r) == "REJECTED — "@ + tidy(m@),
        r matches Reply::Failed(m) ==> detail_of(r) == "REJECTED — "@ + tidy(m@),
        r matches Reply::Unreachable(e) ==> detail_of(r) == "could not reach node: "@ + e@,
{
}

/// A classical signature has no half to forge apart: it is left as it is, and is its own
/// classical half. Of a hybrid one the classical half is the one it carries.
pub proof fn law_a_classical_signature_is_left_alone(b: Seq<u8>, ml_dsa: Seq<u8>, half: Half)
    ensures
        tampered(SignatureView::V1Ed25519(b), half) == SignatureView::V1Ed25519(b),
        classical_half(SignatureView::V1Ed25519(b)) == b,
        classical_half(SignatureView::V2HybridMlDsa65 { ed25519: b, ml_dsa }) == b,
{
}

} // verus!
