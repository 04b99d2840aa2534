//! What an unlocked keystore becomes: the wallets that can sign, each once.
//!
//! Reading and decrypting a store, and deriving an account from a seed, belong to the
//! chain's own crates. Which stores are tried, which entries can sign, and how they
//! are merged is decided here.

use crate::chain::AccountId;
use crate::text;
use crate::text::{contains, owned, same_text, trim_string};
use crate::transfer::KeyScheme;
use vstd::prelude::*;

verus! {

/// The value of a hexadecimal digit of either case.
pub open spec fn hex_digit(c: char) -> Option<u8> {
    if '0' <= c <= '9' {
        Some((c as u8 - '0' as u8) as u8)
    } else if 'a' <= c <= 'f' {
        Some((c as u8 - 'a' as u8 + 10) as u8)
    } else if 'A' <= c <= 'F' {
        Some((c as u8 - 'A' as u8 + 10) as u8)
    } else {
        None
    }
}

/// An even number of hexadecimal digits and nothing else.
pub open spec fn is_hex(s: Seq<char>) -> bool {
    s.len() % 2 == 0 && forall|i: int| 0 <= i < s.len() ==> hex_digit(#[trigger] s[i]) is Some
}

/// The bytes that hexadecimal digits write, two digits each.
pub open spec fn hex_bytes(s: Seq<char>) -> Seq<u8> {
    Seq::new(
        s.len() / 2,
        |i: int| (16 * hex_digit(s[2 * i])->Some_0 + hex_digit(s[2 * i + 1])->Some_0) as u8,
    )
}

/// `hex::decode` accepts an even number of hexadecimal digits of either case and nothing
/// else, and gives the bytes they write, the first digit of each pair in the upper half.
#[verifier::external_body]
fn decode_hex(s: &str) -> (r: Option<Vec<u8>>)
    ensures
        r is Some <==> is_hex(s@),
        r matches Some(v) ==> v@ == hex_bytes(s@),
{
    hex::decode(s).ok()
}

/// Overwrite a byte vector's contents and empty it. That the bytes were overwritten first
/// cannot be seen in the emptied vector, so the contract does not say it.
pub fn wipe_vec(v: &mut Vec<u8>)
    ensures
        final(v)@ == Seq::<u8>::empty(),
{
    let n: usize = v.len();
    let mut i: usize = 0;
    while i < n
        invariant
            v@.len() == n,
            i <= n,
            forall|k: int| 0 <= k < i ==> v@[k] == 0,
        decreases n - i,
    {
        v.set(i, 0);
        i = i + 1;
    }
    v.clear();
}

/// A seed that hexadecimal text writes: exactly thirty-two bytes.
pub open spec fn seed_of(s: Seq<char>) -> Option<Seq<u8>> {
    let t = text::trim(s);
    if is_hex(t) && t.len() == 64 {
        Some(hex_bytes(t))
    } else {
        None
    }
}

/// Read a seed from hexadecimal text, white space around it allowed.
pub fn read_seed(s: &str) -> (r: Option<[u8; 32]>)
    ensures
        r is Some <==> seed_of(s@) is Some,
        r matches Some(seed) ==> Some(seed@) == seed_of(s@),
{
    let t = trim_string(s);
    match decode_hex(t.as_str()) {
        Some(bytes) => {
            let mut bytes = bytes;
            if bytes.len() != 32 {
                wipe_vec(&mut bytes);
                return None;
            }
            let mut seed: [u8; 32] = [0;32];
            let mut i: usize = 0;
            while i < 32
                invariant
                    i <= 32,
                    bytes@.len() == 32,
                    forall|k: int| 0 <= k < i ==> seed@[k] == bytes@[k],
                decreases 32 - i,
            {
                seed[i] = bytes[i];
                i = i + 1;
            }
            assert(seed@ =~= bytes@);
            wipe_vec(&mut bytes);
            Some(seed)
        },
        None => None,
    }
}

/// One entry of a decrypted store. Its account is a display label, never an authority.
#[derive(Debug)]
pub struct StoreEntry {
    /// The label.
    pub account: String,
    /// The key scheme, where one is named.
    pub scheme: Option<String>,
    /// The seed in hexadecimal; empty for a watch-only entry.
    pub seed_hex: String,
}

/// An entry that can sign.
pub struct Signer {
    /// What the operator calls it.
    pub label: String,
    /// The scheme its seed derives a key under.
    pub scheme: KeyScheme,
    /// Its seed.
    pub seed: [u8; 32],
}

/// The scheme of an entry, where it is a known one.
pub open spec fn scheme_of(e: StoreEntry) -> Option<KeyScheme> {
    match e.scheme {
        None => Some(KeyScheme::Ed25519),
        Some(s) => if s@ == "ed25519"@ {
            Some(KeyScheme::Ed25519)
        } else if s@ == "hybrid65"@ {
            Some(KeyScheme::Hybrid65)
        } else {
            None
        },
    }
}

/// What an entry is called: its label, or its place in the store.
pub open spec fn label_of(e: StoreEntry, index: usize) -> Seq<char> {
    let t = text::trim(e.account@);
    if t.len() == 0 {
        "wallet #"@ + text::decimal(index as nat)
    } else {
        t
    }
}

/// Read the `index`-th entry of a store. `None` for one that cannot sign: watch-only, of
/// an unknown scheme, or without a readable seed.
pub fn read_entry(entry: &StoreEntry, index: usize) -> (r: Option<Signer>)
    ensures
        r is Some <==> scheme_of(*entry) is Some && seed_of(entry.seed_hex@) is Some,
        r matches Some(s) ==> {
            &&& Some(s.scheme) == scheme_of(*entry)
            &&& Some(s.seed@) == seed_of(entry.seed_hex@)
            &&& s.label@ == label_of(*entry, index)
        },
{
    let named: Option<&str> = match &entry.scheme {
        Some(s) => Some(s.as_str()),
        None => None,
    };
    let scheme = match KeyScheme::from_keystore(named) {
        Ok(s) => s,
        Err(_) => {
            return None;
        },
    };
    let seed = match read_seed(entry.seed_hex.as_str()) {
        Some(s) => s,
        None => {
            return None;
        },
    };
    let trimmed = trim_string(entry.account.as_str());
    let label = if same_text(trimmed.as_str(), "") {
        let mut l = owned("wallet #");
        text::push_decimal(&mut l, index as u128);
        l
    } else {
        trimmed
    };
    proof {
        reveal_strlit("");
        assert(text::trim(entry.account@).len() == 0 <==> text::trim(entry.account@) =~= ""@);
    }
    Some(Signer { label, scheme, seed })
}

/// The stores to try, each once: the one the operator named, then the two default ones.
pub open spec fn stores(named: Seq<char>, primary: Seq<char>, backup: Seq<char>) -> Seq<
    Seq<char>,
> {
    let first = text::trim(named);
    let two = if primary == first {
        seq![first]
    } else {
        seq![first, primary]
    };
    if two.contains(backup) {
        two
    } else {
        two.push(backup)
    }
}

/// The texts of some strings.
pub open spec fn views(v: Seq<String>) -> Seq<Seq<char>> {
    v.map_values(|s: String| s@)
}

/// The stores to try.
pub fn candidate_stores(named: &str, primary: &str, backup: &str) -> (r: Vec<String>)
    ensures
        views(r@) == stores(named@, primary@, backup@),
{
    let first = trim_string(named);
    let mut out: Vec<String> = Vec::new();
    let ghost two = if primary@ == first@ {
        seq![first@]
    } else {
        seq![first@, primary@]
    };
    let repeats_first: bool = same_text(primary, first.as_str());
    let known: bool = same_text(backup, first.as_str()) || same_text(backup, primary);
    proof {
        if two.contains(backup@) {
            let i = two.index_of(backup@);
            assert(two[i] == backup@);
        }
        assert(two[0] == first@);
        if primary@ != first@ {
            assert(two[1] == primary@);
        }
        assert(known <==> two.contains(backup@));
    }
    out.push(first);
    if !repeats_first {
        out.push(owned(primary));
    }
    assert(views(out@) =~= two);
    if !known {
        out.push(owned(backup));
        assert(views(out@) =~= two.push(backup@));
    }
    out
}

/// One unlocked, spendable wallet.
#[derive(Debug)]
pub struct Wallet {
    /// What the operator calls it.
    pub label: String,
    /// The account its seed derives.
    pub account: AccountId,
    /// The scheme its seed derives a key under.
    pub scheme: KeyScheme,
    /// Last known liquid balance in grains.
    pub balance_grains: Option<u128>,
    /// Whether this wallet is selected to fire.
    pub fire: bool,
}

/// A wallet by its contents.
pub struct WalletView {
    pub label: Seq<char>,
    pub account: Seq<char>,
    pub scheme: KeyScheme,
    pub balance_grains: Option<u128>,
    pub fire: bool,
}

impl Wallet {
    /// The wallet's contents.
    pub open spec fn view(&self) -> WalletView {
        WalletView {
            label: self.label@,
            account: self.account@,
            scheme: self.scheme,
            balance_grains: self.balance_grains,
            fire: self.fire,
        }
    }
}

/// The wallets of a session, each account once.
#[derive(Debug)]
pub struct Roster {
    wallets: Vec<Wallet>,
}

/// An account is among some wallets.
pub open spec fn holds(w: Seq<WalletView>, account: Seq<char>) -> bool {
    exists|i: int| 0 <= i < w.len() && (#[trigger] w[i]).account == account
}

/// No account occurs twice.
pub open spec fn each_once(w: Seq<WalletView>) -> bool {
    forall|i: int, j: int|
        0 <= i < j < w.len() ==> (#[trigger] w[i]).account != (#[trigger] w[j]).account
}

/// A wallet as it is added: the first one of a session fires by default.
pub open spec fn added(
    w: Seq<WalletView>,
    label: Seq<char>,
    account: Seq<char>,
    scheme: KeyScheme,
) -> Seq<WalletView> {
    if holds(w, account) {
        w
    } else {
        w.push(WalletView { label, account, scheme, balance_grains: None, fire: w.len() == 0 })
    }
}

/// How many of some wallets fire.
pub open spec fn firing(w: Seq<WalletView>) -> nat {
    w.filter(|x: WalletView| x.fire).len()
}

impl Roster {
    /// The wallets.
    pub closed spec fn view(&self) -> Seq<WalletView> {
        self.wallets@.map_values(|w: Wallet| w@)
    }

    /// Every account occurs once.
    pub open spec fn wf(&self) -> bool {
        each_once(self@)
    }

    /// No wallets.
    pub fn new() -> (r: Self)
        ensures
            r@ == Seq::<WalletView>::empty(),
            r.wf(),
    {
        let r = Roster { wallets: Vec::new() };
        assert(r@ =~= Seq::<WalletView>::empty());
        r
    }

    /// How many wallets there are.
    pub fn len(&self) -> (n: usize)
        ensures
            n == self@.len(),
    {
        self.wallets.len()
    }

    /// The `i`-th wallet.
    pub fn get(&self, i: usize) -> (w: &Wallet)
        requires
            i < self@.len(),
        ensures
            w@ == self@[i as int],
    {
        &self.wallets[i]
    }

    /// Add a wallet under the account its seed derives. A duplicate across stores is
    /// refused: nothing changes, and the caller wipes its seed.
    pub fn add(&mut self, label: String, account: AccountId, scheme: KeyScheme) -> (taken: bool)
        requires
            old(self).wf(),
        ensures
            final(self).wf(),
            final(self)@ == added(old(self)@, label@, account@, scheme),
            taken == !holds(old(self)@, account@),
    {
        let ghost before = self@;
        let n: usize = self.wallets.len();
        let mut i: usize = 0;
        while i < n
            invariant
                n == self.wallets@.len(),
                i <= n,
                before == self@,
                each_once(before),
                forall|k: int| 0 <= k < i ==> (#[trigger] before[k]).account != account@,
            decreases n - i,
        {
            assert(before[i as int] == self.wallets@[i as int]@);
            if same_text(self.wallets[i].account.as_str(), account.as_str()) {
                assert(before[i as int].account == account@);
                return false;
            }
            i = i + 1;
        }
        assert(!holds(before, account@));
        let fire: bool = n == 0;
        self.wallets.push(Wallet { label, account, scheme, balance_grains: None, fire });
        assert(self@ =~= added(before, label@, account@, scheme));
        true
    }

    /// Forget every wallet.
    pub fn clear(&mut self)
        ensures
            final(self)@ == Seq::<WalletView>::empty(),
            final(self).wf(),
    {
        self.wallets.clear();
        assert(self@ =~= Seq::<WalletView>::empty());
    }

    /// Select or deselect the `i`-th wallet.
    pub fn select(&mut self, i: usize, fire: bool)
        requires
            old(self).wf(),
            i < old(self)@.len(),
        ensures
            final(self).wf(),
            final(self)@ == old(self)@.update(
                i as int,
                (WalletView { fire, ..old(self)@[i as int] }),
            ),
    {
        let ghost before = self@;
        self.wallets[i].fire = fire;
        assert(self@ =~= before.update(i as int, WalletView { fire, ..before[i as int] }));
    }

    /// Note the `i`-th wallet's balance as the node reports it; `None` where it could not
    /// be read.
    pub fn set_balance(&mut self, i: usize, balance_grains: Option<u128>)
        requires
            old(self).wf(),
            i < old(self)@.len(),
        ensures
            final(self).wf(),
            final(self)@ == old(self)@.update(
                i as int,
                (WalletView { balance_grains, ..old(self)@[i as int] }),
            ),
    {
        let ghost before = self@;
        self.wallets[i].balance_grains = balance_grains;
        assert(self@ =~= before.update(
            i as int,
            WalletView { balance_grains, ..before[i as int] },
        ));
    }

    /// How many wallets are selected to fire.
    pub fn selected_count(&self) -> (n: usize)
        ensures
            n == firing(self@),
    {
        let chosen = self.selected();
        proof {
            lemma_chosen_len(self@, self@.len() as int);
            assert(self@.take(self@.len() as int) =~= self@);
        }
        chosen.len()
    }

    /// The places of the wallets that are selected to fire, in order.
    pub fn selected(&self) -> (r: Vec<usize>)
        ensures
            r@ == chosen(self@, self@.len() as int),
    {
        let mut r: Vec<usize> = Vec::new();
        let n: usize = self.wallets.len();
        let mut i: usize = 0;
        while i < n
            invariant
                n == self.wallets@.len(),
                i <= n,
                r@ == chosen(self@, i as int),
            decreases n - i,
        {
            assert(self@[i as int].fire == self.wallets@[i as int].fire);
            if self.wallets[i].fire {
                r.push(i);
            }
            i = i + 1;
        }
        r
    }

    /// The accounts, in order.
    pub fn accounts(&self) -> (r: Vec<AccountId>)
        ensures
            crate::dest::texts(r@) == accounts_of(self@),
    {
        let mut r: Vec<AccountId> = Vec::new();
        let n: usize = self.wallets.len();
        let mut i: usize = 0;
        while i < n
            invariant
                n == self.wallets@.len(),
                i <= n,
                crate::dest::texts(r@) == accounts_of(self@.take(i as int)),
            decreases n - i,
        {
            assert(self@[i as int].account == self.wallets@[i as int].account@);
            let ghost before = r@;
            r.push(self.wallets[i].account.clone());
            assert(crate::dest::texts(r@) =~= crate::dest::texts(before).push(r@.last()@));
            assert(accounts_of(self@.take(i + 1)) =~= accounts_of(self@.take(i as int)).push(
                self@[i as int].account,
            ));
            i = i + 1;
        }
        assert(self@.take(i as int) =~= self@);
        r
    }
}

/// The accounts of some wallets.
pub open spec fn accounts_of(w: Seq<WalletView>) -> Seq<Seq<char>> {
    w.map_values(|x: WalletView| x.account)
}

/// The places below `n` of the wallets that fire.
pub open spec fn chosen(w: Seq<WalletView>, n: int) -> Seq<usize>
    decreases n,
{
    if n <= 0 {
        Seq::empty()
    } else if w[n - 1].fire {
        chosen(w, n - 1).push((n - 1) as usize)
    } else {
        chosen(w, n - 1)
    }
}

proof fn lemma_chosen_len(w: Seq<WalletView>, n: int)
    requires
        0 <= n <= w.len(),
    ensures
        chosen(w, n).len() == firing(w.take(n)),
    decreases n,
{
    reveal(Seq::filter);
    if n > 0 {
        lemma_chosen_len(w, n - 1);
        assert(w.take(n).drop_last() =~= w.take(n - 1));
        assert(w.take(n).last() == w[n - 1]);
    }
}

/// Unlocking the same seeds again, in any order of stores, adds nothing: an account is
/// merged once, and what is known of it stays.
pub proof fn law_a_duplicate_changes_nothing(
    w: Seq<WalletView>,
    label: Seq<char>,
    account: Seq<char>,
    scheme: KeyScheme,
    other: Seq<char>,
    again: KeyScheme,
)
    ensures
        added(added(w, label, account, scheme), other, account, again) == added(
            w,
            label,
            account,
            scheme,
        ),
        holds(added(w, label, account, scheme), account),
        each_once(w) ==> each_once(added(w, label, account, scheme)),
{
    let a = added(w, label, account, scheme);
    if holds(w, account) {
    } else {
        assert(a[w.len() as int].account == account);
        assert forall|i: int| 0 <= i < w.len() implies (#[trigger] w[i]).account != account by {
        }
    }
}

/// A list of notes as one line.
pub open spec fn joined(notes: Seq<Seq<char>>) -> Seq<char>
    decreases notes.len(),
{
    if notes.len() == 0 {
        Seq::empty()
    } else if notes.len() == 1 {
        notes[0]
    } else {
        joined(notes.drop_last()) + "; "@ + notes.last()
    }
}

fn join(notes: &Vec<String>) -> (s: String)
    ensures
        s@ == joined(views(notes@)),
{
    let ghost all = views(notes@);
    let mut s = String::new();
    let n: usize = notes.len();
    let mut i: usize = 0;
    assert(s@ =~= joined(all.take(0)));
    while i < n
        invariant
            n == notes@.len(),
            all == views(notes@),
            i <= n,
            s@ == joined(all.take(i as int)),
        decreases n - i,
    {
        let ghost before = s@;
        if i > 0 {
            s.append("; ");
        }
        s.append(notes[i].as_str());
        proof {
            let next = all.take(i + 1);
            assert(next.drop_last() =~= all.take(i as int));
            assert(next.last() == notes@[i as int]@);
            if i == 0 {
                assert(before =~= Seq::<char>::empty());
                assert(s@ =~= next[0]);
            } else {
                assert(s@ =~= before + "; "@ + next.last());
            }
        }
        i = i + 1;
    }
    assert(all.take(i as int) =~= all);
    s
}

/// What a store that could not be opened is reported as.
pub fn store_note(store: &str) -> (s: String)
    ensures
        s@ == store@ + ": wrong passphrase / not readable"@,
{
    let mut s = owned(store);
    s.append(": wrong passphrase / not readable");
    s
}

/// The outcome of an unlock, in words.
pub open spec fn unlock_text(wallets: nat, notes: Seq<Seq<char>>) -> Seq<char> {
    if wallets > 0 {
        "unlocked "@ + text::decimal(wallets) + " wallet(s)"@
    } else if notes.len() == 0 {
        "no spendable wallets found (watch-only or empty store)"@
    } else {
        "unlock failed — "@ + joined(notes)
    }
}

/// The outcome of an unlock, in words.
pub fn unlock_message(wallets: usize, notes: &Vec<String>) -> (s: String)
    ensures
        s@ == unlock_text(wallets as nat, views(notes@)),
{
    if wallets > 0 {
        let mut s = owned("unlocked ");
        text::push_decimal(&mut s, wallets as u128);
        s.append(" wallet(s)");
        s
    } else if notes.len() == 0 {
        owned("no spendable wallets found (watch-only or empty store)")
    } else {
        let mut s = owned("unlock failed — ");
        s.append(join(notes).as_str());
        s
    }
}

/// Whether an unlock message reports a problem.
pub fn reports_problem(message: &str) -> (b: bool)
    ensures
        b == (text::contains_text(message@, "failed"@) || text::contains_text(
            message@,
            "no "@,
        )),
{
    let v = text::chars_of(message);
    contains(&v, "failed") || contains(&v, "no ")
}

/// A seed written in hexadecimal reads back byte for byte.
pub proof fn law_a_seed_reads_back(bytes: Seq<u8>)
    requires
        bytes.len() == 32,
    ensures
        seed_of(text::hex_text(bytes)) == Some(bytes),
{
    let t = text::hex_text(bytes);
    text::law_hex_writes_every_byte(bytes, 0);
    assert forall|i: int| 0 <= i < t.len() implies text::is_hex_digit(#[trigger] t[i]) by {
        text::law_hex_writes_every_byte(bytes, i / 2);
        assert(i == 2 * (i / 2) || i == 2 * (i / 2) + 1);
    }
    assert(text::is_hex_digit(t[0]) && text::is_hex_digit(t[63]));
    assert(text::trim(t) == t);
    assert(is_hex(t));
    assert(hex_bytes(t) =~= bytes) by {
        assert forall|i: int| 0 <= i < 32 implies hex_bytes(t)[i] == bytes[i] by {
            text::law_hex_writes_every_byte(bytes, i);
        }
    }
}

/// Nothing but sixty-four hexadecimal digits is a seed, of either case, with white space
/// around them at most.
pub proof fn law_a_seed_is_sixty_four_digits(s: Seq<char>)
    ensures
        seed_of(s) is Some <==> {
            let t = text::trim(s);
            &&& t.len() == 64
            &&& forall|i: int|
                0 <= i < t.len() ==> '0' <= #[trigger] t[i] <= '9' || 'a' <= t[i] <= 'f' || 'A'
                    <= t[i] <= 'F'
        },
{
    let t = text::trim(s);
    if t.len() == 64 && forall|i: int|
        0 <= i < t.len() ==> '0' <= #[trigger] t[i] <= '9' || 'a' <= t[i] <= 'f' || 'A' <= t[i]
            <= 'F' {
        assert forall|i: int| 0 <= i < t.len() implies hex_digit(#[trigger] t[i]) is Some by {
        }
    }
    if seed_of(s) is Some {
        assert forall|i: int| 0 <= i < t.len() implies '0' <= #[trigger] t[i] <= '9' || 'a' <= t[i]
            <= 'f' || 'A' <= t[i] <= 'F' by {
            assert(hex_digit(t[i]) is Some);
        }
    }
}

/// An entry that names no scheme is of the old one, the two known names are what they say,
/// and any other name is unknown.
pub proof fn law_a_scheme_is_the_one_named(e: StoreEntry)
    ensures
        scheme_of(e) == Some(KeyScheme::Ed25519) <==> e.scheme is None || e.scheme->0@
            == "ed25519"@,
        scheme_of(e) == Some(KeyScheme::Hybrid65) <==> e.scheme is Some && e.scheme->0@
            == "hybrid65"@,
{
    reveal_strlit("ed25519");
    reveal_strlit("hybrid65");
    assert("ed25519"@.len() != "hybrid65"@.len());
}

/// A label is shown as it was written, without the white space around it; a blank one is
/// replaced by the place in the store.
pub proof fn law_a_blank_label_is_its_place(e: StoreEntry, index: usize)
    ensures
        text::trim(e.account@).len() > 0 ==> label_of(e, index) == text::trim(e.account@),
        text::trim(e.account@).len() == 0 ==> label_of(e, index) == "wallet #"@ + text::decimal(
            index as nat,
        ),
{
}

/// The named store is tried first, the default ones after it, the primary before the backup,
/// each of the three once, and no other.
pub proof fn law_each_store_is_tried_once(named: Seq<char>, primary: Seq<char>, backup: Seq<char>)
    ensures
        ({
            let s = stores(named, primary, backup);
            &&& s.len() > 0
            &&& s[0] == text::trim(named)
            &&& s.contains(primary)
            &&& s.contains(backup)
            &&& s.no_duplicates()
            &&& forall|i: int|
                0 <= i < s.len() ==> #[trigger] s[i] == text::trim(named) || s[i] == primary
                    || s[i] == backup
            &&& s.len() == 3 ==> s[1] == primary && s[2] == backup
        }),
{
    let first = text::trim(named);
    let s = stores(named, primary, backup);
    let two = if primary == first {
        seq![first]
    } else {
        seq![first, primary]
    };
    assert(two.contains(primary)) by {
        if primary == first {
            assert(two[0] == primary);
        } else {
            assert(two[1] == primary);
        }
    }
    assert(two.no_duplicates());
    if two.contains(backup) {
        assert(s == two);
    } else {
        assert(s == two.push(backup));
        assert(s[two.len() as int] == backup);
        let i = choose|i: int| 0 <= i < two.len() && two[i] == primary;
        assert(s[i] == primary);
        assert forall|i: int, j: int| 0 <= i < s.len() && 0 <= j < s.len() && i != j implies s[i]
            != s[j] by {
            if i < two.len() && j < two.len() {
                assert(s[i] == two[i] && s[j] == two[j]);
            } else if i < two.len() {
                assert(two.contains(two[i]));
            } else {
                assert(two.contains(two[j]));
            }
        }
    }
}

/// A new account goes behind the others, as it was read, with nothing known of its balance;
/// only the first of a session is set to fire.
pub proof fn law_a_new_account_goes_last(
    w: Seq<WalletView>,
    label: Seq<char>,
    account: Seq<char>,
    scheme: KeyScheme,
)
    requires
        forall|i: int| 0 <= i < w.len() ==> (#[trigger] w[i]).account != account,
    ensures
        ({
            let n = added(w, label, account, scheme);
            &&& n.len() == w.len() + 1
            &&& n.take(w.len() as int) == w
            &&& n.last().label == label
            &&& n.last().account == account
            &&& n.last().scheme == scheme
            &&& n.last().balance_grains is None
            &&& n.last().fire <==> w.len() == 0
        }),
{
    assert(!holds(w, account));
    assert(w.push(added(w, label, account, scheme).last()).take(w.len() as int) =~= w);
}

/// The chosen places are those of the wallets that fire, every one of them, in order.
pub proof fn law_the_chosen_are_those_that_fire(w: Seq<WalletView>, n: int)
    requires
        0 <= n <= w.len() <= usize::MAX,
    ensures
        forall|i: int|
            0 <= i < n ==> (w[i].fire <==> #[trigger] chosen(w, n).contains(i as usize)),
        forall|k: int|
            0 <= k < chosen(w, n).len() ==> 0 <= #[trigger] chosen(w, n)[k] < n && w[chosen(
                w,
                n,
            )[k] as int].fire,
        forall|a: int, b: int|
            0 <= a < b < chosen(w, n).len() ==> #[trigger] chosen(w, n)[a] < #[trigger] chosen(
                w,
                n,
            )[b],
    decreases n,
{
    if n > 0 {
        law_the_chosen_are_those_that_fire(w, n - 1);
        let before = chosen(w, n - 1);
        let c = chosen(w, n);
        assert forall|i: int| 0 <= i < n implies (w[i].fire <==> #[trigger] c.contains(
            i as usize,
        )) by {
            if w[n - 1].fire {
                assert(c[before.len() as int] == n - 1);
            }
            if i < n - 1 {
                if before.contains(i as usize) {
                    let k = choose|k: int| 0 <= k < before.len() && before[k] == i as usize;
                    assert(c[k] == i as usize);
                }
                if c.contains(i as usize) {
                    let k = choose|k: int| 0 <= k < c.len() && c[k] == i as usize;
                    assert(k < before.len());
                    assert(before[k] == i as usize);
                }
            } else if c.contains(i as usize) && !w[i].fire {
                let k = choose|k: int| 0 <= k < c.len() && c[k] == i as usize;
                assert(before[k] < n - 1);
            }
        }
    }
}

/// Notes are joined in order, with a separator between two and none around them.
pub proof fn law_notes_are_joined_in_order(notes: Seq<Seq<char>>, last: Seq<char>)
    ensures
        joined(Seq::empty()) == Seq::<char>::empty(),
        joined(seq![last]) == last,
        notes.len() > 0 ==> joined(notes.push(last)) == joined(notes) + "; "@ + last,
{
    assert(notes.push(last).drop_last() =~= notes);
}

/// An unlock that brought a wallet says how many it brought, whatever else went wrong; one
/// that brought none says why where it is known.
pub proof fn law_an_unlock_reports_its_outcome(wallets: nat, notes: Seq<Seq<char>>)
    ensures
        wallets > 0 ==> unlock_text(wallets, notes) == "unlocked "@ + text::decimal(wallets)
            + " wallet(s)"@,
        wallets == 0 && notes.len() > 0 ==> unlock_text(wallets, notes) == "unlock failed — "@
            + joined(notes),
        wallets == 0 && notes.len() == 0 ==> unlock_text(wallets, notes)
            == "no spendable wallets found (watch-only or empty store)"@,
{
}

/// White space around a seed changes nothing.
pub proof fn law_white_space_around_a_seed_is_ignored(s: Seq<char>)
    ensures
        seed_of(s) == seed_of(text::trim(s)),
{
    text::law_trimming_again_takes_nothing(s);
}

} // verus!
