//! Seeds, store entries and the roster of unlocked wallets.

use sov_tx_cannon::chain::AccountId;
use sov_tx_cannon::keystore::{
    candidate_stores, read_entry, read_seed, reports_problem, store_note, unlock_message,
    wipe_vec, Roster, StoreEntry,
};
use sov_tx_cannon::transfer::KeyScheme;

fn entry(account: &str, scheme: Option<&str>, seed_hex: &str) -> StoreEntry {
    StoreEntry {
        account: account.to_string(),
        scheme: scheme.map(|s| s.to_string()),
        seed_hex: seed_hex.to_string(),
    }
}

fn acct(name: &str) -> AccountId {
    AccountId::new(name.to_string())
}

#[test]
fn a_seed_is_thirty_two_bytes_of_hexadecimal() {
    let mut expected = [0u8; 32];
    for (i, b) in expected.iter_mut().enumerate() {
        *b = i as u8 * 7;
    }
    let hex: String = expected.iter().map(|b| format!("{b:02x}")).collect();
    assert_eq!(read_seed(&hex), Some(expected));
    assert_eq!(read_seed(&hex.to_uppercase()), Some(expected));
    assert_eq!(read_seed(&format!("  {hex}\n")), Some(expected));
    assert_eq!(read_seed(&"0f".repeat(32)), Some([0x0f; 32]));
    // Too short, too long, odd, not hexadecimal, empty.
    assert_eq!(read_seed(&"0f".repeat(31)), None);
    assert_eq!(read_seed(&"0f".repeat(33)), None);
    assert_eq!(read_seed(&"0".repeat(63)), None);
    assert_eq!(read_seed(&"0g".repeat(32)), None);
    assert_eq!(read_seed(&"é0".repeat(32)), None);
    assert_eq!(read_seed(""), None);
}

#[test]
fn only_an_entry_that_can_sign_is_read() {
    let seed = "ab".repeat(32);
    let s = read_entry(&entry(" main ", Some("hybrid65"), &seed), 4).unwrap();
    assert_eq!(s.label, "main");
    assert_eq!(s.scheme, KeyScheme::Hybrid65);
    assert_eq!(s.seed, [0xab; 32]);
    // An absent scheme is the classical one, and a nameless entry goes by its place.
    let s = read_entry(&entry("   ", None, &seed), 4).unwrap();
    assert_eq!(s.label, "wallet #4");
    assert_eq!(s.scheme, KeyScheme::Ed25519);
    // Watch-only, unknown scheme, unreadable seed.
    assert!(read_entry(&entry("w", None, "  "), 0).is_none());
    assert!(read_entry(&entry("w", Some("dilithium"), &seed), 0).is_none());
    assert!(read_entry(&entry("w", None, "zz"), 0).is_none());
}

#[test]
fn each_store_is_tried_once_and_the_named_one_first() {
    assert_eq!(
        candidate_stores(" /a ", "/b", "/c"),
        vec!["/a".to_string(), "/b".to_string(), "/c".to_string()]
    );
    assert_eq!(
        candidate_stores("/b", "/b", "/c"),
        vec!["/b".to_string(), "/c".to_string()]
    );
    assert_eq!(
        candidate_stores("/c", "/b", "/c"),
        vec!["/c".to_string(), "/b".to_string()]
    );
    assert_eq!(candidate_stores("/b", "/b", "/b"), vec!["/b".to_string()]);
}

#[test]
fn an_account_is_merged_once_and_the_first_wallet_fires() {
    let mut r = Roster::new();
    assert!(r.add("one".to_string(), acct("a.sov"), KeyScheme::Ed25519));
    assert!(r.add("two".to_string(), acct("b.sov"), KeyScheme::Hybrid65));
    // The same account from a second store, under another label.
    assert!(!r.add("again".to_string(), acct("a.sov"), KeyScheme::Hybrid65));
    assert_eq!(r.len(), 2);
    assert_eq!(r.get(0).label, "one");
    assert!(r.get(0).fire);
    assert!(!r.get(1).fire);
    assert_eq!(r.selected(), vec![0]);
    r.select(1, true);
    assert_eq!(r.selected(), vec![0, 1]);
    r.select(0, false);
    assert_eq!(r.selected_count(), 1);
    r.set_balance(1, Some(77));
    assert_eq!(r.get(1).balance_grains, Some(77));
    let accounts: Vec<String> = r.accounts().iter().map(|a| a.as_str().to_string()).collect();
    assert_eq!(accounts, vec!["a.sov", "b.sov"]);
    r.clear();
    assert_eq!(r.len(), 0);
}

#[test]
fn an_unlock_says_what_came_of_it() {
    assert_eq!(unlock_message(2, &vec![]), "unlocked 2 wallet(s)");
    let none = unlock_message(0, &vec![]);
    assert_eq!(none, "no spendable wallets found (watch-only or empty store)");
    assert!(reports_problem(&none));
    let notes = vec![store_note("wallets.auto"), store_note("wallets.keystore")];
    let failed = unlock_message(0, &notes);
    assert_eq!(
        failed,
        "unlock failed — wallets.auto: wrong passphrase / not readable; \
         wallets.keystore: wrong passphrase / not readable"
    );
    assert!(reports_problem(&failed));
    assert!(!reports_problem("unlocked 2 wallet(s)"));
    // What was merged counts, whatever else failed.
    assert_eq!(unlock_message(1, &notes), "unlocked 1 wallet(s)");
}

#[test]
fn a_wiped_vector_is_empty() {
    let mut v = vec![1, 2, 3];
    wipe_vec(&mut v);
    assert!(v.is_empty());
}
