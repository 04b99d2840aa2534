//! From the form to a run.

use sov_tx_cannon::amounts::AmountMode;
use sov_tx_cannon::chain::AccountId;
use sov_tx_cannon::dest::DestMode;
use sov_tx_cannon::keystore::Roster;
use sov_tx_cannon::setup::{
    destination_lines, mode_summary, parse_amount_mode, parse_count, parse_dests,
    parse_rate_mode, plan_run, CheckedLine, ModeChoice, RateMode,
};
use sov_tx_cannon::transfer::KeyScheme;

fn acct(name: &str) -> AccountId {
    AccountId::new(name.to_string())
}

fn roster(names: &[&str]) -> Roster {
    let mut r = Roster::new();
    for n in names {
        r.add(format!("wallet {n}"), acct(n), KeyScheme::Hybrid65);
    }
    r
}

fn good(line: usize, name: &str) -> CheckedLine {
    CheckedLine {
        line,
        said: name.to_string(),
        answer: Ok(acct(name)),
    }
}

fn bad(line: usize, name: &str, why: &str) -> CheckedLine {
    CheckedLine {
        line,
        said: name.to_string(),
        answer: Err(why.to_string()),
    }
}

#[test]
fn blank_lines_are_skipped_and_lines_keep_their_numbers() {
    assert_eq!(
        destination_lines("alice.sov\n\n  bob.sov \r\n\t\ncarol.sov"),
        vec![
            (1, "alice.sov".to_string()),
            (3, "bob.sov".to_string()),
            (5, "carol.sov".to_string())
        ]
    );
    assert!(destination_lines("").is_empty());
    assert!(destination_lines("\n \n").is_empty());
}

#[test]
fn every_line_has_to_name_an_account() {
    let none = Roster::new();
    let lines = vec![good(1, "alice.sov"), good(3, "bob.sov")];
    assert_eq!(
        parse_dests(false, &none, &lines).unwrap(),
        vec![acct("alice.sov"), acct("bob.sov")]
    );
    // The first bad line is the one reported.
    let lines = vec![good(1, "alice.sov"), bad(2, "BOB", "upper case"), bad(3, "x", "short")];
    assert_eq!(
        parse_dests(false, &none, &lines).unwrap_err(),
        "line 2: 'BOB' is not a valid account: upper case"
    );
    assert_eq!(
        parse_dests(false, &none, &vec![]).unwrap_err(),
        "add at least one destination address (one per line)"
    );
}

#[test]
fn the_closed_loop_pays_only_our_own_accounts() {
    let own = roster(&["a.sov", "b.sov"]);
    // What is written in the field does not matter.
    let lines = vec![good(1, "stranger.sov")];
    assert_eq!(
        parse_dests(true, &own, &lines).unwrap(),
        vec![acct("a.sov"), acct("b.sov")]
    );
    assert_eq!(
        parse_dests(true, &Roster::new(), &lines).unwrap_err(),
        "unlock your wallets first — recycle sends XUS among your own accounts"
    );
}

#[test]
fn amounts_are_read_and_validated() {
    assert_eq!(
        parse_amount_mode(false, "0.001", "", ""),
        Ok(AmountMode::Fixed(100_000))
    );
    assert_eq!(
        parse_amount_mode(true, "", "0.001", "0.01"),
        Ok(AmountMode::Range {
            min: 100_000,
            max: 1_000_000
        })
    );
    let e = |random, fixed, min, max| parse_amount_mode(random, fixed, min, max).unwrap_err();
    assert_eq!(e(false, "x", "", ""), "amount is not a valid XUS value");
    assert_eq!(e(true, "", "x", "1"), "amount min is not a valid XUS value");
    assert_eq!(e(true, "", "1", "x"), "amount max is not a valid XUS value");
    assert_eq!(e(false, "0", "", ""), "amount must be greater than zero");
    assert_eq!(e(true, "", "2", "1"), "amount max must be ≥ min");
    assert_eq!(e(true, "", "0", "0"), "amount max must be greater than zero");
}

#[test]
fn counts_are_read_as_plain_decimals() {
    assert_eq!(parse_count("7"), Some(7));
    assert_eq!(parse_count(" +42 "), Some(42));
    assert_eq!(parse_count("007"), Some(7));
    assert_eq!(parse_count("4294967295"), Some(u32::MAX));
    assert_eq!(parse_count("4294967296"), None);
    assert_eq!(parse_count("340282366920938463463374607431768211456"), None);
    for s in ["", "+", "-1", "1.0", "1 2", "++1", "٣"] {
        assert_eq!(parse_count(s), None, "{s:?}");
        assert!(s.parse::<u32>().is_err(), "{s:?}");
    }
}

#[test]
fn rates_stay_in_their_bands() {
    assert_eq!(
        parse_rate_mode(ModeChoice::PerBlock, "1", false),
        Ok(RateMode::PerBlock(1))
    );
    assert_eq!(
        parse_rate_mode(ModeChoice::PerBlock, "100", false),
        Ok(RateMode::PerBlock(100))
    );
    for s in ["0", "101", "x"] {
        assert_eq!(
            parse_rate_mode(ModeChoice::PerBlock, s, true).unwrap_err(),
            "per-block rate must be between 1 and 100"
        );
    }
    assert_eq!(
        parse_rate_mode(ModeChoice::TargetTps, "", true),
        Ok(RateMode::TargetTps)
    );
    assert_eq!(
        parse_rate_mode(ModeChoice::TargetTps, "", false).unwrap_err(),
        "target TX/s must be between 0.1 and 500"
    );
    assert_eq!(
        parse_rate_mode(ModeChoice::Firehose, "", false),
        Ok(RateMode::Firehose)
    );
    assert_eq!(mode_summary(ModeChoice::PerBlock, " 5 ", ""), "per block × 5");
    assert_eq!(mode_summary(ModeChoice::TargetTps, "", " 2.5"), "paced 2.5 TX/s");
    assert_eq!(mode_summary(ModeChoice::Firehose, "", ""), "firehose");
}

#[test]
fn a_run_has_one_worker_per_selected_wallet() {
    let mut own = roster(&["a.sov", "b.sov", "c.sov"]);
    own.select(2, true);
    let plan = plan_run(
        &own,
        Ok(vec![acct("sink.sov")]),
        Ok(AmountMode::Fixed(5)),
        Ok(RateMode::Firehose),
        true,
        false,
    )
    .unwrap();
    let workers: Vec<(usize, String, String)> = plan
        .workers
        .iter()
        .map(|w| (w.wallet, w.label.clone(), w.from.as_str().to_string()))
        .collect();
    assert_eq!(
        workers,
        vec![
            (0, "wallet a.sov".to_string(), "a.sov".to_string()),
            (2, "wallet c.sov".to_string(), "c.sov".to_string())
        ]
    );
    assert_eq!(plan.dest_mode, DestMode::Random);
    assert_eq!(plan.amount_mode, AmountMode::Fixed(5));
    assert!(!plan.dry_run);
}

#[test]
fn the_first_thing_wrong_with_a_form_is_reported() {
    let ok_dests = || Ok(vec![acct("sink.sov")]);
    let amount = || Ok(AmountMode::Fixed(5));
    let mode = || Ok(RateMode::Firehose);
    let failed = |own: &Roster, d, a, m| plan_run(own, d, a, m, false, true).unwrap_err();

    assert_eq!(
        failed(&Roster::new(), Err("d".to_string()), amount(), mode()),
        "unlock a wallet first"
    );
    let mut own = roster(&["a.sov"]);
    own.select(0, false);
    assert_eq!(
        failed(&own, Err("d".to_string()), amount(), mode()),
        "select at least one wallet to fire from"
    );
    own.select(0, true);
    let (a, m) = (Err("a".to_string()), Err("m".to_string()));
    assert_eq!(failed(&own, Err("d".to_string()), a, m), "d");
    let (a, m) = (Err("a".to_string()), Err("m".to_string()));
    assert_eq!(failed(&own, ok_dests(), a, m), "a");
    assert_eq!(failed(&own, ok_dests(), amount(), Err("m".to_string())), "m");
}
