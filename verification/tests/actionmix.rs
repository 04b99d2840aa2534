//! The mix of action kinds, and the actions built from a draw.

use sov_tx_cannon::actionmix::{
    build_action, cannon_name, validate_symbol, ActionKind, ActionMix, ActionParams, NameRuling,
    MAX_METADATA_BYTES,
};
use sov_tx_cannon::chain::{AccountId, Action};

fn dest() -> AccountId {
    // A 64-hex implicit id: the shape the cannon actually fires at.
    AccountId::new("ab".repeat(32))
}

fn params(unique: u64) -> ActionParams {
    ActionParams {
        to: dest(),
        amount_grains: 1_000,
        unique,
        symbol: "CANNON".into(),
        metadata_bytes: 0,
    }
}

#[test]
fn an_empty_mix_is_refused() {
    assert!(ActionMix::new(&[]).is_err());
}

#[test]
fn an_all_zero_mix_is_refused_because_nothing_could_ever_be_drawn() {
    let err = ActionMix::new(&[(ActionKind::Transfer, 0), (ActionKind::NftMint, 0)])
        .expect_err("all-zero weights must not build");
    assert!(err.contains("weight"), "unexpected message: {err}");
}

#[test]
fn a_duplicated_kind_is_refused() {
    let err = ActionMix::new(&[(ActionKind::Transfer, 1), (ActionKind::Transfer, 2)])
        .expect_err("a duplicate kind must not build");
    assert!(err.contains("twice"), "unexpected message: {err}");
}

#[test]
fn a_zero_weight_kind_is_never_drawn() {
    let mix = ActionMix::new(&[(ActionKind::Transfer, 3), (ActionKind::NftMint, 0)])
        .expect("mix builds");
    assert_eq!(mix.total_weight(), 3);
    for draw in 0..100u128 {
        assert_eq!(mix.pick(draw), ActionKind::Transfer);
    }
}

#[test]
fn draws_land_in_each_kind_in_proportion_to_its_weight() {
    let mix = ActionMix::new(&[
        (ActionKind::Transfer, 1),
        (ActionKind::TokenIssue, 2),
        (ActionKind::NftMint, 7),
    ])
    .expect("mix builds");
    assert_eq!(mix.total_weight(), 10);
    let mut counts = [0usize; 3];
    for draw in 0..10u128 {
        match mix.pick(draw) {
            ActionKind::Transfer => counts[0] += 1,
            ActionKind::TokenIssue => counts[1] += 1,
            ActionKind::NftMint => counts[2] += 1,
            ActionKind::RegisterName => unreachable!("not in this mix"),
        }
    }
    assert_eq!(counts, [1, 2, 7]);
}

#[test]
fn pick_is_total_for_any_draw_including_the_maximum() {
    let mix = ActionMix::new(&[(ActionKind::Transfer, 1), (ActionKind::NftMint, 1)])
        .expect("mix builds");
    // Must not panic and must return a kind that is actually in the mix.
    for draw in [0u128, 1, u128::MAX / 2, u128::MAX] {
        let k = mix.pick(draw);
        assert!(matches!(k, ActionKind::Transfer | ActionKind::NftMint));
    }
}

#[test]
fn a_single_kind_mix_always_draws_that_kind() {
    let mix = ActionMix::new(&[(ActionKind::TokenIssue, 1)]).expect("mix builds");
    assert_eq!(mix.total_weight(), 1);
    assert_eq!(mix.pick(0), ActionKind::TokenIssue);
    assert_eq!(mix.pick(u128::MAX), ActionKind::TokenIssue);
}

#[test]
fn only_register_name_is_flagged_as_an_extra_xus_cost() {
    for kind in ActionKind::all() {
        assert_eq!(
            kind.has_extra_xus_cost(),
            kind == ActionKind::RegisterName,
            "{} misreports its cost",
            kind.label()
        );
    }
    let mix = ActionMix::new(&[
        (ActionKind::Transfer, 1),
        (ActionKind::RegisterName, 1),
        (ActionKind::NftMint, 1),
    ])
    .expect("mix builds");
    assert_eq!(mix.costly_kinds(), vec![ActionKind::RegisterName]);
}

#[test]
fn every_kind_has_a_distinct_label() {
    let mut labels: Vec<&str> = ActionKind::all().iter().map(|k| k.label()).collect();
    labels.sort_unstable();
    let before = labels.len();
    labels.dedup();
    assert_eq!(labels.len(), before, "labels must be distinct");
}

#[test]
fn symbol_validation_matches_the_chains_one_to_sixteen_alphanumeric_rule() {
    assert!(validate_symbol("A").is_ok());
    assert!(validate_symbol("CANNON1").is_ok());
    assert!(validate_symbol(&"A".repeat(16)).is_ok());
    assert!(validate_symbol("").is_err());
    assert!(validate_symbol(&"A".repeat(17)).is_err());
    assert!(validate_symbol("CAN-NON").is_err());
    assert!(validate_symbol("CANNÖN").is_err());
}

#[test]
fn a_transfer_carries_exactly_the_requested_recipient_and_amount() {
    let p = params(7);
    match build_action(ActionKind::Transfer, &p, "cannon", &NameRuling::Registrable).expect("builds") {
        Action::Transfer { to, amount_grains } => {
            assert_eq!(to, dest());
            assert_eq!(amount_grains, 1_000);
        }
        other => panic!("wrong action: {other:?}"),
    }
}

#[test]
fn a_token_issue_refuses_a_symbol_the_chain_would_reject() {
    let mut p = params(1);
    p.symbol = "not a symbol".into();
    assert!(build_action(ActionKind::TokenIssue, &p, "cannon", &NameRuling::Registrable).is_err());
}

#[test]
fn nft_token_ids_are_distinct_per_draw_so_mints_do_not_collide() {
    let a = build_action(ActionKind::NftMint, &params(1), "cannon", &NameRuling::Registrable).expect("builds");
    let b = build_action(ActionKind::NftMint, &params(2), "cannon", &NameRuling::Registrable).expect("builds");
    let id = |act: &Action| match act {
        Action::NftMint { token_id, .. } => token_id.clone(),
        other => panic!("wrong action: {other:?}"),
    };
    assert_ne!(id(&a), id(&b));
}

#[test]
fn nft_metadata_padding_is_exactly_the_requested_size() {
    let mut p = params(1);
    p.metadata_bytes = 1_024;
    match build_action(ActionKind::NftMint, &p, "cannon", &NameRuling::Registrable).expect("builds") {
        Action::NftMint { metadata, .. } => assert_eq!(metadata.len(), 1_024),
        other => panic!("wrong action: {other:?}"),
    }
}

#[test]
fn oversized_metadata_padding_is_refused_client_side() {
    let mut p = params(1);
    p.metadata_bytes = MAX_METADATA_BYTES + 1;
    assert!(build_action(ActionKind::NftMint, &p, "cannon", &NameRuling::Registrable).is_err());
}

#[test]
fn generated_names_are_registrable_under_the_chains_own_rules() {
    let name = cannon_name("cannon", 42, &NameRuling::Registrable).expect("valid name");
    assert_eq!(name, "cannon42.sov");
}

#[test]
fn generated_names_are_distinct_per_draw() {
    assert_ne!(
        cannon_name("cannon", 1, &NameRuling::Registrable).expect("valid"),
        cannon_name("cannon", 2, &NameRuling::Registrable).expect("valid")
    );
}

#[test]
fn a_bad_name_prefix_is_refused_before_it_can_cost_a_registration_fee() {
    assert!(cannon_name("", 1, &NameRuling::Registrable).is_err());
    assert!(cannon_name("Cannon", 1, &NameRuling::Registrable).is_err());
    assert!(cannon_name("cannon.sov", 1, &NameRuling::Registrable).is_err());
    assert!(cannon_name("cannon-1", 1, &NameRuling::Registrable).is_err());
}
