//! The verified core of SOV TX Cannon, a traffic generator for SOV networks.
//!
//! The cannon fires signed transfers from wallets its operator unlocks, paces them, keeps
//! every account's nonces free of gaps, follows what was submitted into the chain, and
//! measures what the mempool and the blockspace auction made of it. Everything it decides
//! is here, as functions from plain values to plain values with contracts; windows, threads,
//! clocks, the node's RPC and the chain's signing are the application's.
//!
//! * Firing: [`nonce`], [`rng`], [`dest`], [`amounts`], [`transfer`], [`worker`], [`pacer`],
//!   [`heartbeat`].
//! * Reading the node: [`reject`], [`json`], [`meter`], [`status`].
//! * Following transactions into blocks: [`digest`], [`histogram`], [`ledger`], [`confirm`],
//!   with its laws in [`tracker_laws`], [`event_laws`] and [`retention_laws`].
//! * The blockspace auction: [`auction`], and the two-sided experiment on it in [`duel`] and
//!   [`race`].
//! * Mixed actions and adversarial traffic: [`actionmix`], [`adversary`], [`redteam`].
//! * Setting up and showing a run: [`keystore`], [`setup`], [`panel`], [`present`], [`xus`].
//! * The chain's values as the core holds them: [`chain`].
//! * What the rest is built on: [`text`], [`quote`], [`sorting`], [`idmap`], [`double`].
//!
//! Properties that span functions are public proof functions whose names start with `law_`.

pub mod actionmix;
pub mod adversary;
pub mod amounts;
pub mod auction;
pub mod chain;
pub mod confirm;
pub mod dest;
pub mod digest;
pub mod double;
pub mod duel;
pub mod event_laws;
pub mod heartbeat;
pub mod histogram;
pub mod idmap;
pub mod json;
pub mod keystore;
pub mod ledger;
pub mod meter;
pub mod nonce;
pub mod pacer;
pub mod panel;
pub mod present;
pub mod quote;
pub mod race;
pub mod redteam;
pub mod reject;
pub mod retention_laws;
pub mod rng;
pub mod setup;
pub mod sorting;
pub mod status;
pub mod text;
pub mod tracker_laws;
pub mod transfer;
pub mod worker;
pub mod xus;
