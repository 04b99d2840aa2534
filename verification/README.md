# SOV TX Cannon

A desktop tool that generates real transaction traffic on a SOV network. It unlocks wallets
from a SOV-Station keystore, watches the chain's tip over JSON-RPC, and fires signed transfers
at a rate the operator chooses: a number on each block, a steady rate, or as fast as the
mempool allows.

**It spends real XUS.** Point it at a test network unless you mean otherwise.

## Layout

- `src/` is the core, written in Verus. It holds every decision the tool makes — nonces,
  pacing, tips, reject handling, confirmation tracking, the auction experiment, the red-team
  battery, parsing and display of amounts — each with a contract that Verus proves. What holds
  across functions is stated by the proof functions whose names start with `law_`.
- `tests/` runs the core on concrete values.
- `app/` is the program around it: the window, the threads and clocks, the keystore file, the
  node's RPC, and the chain's own crates for keys and signing. Readings that are
  floating-point numbers are computed there too.

## What is trusted

Verus proves the core against the contracts of five items it does not look into:

| Item | Calls | What is believed |
| --- | --- | --- |
| `keystore::decode_hex` | `hex::decode` | which texts decode, and to which bytes |
| `rng::entropy` | `getrandom::getrandom` | nothing of the bytes it gives |
| `quote::quote` | `{:?}` of a string | the text is a function of the string alone |
| `String::push` | std | it appends the character |
| `std::slice::from_ref` | std | it gives a slice of the one element |

The chain's crates (`sov-crypto`, `sov-primitives`, `sov-rpc`, `sov-types`) are pinned to a
release of the chain and are used by `app/` alone; the core never signs and never sees the
network.
