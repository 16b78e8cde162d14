# Corvus

The decision core of a flash-loan engine for Base Mainnet, written in Verus: what the engine
decides, encodes and counts is stated in contracts and proved. A thin program around it talks to
the node, the wallet and the disk.

## Layout

| Path | Contents |
|---|---|
| `src/double.rs`, `src/double/` | doubles by their IEEE-754 words: order, exact rounding of `+ - * /`, growth laws, bounds of the rounding |
| `src/u256.rs` | unsigned 256-bit integers |
| `src/config.rs`, `src/circuit.rs`, `src/engine.rs` | configuration, circuit breakers, decisions of the main loop |
| `src/monitoring/` | counters and gauges |
| `src/shared/flash_loan.rs`, `src/shared/flash_loan/` | choice of the lender, calldata of every strategy |
| `src/shared/rate_feed.rs` | lending rates of Aave and Morpho |
| `src/shared/health_factor.rs`, `src/shared/position_store.rs` | open carries, and how they are kept on disk |
| `src/shared/submission.rs` | nonces, escalation, bundles |
| `src/strategies/` | the five strategies, as steps between questions to the outside |
| `tests/` | tests, many of them against the machine's own doubles and the encoders in use |
| `app/` | the program: node, wallet, HTTP, metrics server, files |

## Reading a strategy

A strategy is an enum of steps. Each step that is not an end says what has to be asked next (a
simulation, a balance, a signature); the answer is handed to the step's method, whose contract says
which step follows. The program only asks and answers.

## Numbers

Prices, rates and thresholds are doubles. The library holds them as `Double`, a 64-bit word with
the value that IEEE 754 gives it, so that formulas are stated and proved down to the last bit.
Powers that are not whole come from the program.

## What is trusted

The contracts of the wrappers around `ethers`, `hex`, `dashmap`, `serde_json` and `zeroize`; each of
them names the function that it calls.
