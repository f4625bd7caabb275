# afn

A monitor for cross-chain messaging lanes: it follows the messages sent on a
source chain and the roots committed on the destination chain, votes to bless
the roots it can verify, and votes to curse when it sees an anomaly (a
finality violation, a message executed that was never sent, a message executed
twice).

The library in `src/` is written in Verus: its functions are proved against
their contracts, except the small trusted functions named below, whose
contracts are taken on trust.

- Ethereum basics: `bytes`, `hex`, `u256`, `rlp`, `keccak`, `ecdsa`, `tx`,
  `tx_sender`, `rpc`, `json_rpc` (checking the replies of a batch and
  deciding when a call tries another server).
- Contract ABI: `abi_types`, `abi_encode`, `abi_decode`, and `abi_laws`, which
  proves that decoding an encoding gives the value back.
- The contracts' events and calls: `afn_contract`, `evm2evm_onramp_v1_0`,
  `evm2evm_onramp_v1_2`, `evm2evm_offramp`, `commit_store_*`, `hashable`,
  `merkle`.
- The monitor's state and decisions: `config`, `config_sanity_check`,
  `chain_status`, `chain_status_worker`, `contract_event_state_machine`,
  `lane_bless_status`, `offramp_anomaly_detector`, `curse_beacon`,
  `vote_to_bless_worker`, `vote_to_curse_worker`, `permutation`,
  `inflight_root_cache`, `smart_get_logs`, `cached_rpc`, `state`.
- Keys and keystores: `key_types`, `encryption`.

Calls into other crates (Keccak, secp256k1, OpenSSL, the ChaCha shuffle,
bit sets) and a few std functions (the clock, UTF-8, case mapping) go through
small trusted functions marked `#[verifier::external_body]`. Their contracts
are not proved: each is meant to claim no more than the crate's source shows,
and leaves out the inputs on which the crate panics.

`app/` holds the command line: reading the TOML configuration and the JSON
keystore, and the keystore commands. It has no JSON-RPC transport, so the
`run` command loads the configuration and keys and then stops: the worker
loops whose decision steps the library proves are not run here. `tests/`
holds the tests.
