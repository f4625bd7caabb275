use vstd::prelude::*;
use crate::bytes::{Address, Bytes};
use crate::ecdsa::{EthereumSignature, EthereumSigner};
use crate::rlp::RlpEncodable;
use crate::tx::{Eip1559Transaction, Eip1559TransactionRequest, LegacyTransaction, LegacyTransactionRequest};
use crate::u256::U256;

verus! {

/// A fee in one of the units of ether.
#[derive(Debug, PartialEq, Eq, Clone, Copy, Structural)]
pub enum FeeUnit {
    Wei(u64),
    Kwei(u64),
    Mwei(u64),
    Gwei(u64),
}

/// The fee in wei.
pub open spec fn fee_unit_wei(f: FeeUnit) -> nat {
    match f {
        FeeUnit::Wei(n) => n as nat,
        FeeUnit::Kwei(n) => n as nat * 1_000,
        FeeUnit::Mwei(n) => n as nat * 1_000_000,
        FeeUnit::Gwei(n) => n as nat * 1_000_000_000,
    }
}

impl FeeUnit {
    /// The fee in wei.
    pub fn to_wei(self) -> (r: U256)
        ensures
            r.value() == fee_unit_wei(self),
    {
        match self {
            FeeUnit::Wei(n) => U256::new(n as u128),
            FeeUnit::Kwei(n) => U256::new(n as u128 * 1_000),
            FeeUnit::Mwei(n) => U256::new(n as u128 * 1_000_000),
            FeeUnit::Gwei(n) => U256::new(n as u128 * 1_000_000_000),
        }
    }
}

/// How a transaction sender prices its transactions.
#[derive(Clone, Copy, Debug, PartialEq, Eq, Structural)]
pub enum TransactionSenderFeeConfig {
    Eip1559 { max_fee_per_gas: FeeUnit, max_priority_fee_per_gas: FeeUnit },
    Legacy { gas_price: FeeUnit },
}

/// A transaction to send: its gas limit, recipient, value and data.
#[derive(Clone, Debug)]
pub struct TransactionRequest {
    pub gas: u64,
    pub to: Address,
    pub value: U256,
    pub data: Bytes,
}

/// How long, in milliseconds, sending a transaction may keep retrying.
pub const MAX_BLOCKING_TIME_MILLIS: u64 = 120_000u64;

/// How long, in milliseconds, the latest transaction count may stay the same
/// before the next nonce is read from the chain again.
pub const LATEST_TRANSACTION_COUNT_STALL_THRESHOLD_MILLIS: u64 = 20_000u64;

/// How many sent transactions may wait to be included before sending more.
pub const MAX_TXS_INFLIGHT: u64 = 16u64;

/// How much, in percent, the gas limit exceeds the node's estimate.
pub const ETH_ESTIMATEGAS_OVERESTIMATE_PERCENT: u64 = 10u64;

/// What a sender remembers between transactions: the latest transaction
/// count it saw with the time it first saw it, and the next nonce to use.
pub struct TransactionSender {
    pub chain_id: u64,
    pub fee_config: TransactionSenderFeeConfig,
    pub previous_transaction_count_with_timestamp: Option<(u64, u64)>,
    pub nonce: Option<u64>,
}

/// The tracking of the latest transaction count and the remembered nonce,
/// after seeing `latest` at `now`: a count that went back, or stayed the same
/// too long, forgets the nonce; a count that moved on is tracked afresh.
pub open spec fn tracking_after(
    prev: Option<(u64, u64)>,
    nonce: Option<u64>,
    latest: u64,
    now: u64,
) -> (Option<(u64, u64)>, Option<u64>) {
    let (prev1, nonce1): (Option<(u64, u64)>, Option<u64>) = match prev {
        Some((count, since)) => if count > latest || (count == latest && now - since
            > LATEST_TRANSACTION_COUNT_STALL_THRESHOLD_MILLIS) {
            (None, None)
        } else if count < latest {
            (None, nonce)
        } else {
            (prev, nonce)
        },
        None => (None, nonce),
    };
    match prev1 {
        None => (Some((latest, now)), nonce1),
        Some(p) => (Some(p), nonce1),
    }
}

/// The nonce to send with, after the tracking is updated: the remembered
/// one unless too many transactions are in flight (then none, and the send
/// is retried), or the latest transaction count when none is remembered.
pub open spec fn nonce_choice(nonce: Option<u64>, latest: u64, pending: u64) -> Option<u64> {
    match nonce {
        Some(n) => if pending - latest > MAX_TXS_INFLIGHT {
            None
        } else {
            Some(n)
        },
        None => Some(latest),
    }
}

/// The gas limit to send with: the node's estimate raised by the
/// overestimate, but not below what the request asks.
pub open spec fn gas_limit_spec(estimate: u64, requested: u64) -> u64 {
    let raised: u64 = if estimate * (100 + ETH_ESTIMATEGAS_OVERESTIMATE_PERCENT) > u64::MAX {
        (u64::MAX / 100) as u64
    } else {
        (estimate * (100 + ETH_ESTIMATEGAS_OVERESTIMATE_PERCENT) / 100) as u64
    };
    if raised >= requested {
        raised
    } else {
        requested
    }
}

impl TransactionSender {
    /// A sender that remembers nothing yet.
    pub fn new(chain_id: u64, fee_config: TransactionSenderFeeConfig) -> (r: TransactionSender)
        ensures
            r.chain_id == chain_id,
            r.fee_config == fee_config,
            r.previous_transaction_count_with_timestamp is None,
            r.nonce is None,
    {
        TransactionSender { chain_id, fee_config, previous_transaction_count_with_timestamp: None, nonce: None }
    }

    /// Whether a failed attempt that began sending `elapsed_millis` ago may
    /// be retried.
    pub fn can_retry(elapsed_millis: u64) -> (r: bool)
        ensures
            r == (elapsed_millis < MAX_BLOCKING_TIME_MILLIS),
    {
        elapsed_millis < MAX_BLOCKING_TIME_MILLIS
    }

    /// Given the latest and the pending transaction counts of the sender's
    /// account seen at `now` (milliseconds), updates the tracking and gives
    /// the nonce to send with; `None` means: too many transactions are in
    /// flight, try again.
    pub fn choose_nonce(&mut self, latest: u64, pending: u64, now: u64) -> (r: Option<u64>)
        ensures
            final(self).chain_id == old(self).chain_id,
            final(self).fee_config == old(self).fee_config,
            (final(self).previous_transaction_count_with_timestamp, final(self).nonce) == tracking_after(
                old(self).previous_transaction_count_with_timestamp,
                old(self).nonce,
                latest,
                now,
            ),
            r == nonce_choice(final(self).nonce, latest, pending),
    {
        if let Some((count, since)) = self.previous_transaction_count_with_timestamp {
            if count > latest || (count == latest && now.saturating_sub(since)
                > LATEST_TRANSACTION_COUNT_STALL_THRESHOLD_MILLIS) {
                self.nonce = None;
                self.previous_transaction_count_with_timestamp = None;
            } else if count < latest {
                self.previous_transaction_count_with_timestamp = None;
            }
        }
        if self.previous_transaction_count_with_timestamp.is_none() {
            self.previous_transaction_count_with_timestamp = Some((latest, now));
        }
        let txs_inflight = pending.saturating_sub(latest);
        match self.nonce {
            Some(n) => {
                if txs_inflight > MAX_TXS_INFLIGHT {
                    None
                } else {
                    Some(n)
                }
            },
            None => Some(latest),
        }
    }

    /// The gas limit for a request whose gas the node estimated.
    pub fn gas_limit(estimate: u64, requested: u64) -> (r: u64)
        ensures
            r == gas_limit_spec(estimate, requested),
    {
        let raised = match estimate.checked_mul(100 + ETH_ESTIMATEGAS_OVERESTIMATE_PERCENT) {
            Some(p) => p / 100,
            None => u64::MAX / 100,
        };
        if raised >= requested {
            raised
        } else {
            requested
        }
    }

    /// The signed transaction, as bytes to send, of a request with the given
    /// nonce and gas limit, priced by the sender's fee configuration.
    pub fn signed_transaction<S: EthereumSigner>(
        &self,
        signer: &S,
        tx_req: &TransactionRequest,
        nonce: u64,
        gas: u64,
    ) -> (r: Vec<u8>)
        requires
            self.fee_config is Legacy ==> self.chain_id * 2 + 36 <= u64::MAX,
        ensures
            match self.fee_config {
                TransactionSenderFeeConfig::Eip1559 { max_fee_per_gas, max_priority_fee_per_gas } => exists|
                    tx: Eip1559Transaction,
                |
                    #![trigger tx.rlp_spec()]
                    {
                        &&& tx.req.chain_id == self.chain_id
                        &&& tx.req.nonce.value() == nonce
                        &&& tx.req.max_priority_fee_per_gas.value() == fee_unit_wei(max_priority_fee_per_gas)
                        &&& tx.req.max_fee_per_gas.value() == fee_unit_wei(max_fee_per_gas)
                        &&& tx.req.gas.value() == gas
                        &&& tx.req.to == tx_req.to
                        &&& tx.req.value == tx_req.value
                        &&& tx.req.data@ == tx_req.data@
                        &&& tx.req.access_list@.len() == 0
                        &&& signer.is_signature_for(tx.req.signing_hash_spec(), tx.sig)
                        &&& r@ == tx.rlp_spec()
                    },
                TransactionSenderFeeConfig::Legacy { gas_price } => exists|tx: LegacyTransaction|
                    #![trigger tx.rlp_spec()]
                    {
                        &&& tx.req.chain_id == self.chain_id
                        &&& tx.req.nonce.value() == nonce
                        &&& tx.req.gas_price.value() == fee_unit_wei(gas_price)
                        &&& tx.req.gas.value() == gas
                        &&& tx.req.to == tx_req.to
                        &&& tx.req.value == tx_req.value
                        &&& tx.req.data@ == tx_req.data@
                        &&& signer.is_signature_for(tx.req.signing_hash_spec(), tx.sig)
                        &&& r@ == tx.rlp_spec()
                    },
            },
    {
        match self.fee_config {
            TransactionSenderFeeConfig::Eip1559 { max_fee_per_gas, max_priority_fee_per_gas } => {
                let req = Eip1559TransactionRequest {
                    chain_id: self.chain_id,
                    access_list: Vec::new(),
                    data: tx_req.data.clone(),
                    gas: U256::new(gas as u128),
                    max_fee_per_gas: max_fee_per_gas.to_wei(),
                    max_priority_fee_per_gas: max_priority_fee_per_gas.to_wei(),
                    nonce: U256::new(nonce as u128),
                    to: tx_req.to,
                    value: tx_req.value,
                };
                let tx = req.sign(signer);
                let bytes = tx.to_rlp_bytes();
                proof {
                    assert(tx.req.access_list@ =~= req.access_list@);
                    assert(tx.req.signing_hash_spec() == req.signing_hash_spec());
                }
                bytes
            },
            TransactionSenderFeeConfig::Legacy { gas_price } => {
                let req = LegacyTransactionRequest {
                    chain_id: self.chain_id,
                    data: tx_req.data.clone(),
                    gas: U256::new(gas as u128),
                    gas_price: gas_price.to_wei(),
                    nonce: U256::new(nonce as u128),
                    to: tx_req.to,
                    value: tx_req.value,
                };
                let tx = req.sign(signer);
                proof {
                    assert(tx.req.signing_hash_spec() == req.signing_hash_spec());
                }
                tx.to_rlp_bytes()
            },
        }
    }

    /// After a transaction with `nonce` was accepted: the next one uses the
    /// nonce after it.
    pub fn after_sent(&mut self, nonce: u64)
        requires
            nonce < u64::MAX,
        ensures
            final(self).nonce == Some((nonce + 1) as u64),
            final(self).chain_id == old(self).chain_id,
            final(self).fee_config == old(self).fee_config,
            final(self).previous_transaction_count_with_timestamp == old(
                self,
            ).previous_transaction_count_with_timestamp,
    {
        self.nonce = Some(nonce + 1);
    }

    /// After the node refused a transaction in a way worth retrying: the
    /// next attempt uses the pending transaction count as nonce.
    pub fn after_refused(&mut self, pending: u64)
        ensures
            final(self).nonce == Some(pending),
            final(self).chain_id == old(self).chain_id,
            final(self).fee_config == old(self).fee_config,
            final(self).previous_transaction_count_with_timestamp == old(
                self,
            ).previous_transaction_count_with_timestamp,
    {
        self.nonce = Some(pending);
    }
}

} // verus!
