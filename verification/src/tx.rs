use crate::bytes::{prepend, Address, Bytes, Bytes32};
use crate::ecdsa::{EthereumSignature, EthereumSigner, legacy_v};
use crate::keccak::{keccak256, keccak256_spec};
use crate::rlp::{rlp_list_spec, RlpEncodable, RlpStream};
use crate::u256::U256;
use vstd::prelude::*;

verus! {

/// The type byte that leads an EIP-1559 transaction.
pub const EIP_1559_TX_TYPE: u8 = 2u8;

/// An entry of an EIP-2930 access list: an address and the storage slots of
/// it that a transaction touches.
pub struct AccessListRecord {
    pub address: Address,
    pub storage_keys: Vec<Bytes32>,
}

impl View for AccessListRecord {
    type V = (Seq<u8>, Seq<Seq<u8>>);

    open spec fn view(&self) -> (Seq<u8>, Seq<Seq<u8>>) {
        (self.address@, self.storage_keys@.map_values(|k: Bytes32| k@))
    }
}

fn copy_keys(keys: &Vec<Bytes32>) -> (r: Vec<Bytes32>)
    ensures
        r@ == keys@,
{
    let mut out: Vec<Bytes32> = Vec::new();
    let mut i: usize = 0;
    while i < keys.len()
        invariant
            i <= keys@.len(),
            out@ == keys@.subrange(0, i as int),
        decreases keys@.len() - i,
    {
        let k: Bytes32 = keys[i];
        out.push(k);
        i = i + 1;
        assert(out@ =~= keys@.subrange(0, i as int));
    }
    assert(out@ =~= keys@);
    out
}

impl Clone for AccessListRecord {
    fn clone(&self) -> (r: Self)
        ensures
            r.address == self.address,
            r.storage_keys@ == self.storage_keys@,
    {
        AccessListRecord { address: self.address, storage_keys: copy_keys(&self.storage_keys) }
    }
}

impl RlpEncodable for AccessListRecord {
    open spec fn rlp_spec(&self) -> Seq<u8> {
        rlp_list_spec(self.address.rlp_spec() + self.storage_keys.rlp_spec())
    }

    fn to_rlp_bytes(&self) -> (r: Vec<u8>) {
        let mut rlp = RlpStream::new();
        rlp.push(&self.address);
        rlp.push(&self.storage_keys);
        rlp.finalize_with_length_prefix()
    }
}

fn copy_access_list(list: &Vec<AccessListRecord>) -> (r: Vec<AccessListRecord>)
    ensures
        r@.len() == list@.len(),
        forall|i: int|
            0 <= i < list@.len() ==> #[trigger] r@[i].address == list@[i].address
                && r@[i].storage_keys@ == list@[i].storage_keys@,
{
    let mut out: Vec<AccessListRecord> = Vec::new();
    let mut i: usize = 0;
    while i < list.len()
        invariant
            i <= list@.len(),
            out@.len() == i,
            forall|j: int|
                0 <= j < i ==> #[trigger] out@[j].address == list@[j].address
                    && out@[j].storage_keys@ == list@[j].storage_keys@,
        decreases list@.len() - i,
    {
        out.push(list[i].clone());
        i = i + 1;
    }
    out
}

/// An EIP-1559 (type 2) transaction before it is signed.
pub struct Eip1559TransactionRequest {
    pub chain_id: u64,
    pub nonce: U256,
    pub max_priority_fee_per_gas: U256,
    pub max_fee_per_gas: U256,
    pub gas: U256,
    pub to: Address,
    pub value: U256,
    pub data: Bytes,
    pub access_list: Vec<AccessListRecord>,
}

impl Eip1559TransactionRequest {
    /// Whether two requests have the same fields.
    pub open spec fn same_as(&self, other: &Self) -> bool {
        &&& self.chain_id == other.chain_id
        &&& self.nonce == other.nonce
        &&& self.max_priority_fee_per_gas == other.max_priority_fee_per_gas
        &&& self.max_fee_per_gas == other.max_fee_per_gas
        &&& self.gas == other.gas
        &&& self.to == other.to
        &&& self.value == other.value
        &&& self.data@ == other.data@
        &&& self.access_list@.len() == other.access_list@.len()
        &&& forall|i: int|
            0 <= i < self.access_list@.len() ==> #[trigger] self.access_list@[i].address
                == other.access_list@[i].address && self.access_list@[i].storage_keys@
                == other.access_list@[i].storage_keys@
    }

    /// The digest that is signed: Keccak-256 of the type byte followed by the
    /// RLP list of the fields.
    pub open spec fn signing_hash_spec(&self) -> Seq<u8> {
        keccak256_spec(seq![EIP_1559_TX_TYPE] + rlp_list_spec(self.rlp_spec()))
    }
}

impl Clone for Eip1559TransactionRequest {
    fn clone(&self) -> (r: Self)
        ensures
            r.same_as(self),
    {
        Eip1559TransactionRequest {
            chain_id: self.chain_id,
            nonce: self.nonce,
            max_priority_fee_per_gas: self.max_priority_fee_per_gas,
            max_fee_per_gas: self.max_fee_per_gas,
            gas: self.gas,
            to: self.to,
            value: self.value,
            data: self.data.clone(),
            access_list: copy_access_list(&self.access_list),
        }
    }
}

/// A signed EIP-1559 transaction.
pub struct Eip1559Transaction {
    pub req: Eip1559TransactionRequest,
    pub sig: EthereumSignature,
}

impl RlpEncodable for Eip1559TransactionRequest {
    open spec fn rlp_spec(&self) -> Seq<u8> {
        self.chain_id.rlp_spec() + self.nonce.rlp_spec() + self.max_priority_fee_per_gas.rlp_spec()
            + self.max_fee_per_gas.rlp_spec() + self.gas.rlp_spec() + self.to.rlp_spec()
            + self.value.rlp_spec() + self.data.rlp_spec() + self.access_list.rlp_spec()
    }

    fn to_rlp_bytes(&self) -> (r: Vec<u8>) {
        let mut rlp = RlpStream::new();
        rlp.push(&self.chain_id);
        rlp.push(&self.nonce);
        rlp.push(&self.max_priority_fee_per_gas);
        rlp.push(&self.max_fee_per_gas);
        rlp.push(&self.gas);
        rlp.push(&self.to);
        rlp.push(&self.value);
        rlp.push(&self.data);
        rlp.push(&self.access_list);
        rlp.finalize_without_length_prefix()
    }
}

impl Eip1559TransactionRequest {
    /// The digest that is signed for the request.
    pub fn to_signing_hash(&self) -> (r: [u8; 32])
        ensures
            r@ == self.signing_hash_spec(),
    {
        let mut rlp = RlpStream::new();
        rlp.extend(self.to_rlp_bytes().as_slice());
        keccak256(prepend(EIP_1559_TX_TYPE, rlp.finalize_with_length_prefix().as_slice()).as_slice())
    }

    /// Signs the request.
    pub fn sign<S: EthereumSigner>(&self, signer: &S) -> (r: Eip1559Transaction)
        ensures
            r.req.same_as(self),
            signer.is_signature_for(self.signing_hash_spec(), r.sig),
    {
        let sig = signer.sign_hashed(self.to_signing_hash());
        Eip1559Transaction { req: self.clone(), sig }
    }
}

impl Eip1559Transaction {
    /// The bytes that are sent: the type byte, then the RLP list of the
    /// request's fields and the signature's.
    pub open spec fn rlp_spec(&self) -> Seq<u8> {
        seq![EIP_1559_TX_TYPE] + rlp_list_spec(self.req.rlp_spec() + self.sig.rlp_spec())
    }

    /// Encodes the signed transaction.
    pub fn to_rlp_bytes(&self) -> (r: Vec<u8>)
        ensures
            r@ == self.rlp_spec(),
    {
        let mut rlp = RlpStream::new();
        rlp.push(&self.req);
        rlp.push(&self.sig);
        prepend(EIP_1559_TX_TYPE, rlp.finalize_with_length_prefix().as_slice())
    }
}

/// A legacy (EIP-155) transaction before it is signed.
pub struct LegacyTransactionRequest {
    pub chain_id: u64,
    pub nonce: U256,
    pub gas_price: U256,
    pub gas: U256,
    pub to: Address,
    pub value: U256,
    pub data: Bytes,
}

impl LegacyTransactionRequest {
    /// Whether two requests have the same fields.
    pub open spec fn same_as(&self, other: &Self) -> bool {
        &&& self.chain_id == other.chain_id
        &&& self.nonce == other.nonce
        &&& self.gas_price == other.gas_price
        &&& self.gas == other.gas
        &&& self.to == other.to
        &&& self.value == other.value
        &&& self.data@ == other.data@
    }

    /// The digest that is signed: Keccak-256 of the RLP list of the fields,
    /// the chain id and two zeros.
    pub open spec fn signing_hash_spec(&self) -> Seq<u8> {
        keccak256_spec(
            rlp_list_spec(
                self.rlp_spec() + self.chain_id.rlp_spec() + U256 { hi: 0, lo: 0 }.rlp_spec()
                    + U256 { hi: 0, lo: 0 }.rlp_spec(),
            ),
        )
    }
}

impl Clone for LegacyTransactionRequest {
    fn clone(&self) -> (r: Self)
        ensures
            r.same_as(self),
    {
        LegacyTransactionRequest {
            chain_id: self.chain_id,
            nonce: self.nonce,
            gas_price: self.gas_price,
            gas: self.gas,
            to: self.to,
            value: self.value,
            data: self.data.clone(),
        }
    }
}

impl RlpEncodable for LegacyTransactionRequest {
    open spec fn rlp_spec(&self) -> Seq<u8> {
        self.nonce.rlp_spec() + self.gas_price.rlp_spec() + self.gas.rlp_spec()
            + self.to.rlp_spec() + self.value.rlp_spec() + self.data.rlp_spec()
    }

    fn to_rlp_bytes(&self) -> (r: Vec<u8>) {
        let mut rlp = RlpStream::new();
        rlp.push(&self.nonce);
        rlp.push(&self.gas_price);
        rlp.push(&self.gas);
        rlp.push(&self.to);
        rlp.push(&self.value);
        rlp.push(&self.data);
        rlp.finalize_without_length_prefix()
    }
}

impl LegacyTransactionRequest {
    /// The digest that is signed for the request.
    pub fn to_signing_hash(&self) -> (r: [u8; 32])
        ensures
            r@ == self.signing_hash_spec(),
    {
        let mut rlp = RlpStream::new();
        rlp.extend(self.to_rlp_bytes().as_slice());
        rlp.push(&self.chain_id);
        rlp.push(&U256::new(0));
        rlp.push(&U256::new(0));
        keccak256(rlp.finalize_with_length_prefix().as_slice())
    }

    /// Signs the request.
    pub fn sign<S: EthereumSigner>(&self, signer: &S) -> (r: LegacyTransaction)
        ensures
            r.req.same_as(self),
            signer.is_signature_for(self.signing_hash_spec(), r.sig),
    {
        let sig = signer.sign_hashed(self.to_signing_hash());
        LegacyTransaction { req: self.clone(), sig }
    }
}

/// A signed legacy transaction.
pub struct LegacyTransaction {
    pub req: LegacyTransactionRequest,
    pub sig: EthereumSignature,
}

impl LegacyTransaction {
    /// The bytes that are sent: the RLP list of the request's fields and the
    /// signature, whose recovery value is in the legacy form for the chain.
    pub open spec fn rlp_spec(&self) -> Seq<u8> {
        let v = legacy_v(self.sig.v.value(), self.req.chain_id as nat);
        rlp_list_spec(
            self.req.rlp_spec() + crate::rlp::rlp_bytes_spec(crate::rlp::be_minimal(v))
                + self.sig.r.rlp_spec() + self.sig.s.rlp_spec(),
        )
    }

    /// Encodes the signed transaction.
    pub fn to_rlp_bytes(&self) -> (r: Vec<u8>)
        requires
            self.req.chain_id * 2 + 36 <= u64::MAX,
        ensures
            r@ == self.rlp_spec(),
    {
        let mut rlp = RlpStream::new();
        rlp.push(&self.req);
        rlp.push(&self.sig.to_legacy(self.req.chain_id));
        rlp.finalize_with_length_prefix()
    }
}

} // verus!
