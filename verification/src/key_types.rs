use crate::bytes::{Address, Bytes32, SizedBytes};
use crate::common::ChainName;
use crate::ecdsa::{
    address_of_public_key_spec, generate_secret_key, is_valid_secret, public_key_spec,
    secret_key_to_public_key, InvalidSecretKey, LocalSigner,
};
use vstd::prelude::*;

verus! {

/// The secret key of a voting account.
#[derive(Clone, Copy, PartialEq, Eq)]
pub struct SecretKey(crate::ecdsa::SecretKey);

impl SecretKey {
    /// The key's 32 secret bytes.
    pub closed spec fn spec_bytes(&self) -> Seq<u8> {
        self.0.spec_bytes()
    }

    /// A fresh random key.
    pub fn generate() -> (r: SecretKey)
        ensures
            is_valid_secret(r.spec_bytes()),
    {
        SecretKey(generate_secret_key())
    }

    /// A signer that signs with this key.
    pub fn local_signer(&self) -> (r: LocalSigner)
        ensures
            r.secret() == self.spec_bytes(),
    {
        LocalSigner::from_secret_key(self.0)
    }

    /// The account address of the key.
    pub fn address(&self) -> (r: Address)
        ensures
            r@ == address_of_public_key_spec(public_key_spec(self.spec_bytes())),
    {
        secret_key_to_public_key(&self.0).to_address()
    }

    /// The key's 32 secret bytes.
    pub fn to_bytes(&self) -> (r: Bytes32)
        ensures
            r@ == self.spec_bytes(),
            is_valid_secret(r@),
    {
        SizedBytes(self.0.secret_bytes())
    }

    /// The key with the given 32 bytes; refused unless they make a valid
    /// secret (not zero, below the curve order).
    pub fn try_from_bytes(value: SizedBytes<32>) -> (r: Result<SecretKey, InvalidSecretKey>)
        ensures
            r is Ok <==> is_valid_secret(value@),
            r matches Ok(k) ==> k.spec_bytes() == value@,
    {
        match crate::ecdsa::SecretKey::from_slice(value.as_slice()) {
            Some(k) => Ok(SecretKey(k)),
            None => Err(InvalidSecretKey::InvalidSecretKey),
        }
    }
}

/// The two keys of a chain: one to vote to bless, one to vote to curse.
#[derive(Clone, Copy, PartialEq, Eq)]
pub struct BlessCurseKeys {
    pub bless: SecretKey,
    pub curse: SecretKey,
}

impl BlessCurseKeys {
    /// Two fresh random keys.
    pub fn generate() -> (r: BlessCurseKeys)
        ensures
            is_valid_secret(r.bless.spec_bytes()),
            is_valid_secret(r.curse.spec_bytes()),
    {
        BlessCurseKeys { bless: SecretKey::generate(), curse: SecretKey::generate() }
    }
}

/// The chains of a list of entries, in order.
pub open spec fn entry_chains(s: Seq<(ChainName, BlessCurseKeys)>) -> Seq<ChainName> {
    s.map_values(|e: (ChainName, BlessCurseKeys)| e.0)
}

/// The keys of each chain.
pub struct BlessCurseKeysByChain {
    entries: Vec<(ChainName, BlessCurseKeys)>,
}

impl BlessCurseKeysByChain {
    #[verifier::type_invariant]
    spec fn unique_chains(self) -> bool {
        entry_chains(self.entries@).no_duplicates()
    }

    /// The entries, one per chain.
    pub closed spec fn spec_entries(&self) -> Seq<(ChainName, BlessCurseKeys)> {
        self.entries@
    }
}

impl View for BlessCurseKeysByChain {
    type V = Map<ChainName, BlessCurseKeys>;

    closed spec fn view(&self) -> Map<ChainName, BlessCurseKeys> {
        Map::new(
            |c: ChainName| entry_chains(self.entries@).contains(c),
            |c: ChainName| self.entries@[entry_chains(self.entries@).index_of(c)].1,
        )
    }
}

/// In a list without repeats, the index of an element is where it stands.
proof fn lemma_index_of_unique(s: Seq<ChainName>, i: int)
    requires
        s.no_duplicates(),
        0 <= i < s.len(),
    ensures
        s.index_of(s[i]) == i,
{
    assert(s.contains(s[i]));
    let j = s.index_of(s[i]);
    assert(0 <= j < s.len() && s[j] == s[i]);
}

impl BlessCurseKeysByChain {
    /// No chain at all.
    pub fn new() -> (r: BlessCurseKeysByChain)
        ensures
            r@ == Map::<ChainName, BlessCurseKeys>::empty(),
    {
        let r = BlessCurseKeysByChain { entries: Vec::new() };
        assert(r@ =~= Map::<ChainName, BlessCurseKeys>::empty());
        r
    }

    /// The entries, one per chain, in the order that they were first
    /// inserted.
    pub fn entries(&self) -> (r: &Vec<(ChainName, BlessCurseKeys)>)
        ensures
            r@ == self.spec_entries(),
            entry_chains(r@).no_duplicates(),
            forall|i: int| 0 <= i < r@.len() ==> self@.contains_key(#[trigger] r@[i].0) && self@[r@[i].0] == r@[i].1,
            forall|c: ChainName| self@.contains_key(c) ==> entry_chains(r@).contains(c),
    {
        proof {
            use_type_invariant(self);
            assert forall|i: int| 0 <= i < self.entries@.len() implies self@.contains_key(
                #[trigger] self.entries@[i].0,
            ) && self@[self.entries@[i].0] == self.entries@[i].1 by {
                let s = entry_chains(self.entries@);
                assert(s[i] == self.entries@[i].0);
                lemma_index_of_unique(s, i);
            }
        }
        &self.entries
    }

    fn find(&self, chain_name: ChainName) -> (r: Option<usize>)
        ensures
            r matches Some(i) ==> i < self.spec_entries().len() && self.spec_entries()[i as int].0
                == chain_name,
            r is None ==> !entry_chains(self.spec_entries()).contains(chain_name),
    {
        let mut i: usize = 0;
        while i < self.entries.len()
            invariant
                i <= self.entries@.len(),
                forall|j: int| 0 <= j < i ==> (#[trigger] self.entries@[j]).0 != chain_name,
            decreases self.entries@.len() - i,
        {
            if self.entries[i].0 == chain_name {
                return Some(i);
            }
            i = i + 1;
        }
        proof {
            if entry_chains(self.entries@).contains(chain_name) {
                let j = entry_chains(self.entries@).index_of(chain_name);
                assert(self.entries@[j].0 == chain_name);
            }
        }
        None
    }

    /// The keys of a chain, where it has some.
    pub fn get(&self, chain_name: ChainName) -> (r: Option<&BlessCurseKeys>)
        ensures
            r is Some <==> self@.contains_key(chain_name),
            r matches Some(k) ==> *k == self@[chain_name],
    {
        proof {
            use_type_invariant(self);
        }
        match self.find(chain_name) {
            Some(i) => {
                proof {
                    let s = entry_chains(self.entries@);
                    assert(s[i as int] == chain_name);
                    lemma_index_of_unique(s, i as int);
                }
                Some(&self.entries[i].1)
            },
            None => None,
        }
    }

    /// Sets the keys of a chain and gives back the keys it had before.
    pub fn insert(&mut self, chain_name: ChainName, bless_curse_keys: BlessCurseKeys) -> (r: Option<
        BlessCurseKeys,
    >)
        ensures
            final(self)@ == old(self)@.insert(chain_name, bless_curse_keys),
            r is Some <==> old(self)@.contains_key(chain_name),
            r matches Some(k) ==> k == old(self)@[chain_name],
    {
        proof {
            use_type_invariant(&*self);
        }
        let ghost old_entries = self.entries@;
        let ghost old_view = self@;
        match self.find(chain_name) {
            Some(i) => {
                let prev = self.entries[i].1;
                proof {
                    let s = entry_chains(old_entries);
                    assert(s[i as int] == chain_name);
                    lemma_index_of_unique(s, i as int);
                }
                let mut entries = Vec::new();
                std::mem::swap(&mut entries, &mut self.entries);
                entries.set(i, (chain_name, bless_curse_keys));
                proof {
                    assert(entry_chains(entries@) =~= entry_chains(old_entries));
                }
                self.entries = entries;
                proof {
                    let s = entry_chains(old_entries);
                    assert forall|c: ChainName| #[trigger] self@.contains_key(c) == old_view.insert(
                        chain_name,
                        bless_curse_keys,
                    ).contains_key(c) && (self@.contains_key(c) ==> self@[c] == old_view.insert(
                        chain_name,
                        bless_curse_keys,
                    )[c]) by {
                        if s.contains(c) && c != chain_name {
                            let j = s.index_of(c);
                            assert(j != i);
                        }
                    }
                    assert(self@ =~= old_view.insert(chain_name, bless_curse_keys));
                }
                Some(prev)
            },
            None => {
                let mut entries = Vec::new();
                std::mem::swap(&mut entries, &mut self.entries);
                entries.push((chain_name, bless_curse_keys));
                proof {
                    let s = entry_chains(old_entries);
                    let t = entry_chains(entries@);
                    assert(t =~= s.push(chain_name));
                    assert forall|a: int, b: int| 0 <= a < b < t.len() implies t[a] != t[b] by {
                        if b == s.len() {
                            assert(s[a] == t[a]);
                        } else {
                            assert(s[a] == t[a] && s[b] == t[b]);
                        }
                    }
                }
                self.entries = entries;
                proof {
                    let s = entry_chains(old_entries);
                    let t = entry_chains(self.entries@);
                    let n = s.len() as int;
                    assert(t[n] == chain_name);
                    lemma_index_of_unique(t, n);
                    assert forall|c: ChainName| #[trigger] self@.contains_key(c) == old_view.insert(
                        chain_name,
                        bless_curse_keys,
                    ).contains_key(c) && (self@.contains_key(c) ==> self@[c] == old_view.insert(
                        chain_name,
                        bless_curse_keys,
                    )[c]) by {
                        if s.contains(c) {
                            let j = s.index_of(c);
                            assert(t[j] == c);
                            lemma_index_of_unique(t, j);
                            lemma_index_of_unique(s, j);
                        }
                        if t.contains(c) && c != chain_name {
                            let j = t.index_of(c);
                            assert(j != n);
                            assert(s[j] == c);
                        }
                    }
                    assert(self@ =~= old_view.insert(chain_name, bless_curse_keys));
                }
                None
            },
        }
    }

    /// Fresh random keys for each of the chains.
    pub fn generate(chains: &[ChainName]) -> (r: BlessCurseKeysByChain)
        ensures
            r@.dom() == chains@.to_set(),
            forall|c: ChainName|
                #[trigger] r@.contains_key(c) ==> is_valid_secret(r@[c].bless.spec_bytes()) && is_valid_secret(
                    r@[c].curse.spec_bytes(),
                ),
    {
        let mut by_chain = BlessCurseKeysByChain::new();
        let mut i: usize = 0;
        while i < chains.len()
            invariant
                i <= chains@.len(),
                by_chain@.dom() == chains@.subrange(0, i as int).to_set(),
                forall|c: ChainName|
                    #[trigger] by_chain@.contains_key(c) ==> is_valid_secret(by_chain@[c].bless.spec_bytes())
                        && is_valid_secret(by_chain@[c].curse.spec_bytes()),
            decreases chains@.len() - i,
        {
            by_chain.insert(chains[i], BlessCurseKeys::generate());
            proof {
                assert(chains@.subrange(0, i + 1) =~= chains@.subrange(0, i as int).push(chains@[i as int]));
                chains@.subrange(0, i as int).lemma_push_to_set_commute(chains@[i as int]);
            }
            i = i + 1;
        }
        assert(chains@.subrange(0, chains@.len() as int) =~= chains@);
        by_chain
    }

    /// The chains that have keys, each once.
    pub fn chains(&self) -> (r: Vec<ChainName>)
        ensures
            r@.no_duplicates(),
            r@.to_set() == self@.dom(),
    {
        proof {
            use_type_invariant(self);
        }
        let mut out: Vec<ChainName> = Vec::new();
        let mut i: usize = 0;
        while i < self.entries.len()
            invariant
                i <= self.entries@.len(),
                out@ == entry_chains(self.entries@).subrange(0, i as int),
            decreases self.entries@.len() - i,
        {
            out.push(self.entries[i].0);
            i = i + 1;
            assert(out@ =~= entry_chains(self.entries@).subrange(0, i as int));
        }
        proof {
            let s = entry_chains(self.entries@);
            assert(out@ =~= s);
            assert(out@.to_set() =~= self@.dom()) by {
                assert forall|c: ChainName| out@.to_set().contains(c) <==> self@.dom().contains(c) by {
                    if out@.contains(c) {
                    }
                }
            }
        }
        out
    }
}

} // verus!
