//! Deterministic record addressing.
//!
//! Every side-record of the system (the holding metadata of one
//! `(asset class, holding)` pair, the provenance ledger of one asset class)
//! lives at an identifier derived from a namespace tag and an ordered list
//! of entity keys.  The derivation is a pure function of its inputs, so any
//! caller holding the same keys reaches the same record without a directory,
//! and records of distinct namespaces or distinct keys are kept apart by the
//! collision resistance of the underlying hash.

use vstd::prelude::*;
use vstd::bytes::lemma_auto_spec_u64_to_from_le_bytes;
use vstd::bytes::spec_u64_to_le_bytes;
use vstd::bytes::u64_to_le_bytes;

verus! {

/// The identity of one entity (an asset class, a holding, or an actor),
/// compared by value only.
#[derive(Clone, Copy, Debug, PartialEq, Eq, Structural)]
pub struct AccountId(pub u64);

/// The derived identifier of one side-record: the raw bytes of the address
/// it lives at.
pub type RecordId = Vec<u8>;

/// What `Pubkey::try_find_program_address` returns for a given seed list and
/// program id: an address that is a function of those arguments alone, or
/// nothing when no address can be derived from them.
pub uninterp spec fn record_address_of(seeds: Seq<Seq<u8>>, program_id: Seq<u8>) -> Option<Seq<u8>>;

/// Relies on `anchor_lang::prelude::Pubkey::try_find_program_address`: the
/// result depends on the seeds and the program id alone, a derived address
/// is 32 bytes, and the search returns `None` rather than failing when the
/// seeds admit no address.
#[verifier::external_body]
fn find_record_address(seeds: &Vec<Vec<u8>>, program_id: &[u8; 32]) -> (r: Option<RecordId>)
    ensures
        r.deep_view() == record_address_of(seeds.deep_view(), program_id@),
        r matches Some(a) ==> a@.len() == 32,
{
    let pid = anchor_lang::prelude::Pubkey::new_from_array(*program_id);
    let seed_refs: Vec<&[u8]> = seeds.iter().map(|s| s.as_slice()).collect();
    match anchor_lang::prelude::Pubkey::try_find_program_address(&seed_refs, &pid) {
        Some((address, _bump)) => Some(address.to_bytes().to_vec()),
        None => None,
    }
}

/// Namespace tag of the holding-metadata store: the bytes of `"token_info"`.
pub open spec fn metadata_namespace() -> Seq<u8> {
    seq![116u8, 111u8, 107u8, 101u8, 110u8, 95u8, 105u8, 110u8, 102u8, 111u8]
}

/// Namespace tag of the provenance-ledger store: the bytes of `"provenance"`.
pub open spec fn provenance_namespace() -> Seq<u8> {
    seq![112u8, 114u8, 111u8, 118u8, 101u8, 110u8, 97u8, 110u8, 99u8, 101u8]
}

/// The namespace tag of the holding-metadata store, as bytes.
pub fn metadata_namespace_bytes() -> (r: Vec<u8>)
    ensures
        r@ == metadata_namespace(),
{
    let mut r: Vec<u8> = Vec::new();
    r.push(116);
    r.push(111);
    r.push(107);
    r.push(101);
    r.push(110);
    r.push(95);
    r.push(105);
    r.push(110);
    r.push(102);
    r.push(111);
    proof {
        assert(r@ =~= metadata_namespace());
    }
    r
}

/// The namespace tag of the provenance-ledger store, as bytes.
pub fn provenance_namespace_bytes() -> (r: Vec<u8>)
    ensures
        r@ == provenance_namespace(),
{
    let mut r: Vec<u8> = Vec::new();
    r.push(112);
    r.push(114);
    r.push(111);
    r.push(118);
    r.push(101);
    r.push(110);
    r.push(97);
    r.push(110);
    r.push(99);
    r.push(101);
    proof {
        assert(r@ =~= provenance_namespace());
    }
    r
}

/// The seed list that identifies the record of `keys` inside `namespace`:
/// the namespace tag first, then each key as its eight little-endian bytes.
pub open spec fn record_seeds(namespace: Seq<u8>, keys: Seq<AccountId>) -> Seq<Seq<u8>> {
    seq![namespace] + keys.map_values(|k: AccountId| spec_u64_to_le_bytes(k.0))
}

/// The identifier that `namespace` and `keys` resolve to under `program_id`.
pub open spec fn record_id_of(namespace: Seq<u8>, keys: Seq<AccountId>, program_id: Seq<u8>) -> Option<Seq<u8>> {
    record_address_of(record_seeds(namespace, keys), program_id)
}

/// Derive the identifier of the side-record of `keys` inside `namespace`.
///
/// The result is a pure function of the namespace, the keys, and the program
/// id: repeated derivation with identical inputs yields the identical
/// identifier, and there is no allocation step a caller could race.
pub fn derive_record_id(namespace: &Vec<u8>, keys: &Vec<AccountId>, program_id: &[u8; 32]) -> (r: Option<RecordId>)
    ensures
        r.deep_view() == record_id_of(namespace@, keys@, program_id@),
        r matches Some(a) ==> a@.len() == 32,
{
    let mut seeds: Vec<Vec<u8>> = Vec::new();
    seeds.push(namespace.clone());
    let mut i: usize = 0;
    while i < keys.len()
        invariant
            i <= keys.len(),
            seeds@.len() == i + 1,
            seeds@[0]@ == namespace@,
            forall|j: int| 0 <= j < i ==> #[trigger] seeds@[j + 1]@ == spec_u64_to_le_bytes(keys@[j].0),
        decreases keys.len() - i,
    {
        seeds.push(u64_to_le_bytes(keys[i].0));
        i += 1;
    }
    proof {
        assert(seeds.deep_view() =~= record_seeds(namespace@, keys@)) by {
            let expect = record_seeds(namespace@, keys@);
            assert(seeds.deep_view().len() == expect.len());
            assert(seeds.deep_view()[0] == namespace@);
            assert forall|j: int| 0 < j < seeds.deep_view().len() implies seeds.deep_view()[j]
                == expect[j] by {
                assert(seeds@[(j - 1) + 1]@ == spec_u64_to_le_bytes(keys@[j - 1].0));
            }
        }
    }
    find_record_address(&seeds, program_id)
}

/// Record addressing is a pure function: two derivations given the same
/// namespace, the same keys, and the same program id resolve to the same
/// record identifier.
pub proof fn lemma_record_addressing_deterministic(
    namespace_a: Seq<u8>,
    keys_a: Seq<AccountId>,
    pid_a: Seq<u8>,
    namespace_b: Seq<u8>,
    keys_b: Seq<AccountId>,
    pid_b: Seq<u8>,
)
    requires
        namespace_a == namespace_b,
        keys_a == keys_b,
        pid_a == pid_b,
    ensures
        record_id_of(namespace_a, keys_a, pid_a) == record_id_of(namespace_b, keys_b, pid_b),
{
}

/// Two distinct `(namespace, keys)` pairs never produce the same seed list:
/// a collision of their record identifiers could only come from the hash
/// underneath the derivation, never from the encoding of the inputs.
pub proof fn lemma_record_seeds_injective(
    namespace_a: Seq<u8>,
    keys_a: Seq<AccountId>,
    namespace_b: Seq<u8>,
    keys_b: Seq<AccountId>,
)
    requires
        record_seeds(namespace_a, keys_a) == record_seeds(namespace_b, keys_b),
    ensures
        namespace_a == namespace_b,
        keys_a == keys_b,
{
    let sa = record_seeds(namespace_a, keys_a);
    let sb = record_seeds(namespace_b, keys_b);
    assert(sa[0] == namespace_a);
    assert(sb[0] == namespace_b);
    assert(namespace_a == namespace_b);
    lemma_auto_spec_u64_to_from_le_bytes();
    assert(sa.len() == 1 + keys_a.len());
    assert(sb.len() == 1 + keys_b.len());
    assert(keys_a.len() == keys_b.len());
    assert forall|i: int| 0 <= i < keys_a.len() implies keys_a[i] == keys_b[i] by {
        assert(sa[i + 1] == spec_u64_to_le_bytes(keys_a[i].0));
        assert(sb[i + 1] == spec_u64_to_le_bytes(keys_b[i].0));
        assert(vstd::bytes::spec_u64_from_le_bytes(spec_u64_to_le_bytes(keys_a[i].0)) == keys_a[i].0);
        assert(vstd::bytes::spec_u64_from_le_bytes(spec_u64_to_le_bytes(keys_b[i].0)) == keys_b[i].0);
    }
    assert(keys_a =~= keys_b);
}

/// The seed list of the holding-metadata record of one
/// `(asset class, holding)` pair.
pub open spec fn metadata_keys(class: AccountId, holding: AccountId) -> Seq<AccountId> {
    seq![class, holding]
}

/// The identifier of the holding-metadata record of `(class, holding)`.
pub open spec fn metadata_record_id(class: AccountId, holding: AccountId, program_id: Seq<u8>) -> Option<Seq<u8>> {
    record_id_of(metadata_namespace(), metadata_keys(class, holding), program_id)
}

/// Derive the identifier of the holding-metadata record of
/// `(class, holding)`.
pub fn derive_metadata_record_id(class: AccountId, holding: AccountId, program_id: &[u8; 32]) -> (r: Option<RecordId>)
    ensures
        r.deep_view() == metadata_record_id(class, holding, program_id@),
        r matches Some(a) ==> a@.len() == 32,
{
    let namespace = metadata_namespace_bytes();
    let mut keys: Vec<AccountId> = Vec::new();
    keys.push(class);
    keys.push(holding);
    proof {
        assert(keys@ =~= metadata_keys(class, holding));
    }
    derive_record_id(&namespace, &keys, program_id)
}

/// The keys of the provenance-ledger record of one asset class.
pub open spec fn provenance_keys(class: AccountId) -> Seq<AccountId> {
    seq![class]
}

/// The identifier of the provenance-ledger record of `class`.
pub open spec fn provenance_record_id(class: AccountId, program_id: Seq<u8>) -> Option<Seq<u8>> {
    record_id_of(provenance_namespace(), provenance_keys(class), program_id)
}

/// Derive the identifier of the provenance-ledger record of `class`.
pub fn derive_provenance_record_id(class: AccountId, program_id: &[u8; 32]) -> (r: Option<RecordId>)
    ensures
        r.deep_view() == provenance_record_id(class, program_id@),
        r matches Some(a) ==> a@.len() == 32,
{
    let namespace = provenance_namespace_bytes();
    let mut keys: Vec<AccountId> = Vec::new();
    keys.push(class);
    proof {
        assert(keys@ =~= provenance_keys(class));
    }
    derive_record_id(&namespace, &keys, program_id)
}

} // verus!
