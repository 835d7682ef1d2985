use vstd::prelude::*;

use crate::codec::copy_bytes;
use crate::codec::i64_le;
use crate::codec::lemma_i64_le_injective;
use crate::codec::push_i64_le;

verus! {

/// The domain tag that starts every certificate seed list: the bytes of
/// the ASCII string "certificate".
pub open spec fn domain_tag() -> Seq<u8> {
    seq![99u8, 101u8, 114u8, 116u8, 105u8, 102u8, 105u8, 99u8, 97u8, 116u8, 101u8]
}

/// The seed list derived from an issuance key triple: the domain tag, the
/// raw institution id bytes, the raw candidate id bytes, and the eight
/// little-endian sign-preserving bytes of the issuance time.
pub open spec fn seeds_spec(institution_id: Seq<u8>, candidate_id: Seq<u8>, issued_at: i64) -> Seq<
    Seq<u8>,
> {
    seq![domain_tag(), institution_id, candidate_id, i64_le(issued_at)]
}

/// What the platform's address derivation returns for a seed list and a
/// program id: a hash-based storage address, or nothing in the
/// statistically improbable case that no bump seed is viable. The result
/// depends on the two arguments alone.
pub uninterp spec fn pda_of(seeds: Seq<Seq<u8>>, program_id: Seq<u8>) -> Option<Seq<u8>>;

/// Relies on Pubkey::try_find_program_address, the platform's
/// deterministic address derivation that anchor_lang re-exports: the
/// result is a pure function of the seed list and program id, a derived
/// address is exactly 32 bytes, and `None` comes only when no bump seed is
/// viable; the search never panics.
#[verifier::external_body]
fn try_find_pda(seeds: &Vec<Vec<u8>>, program_id: &Vec<u8>) -> (r: Option<Vec<u8>>)
    requires
        program_id@.len() == 32,
    ensures
        (r is Some) == (pda_of(seeds@.map_values(|s: Vec<u8>| s@), program_id@) is Some),
        r matches Some(a) ==> Some(a@) == pda_of(seeds@.map_values(|s: Vec<u8>| s@), program_id@)
            && a@.len() == 32,
{
    let refs: Vec<&[u8]> = seeds.iter().map(|s| s.as_slice()).collect();
    let mut pid = [0u8; 32];
    pid.copy_from_slice(program_id.as_slice());
    let pk = anchor_lang::prelude::Pubkey::new_from_array(pid);
    anchor_lang::prelude::Pubkey::try_find_program_address(&refs, &pk).map(
        |found: (anchor_lang::prelude::Pubkey, u8)| found.0.to_bytes().to_vec(),
    )
}

/// The address an issuance key triple selects under a program id.
pub open spec fn address_spec(
    institution_id: Seq<u8>,
    candidate_id: Seq<u8>,
    issued_at: i64,
    program_id: Seq<u8>,
) -> Option<Seq<u8>> {
    pda_of(seeds_spec(institution_id, candidate_id, issued_at), program_id)
}

fn domain_tag_bytes() -> (r: Vec<u8>)
    ensures
        r@ == domain_tag(),
{
    let mut v: Vec<u8> = Vec::new();
    v.push(99);
    v.push(101);
    v.push(114);
    v.push(116);
    v.push(105);
    v.push(102);
    v.push(105);
    v.push(99);
    v.push(97);
    v.push(116);
    v.push(101);
    proof {
        assert(v@ =~= domain_tag());
    }
    v
}

/// Derive the storage address for an issuance key triple: concatenate the
/// domain tag, both identifiers and the fixed-width issuance time into a
/// seed list and pass it through the platform derivation. The same triple
/// always yields the same address.
pub fn derive_address(
    institution_id: &Vec<u8>,
    candidate_id: &Vec<u8>,
    issued_at: i64,
    program_id: &Vec<u8>,
) -> (r: Option<Vec<u8>>)
    requires
        program_id@.len() == 32,
    ensures
        (r is Some) == (address_spec(institution_id@, candidate_id@, issued_at, program_id@)
            is Some),
        r matches Some(a) ==> Some(a@) == address_spec(
            institution_id@,
            candidate_id@,
            issued_at,
            program_id@,
        ) && a@.len() == 32,
{
    let mut seeds: Vec<Vec<u8>> = Vec::new();
    seeds.push(domain_tag_bytes());
    seeds.push(copy_bytes(institution_id));
    seeds.push(copy_bytes(candidate_id));
    let mut stamp: Vec<u8> = Vec::new();
    push_i64_le(&mut stamp, issued_at);
    proof {
        assert(stamp@ =~= i64_le(issued_at));
    }
    seeds.push(stamp);
    proof {
        assert(seeds@.map_values(|s: Vec<u8>| s@) =~= seeds_spec(
            institution_id@,
            candidate_id@,
            issued_at,
        ));
    }
    try_find_pda(&seeds, program_id)
}

/// Address derivation is a pure function of the key triple and program id:
/// identical inputs always select the identical address.
pub proof fn lemma_derive_address_deterministic(
    i1: Seq<u8>,
    c1: Seq<u8>,
    t1: i64,
    p1: Seq<u8>,
    i2: Seq<u8>,
    c2: Seq<u8>,
    t2: i64,
    p2: Seq<u8>,
)
    requires
        i1 == i2,
        c1 == c2,
        t1 == t2,
        p1 == p2,
    ensures
        address_spec(i1, c1, t1, p1) == address_spec(i2, c2, t2, p2),
{
}

/// Key triples that differ in any component hand the platform derivation
/// distinct seed lists; that the derivation maps distinct seed lists to
/// distinct addresses is the hash's collision resistance, which is trusted
/// rather than proved.
pub proof fn lemma_distinct_triples_distinct_seeds(
    i1: Seq<u8>,
    c1: Seq<u8>,
    t1: i64,
    i2: Seq<u8>,
    c2: Seq<u8>,
    t2: i64,
)
    requires
        !(i1 == i2 && c1 == c2 && t1 == t2),
    ensures
        seeds_spec(i1, c1, t1) != seeds_spec(i2, c2, t2),
{
    let s1 = seeds_spec(i1, c1, t1);
    let s2 = seeds_spec(i2, c2, t2);
    if s1 == s2 {
        assert(s1[1] == s2[1]);
        assert(s1[2] == s2[2]);
        assert(s1[3] == s2[3]);
        lemma_i64_le_injective(t1, t2);
        assert(false);
    }
}

} // verus!
