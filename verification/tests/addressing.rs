use std::collections::HashSet;

use anchor_lang::prelude::Pubkey;
use certissuer::address::derive_address;

fn bytes(s: &str) -> Vec<u8> {
    s.as_bytes().to_vec()
}

fn pid() -> Vec<u8> {
    vec![3u8; 32]
}

#[test]
fn derive_address_is_deterministic() {
    let a = derive_address(&bytes("MIT"), &bytes("ADA1"), 1700000000, &pid());
    let b = derive_address(&bytes("MIT"), &bytes("ADA1"), 1700000000, &pid());
    let a = a.expect("derivation");
    assert_eq!(a.len(), 32);
    assert_eq!(a, b.expect("derivation"));
}

#[test]
fn derive_address_matches_platform_derivation() {
    let institution_id = bytes("MIT");
    let candidate_id = bytes("ADA1");
    let issued_at: i64 = 1700000000;
    let addr = derive_address(&institution_id, &candidate_id, issued_at, &pid())
        .expect("derivation");
    let program = Pubkey::new_from_array([3u8; 32]);
    let (expected, _bump) = Pubkey::find_program_address(
        &[
            b"certificate",
            institution_id.as_slice(),
            candidate_id.as_slice(),
            &issued_at.to_le_bytes(),
        ],
        &program,
    );
    assert_eq!(addr, expected.to_bytes().to_vec());
}

#[test]
fn derive_address_differs_per_component() {
    let base = derive_address(&bytes("MIT"), &bytes("ADA1"), 1700000000, &pid()).unwrap();
    let other_institution =
        derive_address(&bytes("ETH"), &bytes("ADA1"), 1700000000, &pid()).unwrap();
    let other_candidate =
        derive_address(&bytes("MIT"), &bytes("ADA2"), 1700000000, &pid()).unwrap();
    let other_time = derive_address(&bytes("MIT"), &bytes("ADA1"), 1700000001, &pid()).unwrap();
    assert_ne!(base, other_institution);
    assert_ne!(base, other_candidate);
    assert_ne!(base, other_time);
}

#[test]
fn derive_address_no_collisions_over_corpus() {
    let mut seen: HashSet<Vec<u8>> = HashSet::new();
    let program_id = pid();
    let mut count: usize = 0;
    for i in 0..25 {
        for j in 0..20 {
            for k in 0..20 {
                let institution_id = format!("inst-{}", i).into_bytes();
                let candidate_id = format!("cand-{}", j).into_bytes();
                let issued_at: i64 = 1600000000 + k * 86400;
                let addr = derive_address(&institution_id, &candidate_id, issued_at, &program_id)
                    .expect("derivation");
                assert!(seen.insert(addr), "collision across distinct triples");
                count += 1;
            }
        }
    }
    assert_eq!(count, 10000);
}
