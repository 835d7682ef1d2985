use certissuer::address::derive_address;
use certissuer::error::CertError;
use certissuer::instructions::allocate;
use certissuer::instructions::create_certificate;
use certissuer::instructions::read_certificate;
use certissuer::instructions::AuthorityProof;
use certissuer::instructions::CreateCertificate;
use certissuer::state::Certificate;
use certissuer::store::Store;

fn bytes(s: &str) -> Vec<u8> {
    s.as_bytes().to_vec()
}

fn ctx(identity_byte: u8, authorized: bool) -> CreateCertificate {
    CreateCertificate {
        authority: AuthorityProof { identity: vec![identity_byte; 32], authorized },
        program_id: vec![3u8; 32],
    }
}

fn issue_simple(
    store: &mut Store,
    c: &CreateCertificate,
    institution_id: &str,
    candidate_id: &str,
    issued_at: i64,
) -> Result<Certificate, CertError> {
    create_certificate(
        store,
        c,
        bytes(institution_id),
        bytes("Massachusetts Institute of Technology"),
        bytes(candidate_id),
        bytes("Ada Lovelace"),
        issued_at,
        bytes("Bachelor of Science"),
        None,
    )
}

#[test]
fn issue_succeeds_and_stamps_issuer() {
    let mut store = Store::new();
    let c = ctx(7, true);
    let rec = create_certificate(
        &mut store,
        &c,
        bytes("MIT"),
        bytes("Massachusetts Institute of Technology"),
        bytes("ADA1"),
        bytes("Ada Lovelace"),
        1700000000,
        bytes("Bachelor of Science"),
        None,
    )
    .expect("issuance should succeed");
    assert_eq!(rec.issuer, vec![7u8; 32]);
    assert_eq!(rec.institution_id, bytes("MIT"));
    assert_eq!(rec.candidate_name, bytes("Ada Lovelace"));
    assert_eq!(rec.issued_at, 1700000000);
    assert!(rec.uri.is_none());
}

#[test]
fn issue_same_institution_other_candidate_gets_other_address() {
    let mut store = Store::new();
    let c = ctx(7, true);
    issue_simple(&mut store, &c, "MIT", "ADA1", 1700000000).expect("first issuance");
    issue_simple(&mut store, &c, "MIT", "ADA2", 1700000000).expect("second issuance");
    let a1 = derive_address(&bytes("MIT"), &bytes("ADA1"), 1700000000, &c.program_id).unwrap();
    let a2 = derive_address(&bytes("MIT"), &bytes("ADA2"), 1700000000, &c.program_id).unwrap();
    assert_ne!(a1, a2);
    assert!(store.contains(&a1));
    assert!(store.contains(&a2));
}

#[test]
fn issue_duplicate_triple_rejected_and_record_unchanged() {
    let mut store = Store::new();
    let c = ctx(9, true);
    let first = create_certificate(
        &mut store,
        &c,
        bytes("MIT"),
        bytes("MIT original name"),
        bytes("ADA1"),
        bytes("Ada Lovelace"),
        1700000000,
        bytes("first description"),
        None,
    )
    .expect("first issuance");
    let second = create_certificate(
        &mut store,
        &c,
        bytes("MIT"),
        bytes("MIT changed name"),
        bytes("ADA1"),
        bytes("Someone Else"),
        1700000000,
        bytes("second description"),
        None,
    );
    assert_eq!(second.unwrap_err(), CertError::AlreadyExists);
    let addr = derive_address(&bytes("MIT"), &bytes("ADA1"), 1700000000, &c.program_id).unwrap();
    let stored = read_certificate(&store, &addr).expect("stored record decodes");
    assert_eq!(stored.institution_name, first.institution_name);
    assert_eq!(stored.candidate_name, bytes("Ada Lovelace"));
    assert_eq!(stored.description, bytes("first description"));
    assert_eq!(stored.issuer, vec![9u8; 32]);
}

#[test]
fn issue_oversized_description_fails_without_storage_mutation() {
    let mut store = Store::new();
    let c = ctx(7, true);
    let too_long = vec![b'x'; 129];
    let r = create_certificate(
        &mut store,
        &c,
        bytes("MIT"),
        bytes("MIT"),
        bytes("ADA1"),
        bytes("Ada"),
        1700000000,
        too_long,
        None,
    );
    assert_eq!(r.unwrap_err(), CertError::InputTooLarge);
    let addr = derive_address(&bytes("MIT"), &bytes("ADA1"), 1700000000, &c.program_id).unwrap();
    assert!(!store.contains(&addr));
    // The address is still free: the same triple can be issued afterwards.
    issue_simple(&mut store, &c, "MIT", "ADA1", 1700000000).expect("issuance after rejection");
    assert!(store.contains(&addr));
}

#[test]
fn issue_unauthorized_fails() {
    let mut store = Store::new();
    let c = ctx(7, false);
    let r = issue_simple(&mut store, &c, "MIT", "ADA1", 1700000000);
    assert_eq!(r.unwrap_err(), CertError::AuthorizationError);
    let addr = derive_address(&bytes("MIT"), &bytes("ADA1"), 1700000000, &c.program_id).unwrap();
    assert!(!store.contains(&addr));
}

#[test]
fn issue_with_uri_round_trips_through_storage() {
    let mut store = Store::new();
    let c = ctx(5, true);
    let rec = create_certificate(
        &mut store,
        &c,
        bytes("ETH"),
        bytes("ETH Zurich"),
        bytes("C-42"),
        bytes("Grace Hopper"),
        -12345678,
        bytes("Doctorate"),
        Some(bytes("https://credentials.example/record/42")),
    )
    .expect("issuance");
    let addr = derive_address(&bytes("ETH"), &bytes("C-42"), -12345678, &c.program_id).unwrap();
    let stored = read_certificate(&store, &addr).expect("stored record decodes");
    assert_eq!(stored.uri, rec.uri);
    assert_eq!(stored.issued_at, -12345678);
    assert_eq!(stored.institution_name, bytes("ETH Zurich"));
}

#[test]
fn allocate_checks_authority_then_exactly_once() {
    let mut store = Store::new();
    let unauthorized = AuthorityProof { identity: vec![1u8; 32], authorized: false };
    let authorized = AuthorityProof { identity: vec![1u8; 32], authorized: true };
    let addr = vec![4u8; 32];
    assert_eq!(
        allocate(&mut store, &addr, 8, &unauthorized).unwrap_err(),
        CertError::AuthorizationError
    );
    assert!(!store.contains(&addr));
    allocate(&mut store, &addr, 8, &authorized).expect("allocation");
    assert!(store.contains(&addr));
    assert_eq!(allocate(&mut store, &addr, 8, &authorized).unwrap_err(), CertError::AlreadyExists);
}

#[test]
fn store_create_is_exactly_once() {
    let mut store = Store::new();
    let addr = vec![1u8; 32];
    assert!(!store.contains(&addr));
    store.create(&addr, 16).expect("first create");
    assert!(store.contains(&addr));
    assert_eq!(store.create(&addr, 16).unwrap_err(), CertError::AlreadyExists);
    assert_eq!(store.read(&addr).unwrap(), vec![0u8; 16]);
}

#[test]
fn store_write_overwrites_front_of_region() {
    let mut store = Store::new();
    let addr = vec![2u8; 32];
    store.create(&addr, 8).expect("create");
    store.write(&addr, &vec![9u8, 8u8, 7u8]);
    assert_eq!(store.read(&addr).unwrap(), vec![9u8, 8u8, 7u8, 0, 0, 0, 0, 0]);
}
