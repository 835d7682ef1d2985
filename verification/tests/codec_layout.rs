use certissuer::error::CertError;
use certissuer::state::Certificate;

fn bytes(s: &str) -> Vec<u8> {
    s.as_bytes().to_vec()
}

fn sample(description: Vec<u8>, uri: Option<Vec<u8>>) -> Certificate {
    Certificate {
        issuer: vec![7u8; 32],
        institution_id: bytes("MIT"),
        institution_name: bytes("Massachusetts Institute of Technology"),
        candidate_id: bytes("ADA1"),
        candidate_name: bytes("Ada Lovelace"),
        issued_at: 1700000000,
        description,
        uri,
    }
}

fn assert_same(a: &Certificate, b: &Certificate) {
    assert_eq!(a.issuer, b.issuer);
    assert_eq!(a.institution_id, b.institution_id);
    assert_eq!(a.institution_name, b.institution_name);
    assert_eq!(a.candidate_id, b.candidate_id);
    assert_eq!(a.candidate_name, b.candidate_name);
    assert_eq!(a.issued_at, b.issued_at);
    assert_eq!(a.description, b.description);
    assert_eq!(a.uri, b.uri);
}

#[test]
fn record_len_is_static_sum() {
    assert_eq!(Certificate::len(), 585);
    assert_eq!(Certificate::required_size(), 593);
}

#[test]
fn encode_decode_round_trip_with_uri() {
    let c = sample(bytes("Bachelor of Science"), Some(bytes("https://example.org/a")));
    let encoded = c.encode().expect("encode");
    let decoded = Certificate::decode(&encoded).expect("decode");
    assert_same(&c, &decoded);
}

#[test]
fn encode_decode_round_trip_without_uri() {
    let c = sample(bytes("Bachelor of Science"), None);
    let encoded = c.encode().expect("encode");
    let decoded = Certificate::decode(&encoded).expect("decode");
    assert_same(&c, &decoded);
}

#[test]
fn encode_decode_round_trip_empty_strings() {
    let c = Certificate {
        issuer: vec![0u8; 32],
        institution_id: Vec::new(),
        institution_name: Vec::new(),
        candidate_id: Vec::new(),
        candidate_name: Vec::new(),
        issued_at: 0,
        description: Vec::new(),
        uri: Some(Vec::new()),
    };
    let encoded = c.encode().expect("encode");
    // 32 issuer + 5 length prefixes of 4 + 8 timestamp + 1 presence byte.
    assert_eq!(encoded.len(), 32 + 4 * 5 + 8 + 1 + 4);
    let decoded = Certificate::decode(&encoded).expect("decode");
    assert_same(&c, &decoded);
}

#[test]
fn encode_decode_round_trip_negative_timestamp() {
    let mut c = sample(bytes("d"), None);
    c.issued_at = -1;
    let decoded = Certificate::decode(&c.encode().expect("encode")).expect("decode");
    assert_eq!(decoded.issued_at, -1);
    c.issued_at = i64::MIN;
    let decoded = Certificate::decode(&c.encode().expect("encode")).expect("decode");
    assert_eq!(decoded.issued_at, i64::MIN);
}

#[test]
fn encode_layout_of_known_record() {
    let c = Certificate {
        issuer: vec![1u8; 32],
        institution_id: bytes("ab"),
        institution_name: Vec::new(),
        candidate_id: Vec::new(),
        candidate_name: Vec::new(),
        issued_at: 2,
        description: Vec::new(),
        uri: None,
    };
    let encoded = c.encode().expect("encode");
    let mut expected = vec![1u8; 32];
    expected.extend_from_slice(&[2, 0, 0, 0, b'a', b'b']);
    expected.extend_from_slice(&[0, 0, 0, 0]);
    expected.extend_from_slice(&[0, 0, 0, 0]);
    expected.extend_from_slice(&[0, 0, 0, 0]);
    expected.extend_from_slice(&[2, 0, 0, 0, 0, 0, 0, 0]);
    expected.extend_from_slice(&[0, 0, 0, 0]);
    expected.push(0);
    assert_eq!(encoded, expected);
}

#[test]
fn field_budgets_are_enforced_at_the_boundary() {
    let cases: Vec<(usize, Box<dyn Fn(Vec<u8>) -> Certificate>)> = vec![
        (32, Box::new(|f| {
            let mut c = sample(bytes("d"), None);
            c.institution_id = f;
            c
        })),
        (64, Box::new(|f| {
            let mut c = sample(bytes("d"), None);
            c.institution_name = f;
            c
        })),
        (32, Box::new(|f| {
            let mut c = sample(bytes("d"), None);
            c.candidate_id = f;
            c
        })),
        (64, Box::new(|f| {
            let mut c = sample(bytes("d"), None);
            c.candidate_name = f;
            c
        })),
        (128, Box::new(|f| sample(f, None))),
        (200, Box::new(|f| sample(bytes("d"), Some(f)))),
    ];
    for (budget, make) in cases {
        let at_budget = make(vec![b'x'; budget]);
        assert!(at_budget.encode().is_ok());
        let over_budget = make(vec![b'x'; budget + 1]);
        assert_eq!(over_budget.encode().unwrap_err(), CertError::InputTooLarge);
    }
}

#[test]
fn encode_rejects_wrong_issuer_size() {
    let mut c = sample(bytes("d"), None);
    c.issuer = vec![1u8; 31];
    assert_eq!(c.encode().unwrap_err(), CertError::InputTooLarge);
}

#[test]
fn decode_ignores_trailing_bytes() {
    let c = sample(bytes("d"), None);
    let mut encoded = c.encode().expect("encode");
    encoded.extend_from_slice(&[0u8; 40]);
    let decoded = Certificate::decode(&encoded).expect("decode");
    assert_same(&c, &decoded);
}

#[test]
fn decode_truncated_fails() {
    let c = sample(bytes("d"), None);
    let encoded = c.encode().expect("encode");
    for cut in [0, 10, 31, 35, encoded.len() - 1] {
        let prefix = encoded[..cut].to_vec();
        assert_eq!(Certificate::decode(&prefix).unwrap_err(), CertError::DecodingError);
    }
}

#[test]
fn decode_oversized_length_prefix_fails() {
    let mut b = vec![0u8; 32];
    b.extend_from_slice(&[255, 255, 255, 255]);
    assert_eq!(Certificate::decode(&b).unwrap_err(), CertError::DecodingError);
}

#[test]
fn decode_invalid_utf8_field_fails() {
    let c = sample(vec![0xff, 0xfe], None);
    let encoded = c.encode().expect("encode accepts raw bytes");
    assert_eq!(Certificate::decode(&encoded).unwrap_err(), CertError::DecodingError);
}

#[test]
fn decode_unknown_presence_byte_fails() {
    let c = sample(bytes("d"), None);
    let mut encoded = c.encode().expect("encode");
    let last = encoded.len() - 1;
    encoded[last] = 2;
    assert_eq!(Certificate::decode(&encoded).unwrap_err(), CertError::DecodingError);
}
