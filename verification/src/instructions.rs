use vstd::prelude::*;

use crate::address::address_spec;
use crate::address::derive_address;
use crate::codec::copy_bytes;
use crate::codec::decode_spec;
use crate::codec::encode_spec;
use crate::codec::lemma_encode_len;
use crate::codec::lemma_round_trip;
use crate::codec::utf8_fields;
use crate::error::CertError;
use crate::state::Certificate;
use crate::state::CertificateView;
use crate::state::HEADER_LEN;
use crate::state::encodable;
use crate::store::Store;
use crate::store::zero_region;

verus! {

/// Evidence that a specific public identity authorized and funded an
/// issuance: the identity, and the platform's verdict on its signature.
/// The platform validates the proof; the engine only reads the verdict and
/// stamps the identity, so a caller can never claim another's authorship.
pub struct AuthorityProof {
    /// The public identity that signed and pays for the request.
    pub identity: Vec<u8>,
    /// Whether the platform validated the signature and the funding.
    pub authorized: bool,
}

/// The issuance context: the signing authority and the program id under
/// which record addresses are derived.
pub struct CreateCertificate {
    pub authority: AuthorityProof,
    pub program_id: Vec<u8>,
}

/// The record an issuance request asks for, with the validated identity
/// stamped as issuer.
pub open spec fn requested_view(
    identity: Seq<u8>,
    institution_id: Seq<u8>,
    institution_name: Seq<u8>,
    candidate_id: Seq<u8>,
    candidate_name: Seq<u8>,
    issued_at: i64,
    description: Seq<u8>,
    uri: Option<Seq<u8>>,
) -> CertificateView {
    CertificateView {
        issuer: identity,
        institution_id,
        institution_name,
        candidate_id,
        candidate_name,
        issued_at,
        description,
        uri,
    }
}

/// The mathematical value of an optional uri argument.
pub open spec fn uri_view(uri: Option<Vec<u8>>) -> Option<Seq<u8>> {
    match uri {
        Some(u) => Some(u@),
        None => None,
    }
}

/// The error an issuance reports, or nothing when it succeeds. Oversized
/// fields are caller input errors and come before any storage mutation is
/// attempted; then the address derivation, and at allocation the authority
/// check and the exactly-once check at the derived address.
pub open spec fn issue_error(
    m: Map<Seq<u8>, Seq<u8>>,
    authorized: bool,
    v: CertificateView,
    program_id: Seq<u8>,
) -> Option<CertError> {
    if !encodable(v) {
        Some(CertError::InputTooLarge)
    } else {
        match address_spec(v.institution_id, v.candidate_id, v.issued_at, program_id) {
            None => Some(CertError::DerivationFailed),
            Some(a) => if !authorized {
                Some(CertError::AuthorizationError)
            } else if m.contains_key(a) {
                Some(CertError::AlreadyExists)
            } else {
                None
            },
        }
    }
}

/// Request a new zeroed region of exactly `size` bytes at `addr`, funded
/// by the authority. Fails with AuthorizationError when the proof did not
/// validate, and with AlreadyExists when a region already stands at the
/// address; on any failure the store is untouched.
pub fn allocate(store: &mut Store, addr: &Vec<u8>, size: usize, proof: &AuthorityProof) -> (r:
    Result<(), CertError>)
    ensures
        !proof.authorized ==> (r matches Err(e) && e == CertError::AuthorizationError
            && final(store)@ == old(store)@),
        proof.authorized && old(store)@.contains_key(addr@) ==> (r matches Err(e) && e
            == CertError::AlreadyExists && final(store)@ == old(store)@),
        proof.authorized && !old(store)@.contains_key(addr@) ==> r is Ok
            && final(store)@ == old(store)@.insert(addr@, zero_region(size as nat)),
{
    if !proof.authorized {
        return Err(CertError::AuthorizationError);
    }
    store.create(addr, size)
}

/// The region a successful issuance persists: the encoded record at the
/// front of a fresh zeroed region of the static required size.
pub open spec fn issued_region(v: CertificateView) -> Seq<u8> {
    encode_spec(v) + zero_region((HEADER_LEN + 585 - encode_spec(v).len()) as nat)
}

/// The store after an issuance: unchanged on any error; on success, the
/// issued region stands at the derived address.
pub open spec fn issue_map(
    m: Map<Seq<u8>, Seq<u8>>,
    authorized: bool,
    v: CertificateView,
    program_id: Seq<u8>,
) -> Map<Seq<u8>, Seq<u8>> {
    if issue_error(m, authorized, v, program_id) is None {
        m.insert(
            address_spec(v.institution_id, v.candidate_id, v.issued_at, program_id).unwrap(),
            issued_region(v),
        )
    } else {
        m
    }
}

/// Issue a certificate: derive the address from the request's key triple,
/// enforce field budgets and the authority's proof, allocate the record's
/// fixed-size region exactly once at that address, stamp the validated
/// identity as issuer, and persist the encoded record. Either every step
/// commits, or the store is left exactly as it was.
pub fn create_certificate(
    store: &mut Store,
    ctx: &CreateCertificate,
    institution_id: Vec<u8>,
    institution_name: Vec<u8>,
    candidate_id: Vec<u8>,
    candidate_name: Vec<u8>,
    issued_at: i64,
    description: Vec<u8>,
    uri: Option<Vec<u8>>,
) -> (r: Result<Certificate, CertError>)
    requires
        ctx.program_id@.len() == 32,
    ensures
        (r is Ok) == (issue_error(
            old(store)@,
            ctx.authority.authorized,
            requested_view(
                ctx.authority.identity@,
                institution_id@,
                institution_name@,
                candidate_id@,
                candidate_name@,
                issued_at,
                description@,
                uri_view(uri),
            ),
            ctx.program_id@,
        ) is None),
        r matches Err(e) ==> Some(e) == issue_error(
            old(store)@,
            ctx.authority.authorized,
            requested_view(
                ctx.authority.identity@,
                institution_id@,
                institution_name@,
                candidate_id@,
                candidate_name@,
                issued_at,
                description@,
                uri_view(uri),
            ),
            ctx.program_id@,
        ),
        r matches Ok(c) ==> c@ == requested_view(
            ctx.authority.identity@,
            institution_id@,
            institution_name@,
            candidate_id@,
            candidate_name@,
            issued_at,
            description@,
            uri_view(uri),
        ),
        final(store)@ == issue_map(
            old(store)@,
            ctx.authority.authorized,
            requested_view(
                ctx.authority.identity@,
                institution_id@,
                institution_name@,
                candidate_id@,
                candidate_name@,
                issued_at,
                description@,
                uri_view(uri),
            ),
            ctx.program_id@,
        ),
{
    let cert = Certificate {
        issuer: copy_bytes(&ctx.authority.identity),
        institution_id,
        institution_name,
        candidate_id,
        candidate_name,
        issued_at,
        description,
        uri,
    };
    let encoded = match cert.encode() {
        Ok(b) => b,
        Err(e) => { return Err(e) },
    };
    let addr = match derive_address(
        &cert.institution_id,
        &cert.candidate_id,
        cert.issued_at,
        &ctx.program_id,
    ) {
        Some(a) => a,
        None => { return Err(CertError::DerivationFailed) },
    };
    let size = Certificate::required_size();
    match allocate(store, &addr, size, &ctx.authority) {
        Ok(u) => u,
        Err(e) => { return Err(e) },
    };
    proof {
        lemma_encode_len(cert@);
    }
    store.write(&addr, &encoded);
    proof {
        assert(encoded@ + zero_region(size as nat).skip(encoded@.len() as int) =~= issued_region(
            cert@,
        ));
        assert(final(store)@ =~= issue_map(
            old(store)@,
            ctx.authority.authorized,
            cert@,
            ctx.program_id@,
        ));
    }
    Ok(cert)
}

/// The record stored at an address, decoded from the region's bytes; a
/// missing region reads as corrupt storage.
pub fn read_certificate(store: &Store, addr: &Vec<u8>) -> (r: Result<Certificate, CertError>)
    ensures
        !store@.contains_key(addr@) ==> (r matches Err(e) && e == CertError::DecodingError),
        store@.contains_key(addr@) ==> match decode_spec(store@[addr@]) {
            Some(v) => r matches Ok(c) && c@ == v,
            None => r matches Err(e) && e == CertError::DecodingError,
        },
{
    match store.read(addr) {
        Some(bytes) => Certificate::decode(&bytes),
        None => Err(CertError::DecodingError),
    }
}

/// What a successful issuance persists at the derived address decodes back
/// to the issued record, provided its string fields hold valid UTF-8: a
/// stored certificate reads back unchanged.
pub proof fn lemma_issued_region_decodes(v: CertificateView)
    requires
        encodable(v),
    ensures
        utf8_fields(v) ==> decode_spec(issued_region(v)) == Some(v),
{
    lemma_encode_len(v);
    lemma_round_trip(v, zero_region((HEADER_LEN + 585 - encode_spec(v).len()) as nat));
}

/// Exactly-once issuance: once an issuance for a key triple has succeeded,
/// issuing the same request again finds the derived address occupied,
/// fails with AlreadyExists, and leaves the store — the first record
/// included — unchanged.
pub proof fn lemma_issue_exactly_once(
    m: Map<Seq<u8>, Seq<u8>>,
    authorized: bool,
    v: CertificateView,
    program_id: Seq<u8>,
)
    requires
        issue_error(m, authorized, v, program_id) is None,
    ensures
        issue_error(issue_map(m, authorized, v, program_id), authorized, v, program_id) == Some(
            CertError::AlreadyExists,
        ),
        issue_map(issue_map(m, authorized, v, program_id), authorized, v, program_id) == issue_map(
            m,
            authorized,
            v,
            program_id,
        ),
        issue_map(m, authorized, v, program_id)[address_spec(
            v.institution_id,
            v.candidate_id,
            v.issued_at,
            program_id,
        ).unwrap()] == issued_region(v),
{
}

} // verus!
