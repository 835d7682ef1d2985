use vstd::prelude::*;

verus! {

/// Fixed size of the `issuer` public identity, in bytes.
pub const ISSUER_LEN: usize = 32;
/// Maximum encoded length of `institution_id`, in bytes.
pub const MAX_INSTITUTION_ID_LEN: usize = 32;
/// Maximum encoded length of `institution_name`, in bytes.
pub const MAX_INSTITUTION_NAME_LEN: usize = 64;
/// Maximum encoded length of `candidate_id`, in bytes.
pub const MAX_CANDIDATE_ID_LEN: usize = 32;
/// Maximum encoded length of `candidate_name`, in bytes.
pub const MAX_CANDIDATE_NAME_LEN: usize = 64;
/// Maximum encoded length of `description`, in bytes.
pub const MAX_DESCRIPTION_LEN: usize = 128;
/// Maximum encoded length of `uri`, in bytes.
pub const MAX_URI_LEN: usize = 200;
/// Byte budget of the storage header that precedes the encoded record.
pub const HEADER_LEN: usize = 8;

/// A certificate record: one issuance of a credential by an institution to
/// a candidate at a point in time. String fields hold UTF-8 bytes.
#[derive(Debug)]
pub struct Certificate {
    /// Public identity of the authority that created the record.
    pub issuer: Vec<u8>,
    /// Institution identifier; part of the address derivation key.
    pub institution_id: Vec<u8>,
    /// Descriptive institution name.
    pub institution_name: Vec<u8>,
    /// Candidate identifier; part of the address derivation key.
    pub candidate_id: Vec<u8>,
    /// Descriptive candidate name.
    pub candidate_name: Vec<u8>,
    /// Issuance time in seconds; part of the address derivation key.
    pub issued_at: i64,
    /// Free text.
    pub description: Vec<u8>,
    /// Optional resource locator.
    pub uri: Option<Vec<u8>>,
}

/// The mathematical value of a [`Certificate`]: the same fields as byte
/// sequences. Contracts speak of records through this abstraction.
pub struct CertificateView {
    pub issuer: Seq<u8>,
    pub institution_id: Seq<u8>,
    pub institution_name: Seq<u8>,
    pub candidate_id: Seq<u8>,
    pub candidate_name: Seq<u8>,
    pub issued_at: i64,
    pub description: Seq<u8>,
    pub uri: Option<Seq<u8>>,
}

impl View for Certificate {
    type V = CertificateView;

    open spec fn view(&self) -> CertificateView {
        CertificateView {
            issuer: self.issuer@,
            institution_id: self.institution_id@,
            institution_name: self.institution_name@,
            candidate_id: self.candidate_id@,
            candidate_name: self.candidate_name@,
            issued_at: self.issued_at,
            description: self.description@,
            uri: match self.uri {
                Some(u) => Some(u@),
                None => None,
            },
        }
    }
}

/// A record can be encoded exactly when its issuer has the fixed identity
/// size and every variable-length field stays within its byte budget.
pub open spec fn encodable(v: CertificateView) -> bool {
    &&& v.issuer.len() == ISSUER_LEN
    &&& v.institution_id.len() <= MAX_INSTITUTION_ID_LEN
    &&& v.institution_name.len() <= MAX_INSTITUTION_NAME_LEN
    &&& v.candidate_id.len() <= MAX_CANDIDATE_ID_LEN
    &&& v.candidate_name.len() <= MAX_CANDIDATE_NAME_LEN
    &&& v.description.len() <= MAX_DESCRIPTION_LEN
    &&& match v.uri {
        Some(u) => u.len() <= MAX_URI_LEN,
        None => true,
    }
}

impl Certificate {
    /// Bytes a record occupies beyond the fixed header: every fixed field at
    /// its exact size, every variable field at its 4-byte length prefix plus
    /// its maximum budget, and one presence byte for the optional uri.
    pub fn len() -> (r: usize)
        ensures
            r == 585,
    {
        32 +        // issuer public identity
        4 + 32 +    // institution_id
        4 + 64 +    // institution_name
        4 + 32 +    // candidate_id
        4 + 64 +    // candidate_name
        8 +         // issued_at
        4 + 128 +   // description
        1 + 4 + 200 // uri presence byte, length prefix, data
    }

    /// Total storage to reserve for a record: the header budget plus the
    /// maximum encoded size. Independent of any actual field contents, so a
    /// region can be sized before the payload is known.
    pub fn required_size() -> (r: usize)
        ensures
            r == HEADER_LEN + 585,
    {
        HEADER_LEN + Certificate::len()
    }
}

} // verus!
