//! The typed representation of the OCSP request object graph, with the
//! view of each type into the mathematical model.

use vstd::prelude::*;
use crate::model::{
    AlgorithmIdentifierV, BitStringV, CertIdV, CertificateV, ExtensionV, GeneralNameV,
    OcspRequestV, RequestV, SignatureV, TbsRequestV,
};

verus! {

/// A structural decode failure: a tag mismatch, a truncated or
/// non-minimal length, trailing octets, or a non-canonical encoding of a
/// DEFAULT or OPTIONAL field. Decoding is all-or-nothing, so no further
/// detail is carried.
#[derive(Clone, Copy, Debug, PartialEq, Eq, Structural)]
pub struct DecodeError;

/// The protocol version. RFC 6960 defines only v1, the default; DER
/// elides a DEFAULT field whose value equals the default, so the version
/// never appears on the wire.
#[derive(Clone, Copy, Debug, PartialEq, Eq, Structural)]
pub enum Version {
    V1,
}

/// A CertID, consumed as an opaque codec-compliant value: its complete
/// DER encoding (a SEQUENCE).
#[derive(Clone, Debug, PartialEq, Eq)]
pub struct CertId {
    pub der: Vec<u8>,
}

impl View for CertId {
    type V = CertIdV;

    open spec fn view(&self) -> CertIdV {
        CertIdV { der: self.der@ }
    }
}

/// A GeneralName, consumed as an opaque codec-compliant value: its
/// complete DER encoding (one unit of any tag, the CHOICE being opaque
/// here).
#[derive(Clone, Debug, PartialEq, Eq)]
pub struct GeneralName {
    pub der: Vec<u8>,
}

impl View for GeneralName {
    type V = GeneralNameV;

    open spec fn view(&self) -> GeneralNameV {
        GeneralNameV { der: self.der@ }
    }
}

/// An AlgorithmIdentifier, consumed as an opaque codec-compliant value:
/// its complete DER encoding (a SEQUENCE).
#[derive(Clone, Debug, PartialEq, Eq)]
pub struct AlgorithmIdentifier {
    pub der: Vec<u8>,
}

impl View for AlgorithmIdentifier {
    type V = AlgorithmIdentifierV;

    open spec fn view(&self) -> AlgorithmIdentifierV {
        AlgorithmIdentifierV { der: self.der@ }
    }
}

/// A Certificate, consumed as an opaque codec-compliant value: its
/// complete DER encoding (a SEQUENCE).
#[derive(Clone, Debug, PartialEq, Eq)]
pub struct Certificate {
    pub der: Vec<u8>,
}

impl View for Certificate {
    type V = CertificateV;

    open spec fn view(&self) -> CertificateV {
        CertificateV { der: self.der@ }
    }
}

/// An ASN.1 BIT STRING: the count of unused trailing bits in the last
/// octet, and the payload octets.
#[derive(Clone, Debug, PartialEq, Eq)]
pub struct BitString {
    pub unused_bits: u8,
    pub data: Vec<u8>,
}

impl View for BitString {
    type V = BitStringV;

    open spec fn view(&self) -> BitStringV {
        BitStringV { unused_bits: self.unused_bits, data: self.data@ }
    }
}

/// One X.509 extension: the extension id as the content octets of its
/// OBJECT IDENTIFIER, the criticality flag, and the content octets of the
/// extnValue OCTET STRING, kept opaque. Unknown extension ids pass
/// through the codec unchanged.
#[derive(Clone, Debug, PartialEq, Eq)]
pub struct Extension {
    pub extn_id: Vec<u8>,
    pub critical: bool,
    pub extn_value: Vec<u8>,
}

impl View for Extension {
    type V = ExtensionV;

    open spec fn view(&self) -> ExtensionV {
        ExtensionV { extn_id: self.extn_id@, critical: self.critical, extn_value: self.extn_value@ }
    }
}

/// The view of an optional extension list.
pub open spec fn view_opt_exts(oes: Option<Vec<Extension>>) -> Option<Seq<ExtensionV>> {
    match oes {
        Some(es) => Some(es@.map_values(|e: Extension| e@)),
        None => None,
    }
}

/// One certificate status query: the certificate identifier and the
/// optional per-request extension list.
#[derive(Clone, Debug, PartialEq, Eq)]
pub struct Request {
    pub req_cert: CertId,
    pub single_request_extensions: Option<Vec<Extension>>,
}

impl View for Request {
    type V = RequestV;

    open spec fn view(&self) -> RequestV {
        RequestV {
            req_cert: self.req_cert@,
            single_request_extensions: view_opt_exts(self.single_request_extensions),
        }
    }
}

/// The to-be-signed body of an OCSP request: the version (always the v1
/// default), the optional requestor name, the ordered list of queries,
/// and the optional top-level extension list.
#[derive(Clone, Debug, PartialEq, Eq)]
pub struct TbsRequest {
    pub version: Version,
    pub requestor_name: Option<GeneralName>,
    pub request_list: Vec<Request>,
    pub request_extensions: Option<Vec<Extension>>,
}

impl View for TbsRequest {
    type V = TbsRequestV;

    open spec fn view(&self) -> TbsRequestV {
        TbsRequestV {
            version: self.version,
            requestor_name: match self.requestor_name {
                Some(n) => Some(n@),
                None => None,
            },
            request_list: self.request_list@.map_values(|r: Request| r@),
            request_extensions: view_opt_exts(self.request_extensions),
        }
    }
}

/// The signature over a TBSRequest: the algorithm, the signature bits,
/// and the optional supporting certificate chain.
#[derive(Clone, Debug, PartialEq, Eq)]
pub struct Signature {
    pub signature_algorithm: AlgorithmIdentifier,
    pub signature: BitString,
    pub certs: Option<Vec<Certificate>>,
}

impl View for Signature {
    type V = SignatureV;

    open spec fn view(&self) -> SignatureV {
        SignatureV {
            signature_algorithm: self.signature_algorithm@,
            signature: self.signature@,
            certs: match self.certs {
                Some(cs) => Some(cs@.map_values(|c: Certificate| c@)),
                None => None,
            },
        }
    }
}

/// The root of the object graph: the to-be-signed body and the optional
/// signature. An absent signature is an unsigned (anonymous) request.
#[derive(Clone, Debug, PartialEq, Eq)]
pub struct OcspRequest {
    pub tbs_request: TbsRequest,
    pub optional_signature: Option<Signature>,
}

impl View for OcspRequest {
    type V = OcspRequestV;

    open spec fn view(&self) -> OcspRequestV {
        OcspRequestV {
            tbs_request: self.tbs_request@,
            optional_signature: match self.optional_signature {
                Some(s) => Some(s@),
                None => None,
            },
        }
    }
}

/// A decoded nonce value: the content octets of the nonce extension's
/// inner OCTET STRING.
#[derive(Clone, Debug, PartialEq, Eq)]
pub struct Nonce {
    pub bytes: Vec<u8>,
}

} // verus!
