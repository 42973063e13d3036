//! The mathematical model of the OCSP request object graph: ghost views
//! of each entity, their well-formedness, the canonical DER encoding as
//! specification functions, and the strict parsers that accept exactly
//! that encoding.

use vstd::prelude::*;
use crate::codec::{spec_tlv, spec_parse_tlv, whole_tlv, MAX_CONTENT_LEN};
use crate::types::Version;

verus! {

pub const TAG_BOOLEAN: u8 = 0x01;
pub const TAG_BIT_STRING: u8 = 0x03;
pub const TAG_OCTET_STRING: u8 = 0x04;
pub const TAG_OID: u8 = 0x06;
pub const TAG_SEQUENCE: u8 = 0x30;
/// Context-specific constructed tag [0].
pub const TAG_CTX0: u8 = 0xA0;
/// Context-specific constructed tag [1].
pub const TAG_CTX1: u8 = 0xA1;
/// Context-specific constructed tag [2].
pub const TAG_CTX2: u8 = 0xA2;

/// View of a CertID: an opaque, already-encoded DER value (a SEQUENCE
/// holding the hash algorithm, the two issuer hashes and the serial
/// number, consumed here as a codec-compliant black box).
pub struct CertIdV {
    pub der: Seq<u8>,
}

impl CertIdV {
    pub open spec fn wf(self) -> bool {
        &&& whole_tlv(self.der)
        &&& self.der.len() >= 1
        &&& self.der[0] == TAG_SEQUENCE
        &&& self.der.len() <= MAX_CONTENT_LEN
    }
}

/// View of a GeneralName: an opaque, already-encoded DER value. Its tag
/// depends on the CHOICE alternative, so any single unit is accepted.
pub struct GeneralNameV {
    pub der: Seq<u8>,
}

impl GeneralNameV {
    pub open spec fn wf(self) -> bool {
        &&& whole_tlv(self.der)
        &&& self.der.len() <= MAX_CONTENT_LEN
    }
}

/// View of an AlgorithmIdentifier: an opaque, already-encoded SEQUENCE.
pub struct AlgorithmIdentifierV {
    pub der: Seq<u8>,
}

impl AlgorithmIdentifierV {
    pub open spec fn wf(self) -> bool {
        &&& whole_tlv(self.der)
        &&& self.der.len() >= 1
        &&& self.der[0] == TAG_SEQUENCE
        &&& self.der.len() <= MAX_CONTENT_LEN
    }
}

/// View of a Certificate: an opaque, already-encoded SEQUENCE.
pub struct CertificateV {
    pub der: Seq<u8>,
}

impl CertificateV {
    pub open spec fn wf(self) -> bool {
        &&& whole_tlv(self.der)
        &&& self.der.len() >= 1
        &&& self.der[0] == TAG_SEQUENCE
        &&& self.der.len() <= MAX_CONTENT_LEN
    }
}

/// View of a BIT STRING: the count of unused trailing bits in the last
/// octet, and the payload octets.
pub struct BitStringV {
    pub unused_bits: u8,
    pub data: Seq<u8>,
}

impl BitStringV {
    pub open spec fn wf(self) -> bool {
        &&& self.unused_bits < 8
        &&& self.data.len() == 0 ==> self.unused_bits == 0
        &&& 1 + self.data.len() <= MAX_CONTENT_LEN
    }
}

/// The content octets of an OBJECT IDENTIFIER: non-empty, the last octet
/// ends a subidentifier, and no subidentifier starts with a padding octet.
pub open spec fn spec_oid_ok(b: Seq<u8>) -> bool {
    &&& b.len() >= 1
    &&& b.last() < 0x80
    &&& forall|i: int|
        0 <= i < b.len() && (i == 0 || b[i - 1] < 0x80) ==> (#[trigger] b[i]) != 0x80
}

/// View of one X.509 extension: the object identifier's content octets,
/// the criticality flag, and the extnValue OCTET STRING's content octets
/// (kept opaque).
pub struct ExtensionV {
    pub extn_id: Seq<u8>,
    pub critical: bool,
    pub extn_value: Seq<u8>,
}

impl ExtensionV {
    pub open spec fn wf(self) -> bool {
        &&& spec_oid_ok(self.extn_id)
        &&& spec_ext_content(self).len() <= MAX_CONTENT_LEN
    }
}

/// Content octets of one encoded Extension: the id, the criticality flag
/// only when true (DER elides the FALSE default), then the value wrapped
/// as an OCTET STRING.
pub open spec fn spec_ext_content(e: ExtensionV) -> Seq<u8> {
    spec_tlv(TAG_OID, e.extn_id) + (if e.critical {
        seq![TAG_BOOLEAN, 1u8, 0xFFu8]
    } else {
        Seq::empty()
    }) + spec_tlv(TAG_OCTET_STRING, e.extn_value)
}

/// One encoded Extension.
pub open spec fn spec_ext(e: ExtensionV) -> Seq<u8> {
    spec_tlv(TAG_SEQUENCE, spec_ext_content(e))
}

/// Concatenation of the encoded extensions of a list.
pub open spec fn spec_exts_content(es: Seq<ExtensionV>) -> Seq<u8>
    decreases es.len(),
{
    if es.len() == 0 {
        Seq::empty()
    } else {
        spec_ext(es[0]) + spec_exts_content(es.skip(1))
    }
}

/// An encoded Extensions value: a SEQUENCE OF Extension.
pub open spec fn spec_exts(es: Seq<ExtensionV>) -> Seq<u8> {
    spec_tlv(TAG_SEQUENCE, spec_exts_content(es))
}

/// Well-formedness of an extension list: non-empty (an empty list is
/// encoded as an absent field instead), every entry well-formed, and the
/// encoding within the supported size.
pub open spec fn exts_wf(es: Seq<ExtensionV>) -> bool {
    &&& es.len() >= 1
    &&& forall|i: int| 0 <= i < es.len() ==> (#[trigger] es[i]).wf()
    &&& spec_exts(es).len() <= MAX_CONTENT_LEN
}

/// View of one Request: the certificate identifier and the optional
/// per-request extension list.
pub struct RequestV {
    pub req_cert: CertIdV,
    pub single_request_extensions: Option<Seq<ExtensionV>>,
}

impl RequestV {
    pub open spec fn wf(self) -> bool {
        &&& self.req_cert.wf()
        &&& match self.single_request_extensions {
            Some(es) => exts_wf(es),
            None => true,
        }
        &&& spec_request_content(self).len() <= MAX_CONTENT_LEN
    }
}

/// Content octets of one encoded Request: the CertID, then the extension
/// list under the explicit [0] tag when present.
pub open spec fn spec_request_content(r: RequestV) -> Seq<u8> {
    r.req_cert.der + match r.single_request_extensions {
        Some(es) => spec_tlv(TAG_CTX0, spec_exts(es)),
        None => Seq::empty(),
    }
}

/// One encoded Request.
pub open spec fn spec_request(r: RequestV) -> Seq<u8> {
    spec_tlv(TAG_SEQUENCE, spec_request_content(r))
}

/// Concatenation of the encoded requests of a list, in order.
pub open spec fn spec_req_list_content(rs: Seq<RequestV>) -> Seq<u8>
    decreases rs.len(),
{
    if rs.len() == 0 {
        Seq::empty()
    } else {
        spec_request(rs[0]) + spec_req_list_content(rs.skip(1))
    }
}

/// View of a TBSRequest. The version field always equals the v1 default,
/// so DER elides it from the encoding entirely.
pub struct TbsRequestV {
    pub version: Version,
    pub requestor_name: Option<GeneralNameV>,
    pub request_list: Seq<RequestV>,
    pub request_extensions: Option<Seq<ExtensionV>>,
}

impl TbsRequestV {
    pub open spec fn wf(self) -> bool {
        &&& match self.requestor_name {
            Some(n) => n.wf(),
            None => true,
        }
        &&& forall|i: int| 0 <= i < self.request_list.len() ==> (#[trigger] self.request_list[i]).wf()
        &&& spec_req_list_content(self.request_list).len() <= MAX_CONTENT_LEN
        &&& match self.request_extensions {
            Some(es) => exts_wf(es),
            None => true,
        }
        &&& spec_tbs_content(self).len() <= MAX_CONTENT_LEN
    }
}

/// Content octets of an encoded TBSRequest, in the fixed field order:
/// the version is elided (it always equals the default), then the
/// optional [1] requestorName, the SEQUENCE OF Request, and the optional
/// [2] requestExtensions.
pub open spec fn spec_tbs_content(t: TbsRequestV) -> Seq<u8> {
    (match t.requestor_name {
        Some(n) => spec_tlv(TAG_CTX1, n.der),
        None => Seq::empty(),
    }) + spec_tlv(TAG_SEQUENCE, spec_req_list_content(t.request_list)) + (
    match t.request_extensions {
        Some(es) => spec_tlv(TAG_CTX2, spec_exts(es)),
        None => Seq::empty(),
    })
}

/// One encoded TBSRequest.
pub open spec fn spec_tbs(t: TbsRequestV) -> Seq<u8> {
    spec_tlv(TAG_SEQUENCE, spec_tbs_content(t))
}

/// View of a Signature: the algorithm identifier, the signature bits,
/// and the optional certificate chain.
pub struct SignatureV {
    pub signature_algorithm: AlgorithmIdentifierV,
    pub signature: BitStringV,
    pub certs: Option<Seq<CertificateV>>,
}

/// Concatenation of the encoded certificates of a chain, in order.
pub open spec fn spec_certs_content(cs: Seq<CertificateV>) -> Seq<u8>
    decreases cs.len(),
{
    if cs.len() == 0 {
        Seq::empty()
    } else {
        cs[0].der + spec_certs_content(cs.skip(1))
    }
}

impl SignatureV {
    pub open spec fn wf(self) -> bool {
        &&& self.signature_algorithm.wf()
        &&& self.signature.wf()
        &&& match self.certs {
            Some(cs) => {
                &&& forall|i: int| 0 <= i < cs.len() ==> (#[trigger] cs[i]).wf()
                &&& spec_certs_content(cs).len() <= MAX_CONTENT_LEN
                &&& spec_tlv(TAG_SEQUENCE, spec_certs_content(cs)).len() <= MAX_CONTENT_LEN
            },
            None => true,
        }
        &&& spec_sig_content(self).len() <= MAX_CONTENT_LEN
    }
}

/// An encoded BIT STRING: one octet counting the unused trailing bits,
/// then the payload.
pub open spec fn spec_bit_string(bs: BitStringV) -> Seq<u8> {
    spec_tlv(TAG_BIT_STRING, seq![bs.unused_bits] + bs.data)
}

/// Content octets of an encoded Signature: the algorithm identifier, the
/// signature BIT STRING, then the certificate chain under the explicit
/// [0] tag when present.
pub open spec fn spec_sig_content(s: SignatureV) -> Seq<u8> {
    s.signature_algorithm.der + spec_bit_string(s.signature) + match s.certs {
        Some(cs) => spec_tlv(TAG_CTX0, spec_tlv(TAG_SEQUENCE, spec_certs_content(cs))),
        None => Seq::empty(),
    }
}

/// One encoded Signature.
pub open spec fn spec_signature(s: SignatureV) -> Seq<u8> {
    spec_tlv(TAG_SEQUENCE, spec_sig_content(s))
}

/// View of an OCSPRequest: the to-be-signed body and the optional
/// signature.
pub struct OcspRequestV {
    pub tbs_request: TbsRequestV,
    pub optional_signature: Option<SignatureV>,
}

impl OcspRequestV {
    pub open spec fn wf(self) -> bool {
        &&& self.tbs_request.wf()
        &&& match self.optional_signature {
            Some(s) => s.wf() && spec_signature(s).len() <= MAX_CONTENT_LEN,
            None => true,
        }
        &&& spec_ocsp_content(self).len() <= MAX_CONTENT_LEN
    }
}

/// Content octets of an encoded OCSPRequest: the TBSRequest, then the
/// signature under the explicit [0] tag when present.
pub open spec fn spec_ocsp_content(v: OcspRequestV) -> Seq<u8> {
    spec_tbs(v.tbs_request) + match v.optional_signature {
        Some(s) => spec_tlv(TAG_CTX0, spec_signature(s)),
        None => Seq::empty(),
    }
}

/// One encoded OCSPRequest.
pub open spec fn spec_ocsp(v: OcspRequestV) -> Seq<u8> {
    spec_tlv(TAG_SEQUENCE, spec_ocsp_content(v))
}

// ---------------------------------------------------------------------
// Strict parsers. Each consumes from the front of its input and gives
// the parsed view with the count of octets consumed; each accepts
// exactly the canonical encodings that the functions above produce.
// ---------------------------------------------------------------------

/// Parses one CertID as an opaque SEQUENCE unit.
pub open spec fn spec_parse_certid(b: Seq<u8>) -> Option<(CertIdV, nat)> {
    match spec_parse_tlv(b) {
        Some((tag, content, k)) => {
            if tag == TAG_SEQUENCE {
                Some((CertIdV { der: b.take(k as int) }, k))
            } else {
                None
            }
        },
        None => None,
    }
}

/// Parses one GeneralName as an opaque unit of any tag.
pub open spec fn spec_parse_gname(b: Seq<u8>) -> Option<(GeneralNameV, nat)> {
    match spec_parse_tlv(b) {
        Some((tag, content, k)) => Some((GeneralNameV { der: b.take(k as int) }, k)),
        None => None,
    }
}

/// Parses one AlgorithmIdentifier as an opaque SEQUENCE unit.
pub open spec fn spec_parse_algid(b: Seq<u8>) -> Option<(AlgorithmIdentifierV, nat)> {
    match spec_parse_tlv(b) {
        Some((tag, content, k)) => {
            if tag == TAG_SEQUENCE {
                Some((AlgorithmIdentifierV { der: b.take(k as int) }, k))
            } else {
                None
            }
        },
        None => None,
    }
}

/// Parses one Certificate as an opaque SEQUENCE unit.
pub open spec fn spec_parse_cert(b: Seq<u8>) -> Option<(CertificateV, nat)> {
    match spec_parse_tlv(b) {
        Some((tag, content, k)) => {
            if tag == TAG_SEQUENCE {
                Some((CertificateV { der: b.take(k as int) }, k))
            } else {
                None
            }
        },
        None => None,
    }
}

/// Parses one BIT STRING: the content carries the unused-bit count, which
/// must be below eight and zero for an empty payload.
pub open spec fn spec_parse_bit_string(b: Seq<u8>) -> Option<(BitStringV, nat)> {
    match spec_parse_tlv(b) {
        Some((tag, content, k)) => {
            if tag == TAG_BIT_STRING && content.len() >= 1 && content[0] < 8 && (content.len() == 1
                ==> content[0] == 0) {
                Some((BitStringV { unused_bits: content[0], data: content.skip(1) }, k))
            } else {
                None
            }
        },
        None => None,
    }
}

/// Parses an OCTET STRING that fills `b` exactly, giving its content.
pub open spec fn spec_parse_octets_exact(b: Seq<u8>) -> Option<Seq<u8>> {
    match spec_parse_tlv(b) {
        Some((tag, content, k)) => {
            if tag == TAG_OCTET_STRING && k == b.len() {
                Some(content)
            } else {
                None
            }
        },
        None => None,
    }
}

/// Parses what follows the extension id inside an Extension: the optional
/// criticality BOOLEAN (DER accepts only an explicit TRUE, since FALSE is
/// the default and must be elided), then the value OCTET STRING, which
/// must end the extension exactly.
pub open spec fn spec_parse_ext_tail(r: Seq<u8>) -> Option<(bool, Seq<u8>)> {
    if r.len() >= 1 && r[0] == TAG_BOOLEAN {
        if r.len() >= 3 && r[1] == 1 && r[2] == 0xFF {
            match spec_parse_octets_exact(r.skip(3)) {
                Some(v) => Some((true, v)),
                None => None,
            }
        } else {
            None
        }
    } else {
        match spec_parse_octets_exact(r) {
            Some(v) => Some((false, v)),
            None => None,
        }
    }
}

/// Parses one Extension. Kept opaque: callers reason through its
/// parsed value and reveal it only to unfold one step.
#[verifier::opaque]
pub open spec fn spec_parse_ext(b: Seq<u8>) -> Option<(ExtensionV, nat)> {
    match spec_parse_tlv(b) {
        Some((tag, content, k)) => {
            if tag == TAG_SEQUENCE {
                match spec_parse_tlv(content) {
                    Some((t1, id, k1)) => {
                        if t1 == TAG_OID && spec_oid_ok(id) {
                            match spec_parse_ext_tail(content.skip(k1 as int)) {
                                Some((crit, v)) => Some((
                                    ExtensionV { extn_id: id, critical: crit, extn_value: v },
                                    k,
                                )),
                                None => None,
                            }
                        } else {
                            None
                        }
                    },
                    None => None,
                }
            } else {
                None
            }
        },
        None => None,
    }
}

/// Parses a whole SEQUENCE OF Extension content: each entry in turn until
/// the content is exhausted.
pub open spec fn spec_parse_ext_seq(content: Seq<u8>) -> Option<Seq<ExtensionV>>
    decreases content.len(),
{
    if content.len() == 0 {
        Some(Seq::empty())
    } else {
        match spec_parse_ext(content) {
            Some((e, k)) => {
                if 1 <= k <= content.len() {
                    match spec_parse_ext_seq(content.skip(k as int)) {
                        Some(rest) => Some(seq![e] + rest),
                        None => None,
                    }
                } else {
                    None
                }
            },
            None => None,
        }
    }
}

/// Parses one Extensions value: a SEQUENCE OF Extension, rejected when
/// empty (an absent field is the only encoding of "no extensions").
pub open spec fn spec_parse_exts(b: Seq<u8>) -> Option<(Seq<ExtensionV>, nat)> {
    match spec_parse_tlv(b) {
        Some((tag, content, k)) => {
            if tag == TAG_SEQUENCE && content.len() >= 1 {
                match spec_parse_ext_seq(content) {
                    Some(es) => Some((es, k)),
                    None => None,
                }
            } else {
                None
            }
        },
        None => None,
    }
}

/// Parses an explicitly tagged Extensions value: the context tag wraps
/// exactly one Extensions SEQUENCE.
pub open spec fn spec_parse_explicit_exts(b: Seq<u8>, ctag: u8) -> Option<(Seq<ExtensionV>, nat)> {
    match spec_parse_tlv(b) {
        Some((tag, content, k)) => {
            if tag == ctag {
                match spec_parse_exts(content) {
                    Some((es, k2)) => {
                        if k2 == content.len() {
                            Some((es, k))
                        } else {
                            None
                        }
                    },
                    None => None,
                }
            } else {
                None
            }
        },
        None => None,
    }
}

/// Parses an optional explicitly tagged Extensions field: absent when the
/// next tag differs, consuming nothing.
pub open spec fn spec_parse_opt_exts(b: Seq<u8>, ctag: u8) -> Option<(
    Option<Seq<ExtensionV>>,
    nat,
)> {
    if b.len() >= 1 && b[0] == ctag {
        match spec_parse_explicit_exts(b, ctag) {
            Some((es, k)) => Some((Some(es), k)),
            None => None,
        }
    } else {
        Some((None, 0))
    }
}

/// Parses one Request. Kept opaque: callers reason through its parsed
/// value and reveal it only to unfold one step.
#[verifier::opaque]
pub open spec fn spec_parse_request(b: Seq<u8>) -> Option<(RequestV, nat)> {
    match spec_parse_tlv(b) {
        Some((tag, content, k)) => {
            if tag == TAG_SEQUENCE {
                match spec_parse_certid(content) {
                    Some((cid, k1)) => {
                        match spec_parse_opt_exts(content.skip(k1 as int), TAG_CTX0) {
                            Some((oes, k2)) => {
                                if k1 + k2 == content.len() {
                                    Some((
                                        RequestV {
                                            req_cert: cid,
                                            single_request_extensions: oes,
                                        },
                                        k,
                                    ))
                                } else {
                                    None
                                }
                            },
                            None => None,
                        }
                    },
                    None => None,
                }
            } else {
                None
            }
        },
        None => None,
    }
}

/// Parses a whole SEQUENCE OF Request content, in order.
pub open spec fn spec_parse_req_seq(content: Seq<u8>) -> Option<Seq<RequestV>>
    decreases content.len(),
{
    if content.len() == 0 {
        Some(Seq::empty())
    } else {
        match spec_parse_request(content) {
            Some((r, k)) => {
                if 1 <= k <= content.len() {
                    match spec_parse_req_seq(content.skip(k as int)) {
                        Some(rest) => Some(seq![r] + rest),
                        None => None,
                    }
                } else {
                    None
                }
            },
            None => None,
        }
    }
}

/// Parses an optional [1] EXPLICIT GeneralName: the context tag wraps
/// exactly one opaque unit.
pub open spec fn spec_parse_opt_name(b: Seq<u8>) -> Option<(Option<GeneralNameV>, nat)> {
    if b.len() >= 1 && b[0] == TAG_CTX1 {
        match spec_parse_tlv(b) {
            Some((tag, content, k)) => {
                match spec_parse_gname(content) {
                    Some((gn, kg)) => {
                        if kg == content.len() {
                            Some((Some(gn), k))
                        } else {
                            None
                        }
                    },
                    None => None,
                }
            },
            None => None,
        }
    } else {
        Some((None, 0))
    }
}

/// Parses a whole TBSRequest content. A [0]-tagged version field is
/// rejected outright: the only defined version is the default v1, whose
/// explicit encoding DER forbids. Kept opaque: callers reason through
/// the parsers above it and reveal it only to unfold one step.
#[verifier::opaque]
pub open spec fn spec_parse_tbs_content(c: Seq<u8>) -> Option<TbsRequestV> {
    if c.len() >= 1 && c[0] == TAG_CTX0 {
        None
    } else {
        match spec_parse_opt_name(c) {
            Some((name, k1)) => {
                let c1 = c.skip(k1 as int);
                match spec_parse_tlv(c1) {
                    Some((tag, lc, k2)) => {
                        if tag == TAG_SEQUENCE {
                            match spec_parse_req_seq(lc) {
                                Some(rs) => {
                                    let c2 = c1.skip(k2 as int);
                                    match spec_parse_opt_exts(c2, TAG_CTX2) {
                                        Some((oes, k3)) => {
                                            if k3 == c2.len() {
                                                Some(
                                                    TbsRequestV {
                                                        version: Version::V1,
                                                        requestor_name: name,
                                                        request_list: rs,
                                                        request_extensions: oes,
                                                    },
                                                )
                                            } else {
                                                None
                                            }
                                        },
                                        None => None,
                                    }
                                },
                                None => None,
                            }
                        } else {
                            None
                        }
                    },
                    None => None,
                }
            },
            None => None,
        }
    }
}

/// Parses one TBSRequest.
pub open spec fn spec_parse_tbs(b: Seq<u8>) -> Option<(TbsRequestV, nat)> {
    match spec_parse_tlv(b) {
        Some((tag, content, k)) => {
            if tag == TAG_SEQUENCE {
                match spec_parse_tbs_content(content) {
                    Some(t) => Some((t, k)),
                    None => None,
                }
            } else {
                None
            }
        },
        None => None,
    }
}

/// Parses a whole SEQUENCE OF Certificate content, in order.
pub open spec fn spec_parse_cert_seq(content: Seq<u8>) -> Option<Seq<CertificateV>>
    decreases content.len(),
{
    if content.len() == 0 {
        Some(Seq::empty())
    } else {
        match spec_parse_cert(content) {
            Some((c, k)) => {
                if 1 <= k <= content.len() {
                    match spec_parse_cert_seq(content.skip(k as int)) {
                        Some(rest) => Some(seq![c] + rest),
                        None => None,
                    }
                } else {
                    None
                }
            },
            None => None,
        }
    }
}

/// Parses a whole Signature content: the algorithm identifier, the
/// signature BIT STRING, then the optional [0] EXPLICIT certificate
/// chain, which must end the content exactly. Kept opaque: callers
/// reason through the Signature parser and reveal it only to unfold one
/// step.
#[verifier::opaque]
pub open spec fn spec_parse_sig_content(c: Seq<u8>) -> Option<SignatureV> {
    match spec_parse_algid(c) {
        Some((alg, k1)) => {
            let c1 = c.skip(k1 as int);
            match spec_parse_bit_string(c1) {
                Some((bs, k2)) => {
                    let c2 = c1.skip(k2 as int);
                    if c2.len() == 0 {
                        Some(SignatureV { signature_algorithm: alg, signature: bs, certs: None })
                    } else if c2[0] == TAG_CTX0 {
                        match spec_parse_tlv(c2) {
                            Some((tag, w, k3)) => {
                                if k3 == c2.len() {
                                    match spec_parse_tlv(w) {
                                        Some((t2, lc, k4)) => {
                                            if t2 == TAG_SEQUENCE && k4 == w.len() {
                                                match spec_parse_cert_seq(lc) {
                                                    Some(cs) => Some(
                                                        SignatureV {
                                                            signature_algorithm: alg,
                                                            signature: bs,
                                                            certs: Some(cs),
                                                        },
                                                    ),
                                                    None => None,
                                                }
                                            } else {
                                                None
                                            }
                                        },
                                        None => None,
                                    }
                                } else {
                                    None
                                }
                            },
                            None => None,
                        }
                    } else {
                        None
                    }
                },
                None => None,
            }
        },
        None => None,
    }
}

/// Parses one Signature.
pub open spec fn spec_parse_signature(b: Seq<u8>) -> Option<(SignatureV, nat)> {
    match spec_parse_tlv(b) {
        Some((tag, content, k)) => {
            if tag == TAG_SEQUENCE {
                match spec_parse_sig_content(content) {
                    Some(s) => Some((s, k)),
                    None => None,
                }
            } else {
                None
            }
        },
        None => None,
    }
}

/// Parses an optional [0] EXPLICIT Signature that must fill its input
/// exactly: absent on empty input, else the context tag wraps exactly
/// one Signature.
pub open spec fn spec_parse_opt_sig(c: Seq<u8>) -> Option<Option<SignatureV>> {
    if c.len() == 0 {
        Some(None)
    } else if c[0] == TAG_CTX0 {
        match spec_parse_tlv(c) {
            Some((tag, w, k2)) => {
                if k2 == c.len() {
                    match spec_parse_signature(w) {
                        Some((s, k3)) => {
                            if k3 == w.len() {
                                Some(Some(s))
                            } else {
                                None
                            }
                        },
                        None => None,
                    }
                } else {
                    None
                }
            },
            None => None,
        }
    } else {
        None
    }
}

/// Parses a whole OCSPRequest content: the TBSRequest, then the optional
/// [0] EXPLICIT Signature, which must end the content exactly.
pub open spec fn spec_parse_ocsp_content(c: Seq<u8>) -> Option<OcspRequestV> {
    match spec_parse_tbs(c) {
        Some((t, k1)) => {
            match spec_parse_opt_sig(c.skip(k1 as int)) {
                Some(os) => Some(OcspRequestV { tbs_request: t, optional_signature: os }),
                None => None,
            }
        },
        None => None,
    }
}

/// Parses one OCSPRequest.
pub open spec fn spec_parse_ocsp(b: Seq<u8>) -> Option<(OcspRequestV, nat)> {
    match spec_parse_tlv(b) {
        Some((tag, content, k)) => {
            if tag == TAG_SEQUENCE {
                match spec_parse_ocsp_content(content) {
                    Some(v) => Some((v, k)),
                    None => None,
                }
            } else {
                None
            }
        },
        None => None,
    }
}

/// Decodes a complete buffer as one OCSPRequest with nothing after it.
pub open spec fn spec_decode_ocsp(b: Seq<u8>) -> Option<OcspRequestV> {
    match spec_parse_ocsp(b) {
        Some((v, k)) => {
            if k == b.len() {
                Some(v)
            } else {
                None
            }
        },
        None => None,
    }
}

/// Decodes a complete buffer as one TBSRequest with nothing after it.
pub open spec fn spec_decode_tbs(b: Seq<u8>) -> Option<TbsRequestV> {
    match spec_parse_tbs(b) {
        Some((t, k)) => {
            if k == b.len() {
                Some(t)
            } else {
                None
            }
        },
        None => None,
    }
}

/// Decodes a complete buffer as one Request with nothing after it.
pub open spec fn spec_decode_request(b: Seq<u8>) -> Option<RequestV> {
    match spec_parse_request(b) {
        Some((r, k)) => {
            if k == b.len() {
                Some(r)
            } else {
                None
            }
        },
        None => None,
    }
}

/// Decodes a complete buffer as one Signature with nothing after it.
pub open spec fn spec_decode_signature(b: Seq<u8>) -> Option<SignatureV> {
    match spec_parse_signature(b) {
        Some((s, k)) => {
            if k == b.len() {
                Some(s)
            } else {
                None
            }
        },
        None => None,
    }
}

} // verus!
