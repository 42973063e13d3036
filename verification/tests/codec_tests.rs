use ocsp_request::types::{
    AlgorithmIdentifier, BitString, CertId, Certificate, Extension, GeneralName, OcspRequest,
    Request, Signature, TbsRequest, Version,
};

fn sample_cert_id() -> CertId {
    CertId { der: vec![0x30, 0x03, 0x02, 0x01, 0x05] }
}

fn nonce_oid_bytes() -> Vec<u8> {
    vec![0x2B, 0x06, 0x01, 0x05, 0x05, 0x07, 0x30, 0x01, 0x02]
}

fn nonce_extension() -> Extension {
    Extension {
        extn_id: nonce_oid_bytes(),
        critical: false,
        // The extnValue content: a DER OCTET STRING holding DE AD BE EF.
        extn_value: vec![0x04, 0x04, 0xDE, 0xAD, 0xBE, 0xEF],
    }
}

fn sample_signature() -> Signature {
    Signature {
        signature_algorithm: AlgorithmIdentifier { der: vec![0x30, 0x05, 0x06, 0x03, 0x2A, 0x03, 0x04] },
        signature: BitString { unused_bits: 0, data: vec![0xAA, 0xBB] },
        certs: Some(vec![Certificate { der: vec![0x30, 0x03, 0x0C, 0x01, 0x41] }]),
    }
}

fn full_request() -> OcspRequest {
    OcspRequest {
        tbs_request: TbsRequest {
            version: Version::V1,
            requestor_name: Some(GeneralName { der: vec![0x81, 0x02, 0x68, 0x69] }),
            request_list: vec![Request {
                req_cert: sample_cert_id(),
                single_request_extensions: None,
            }],
            request_extensions: Some(vec![nonce_extension()]),
        },
        optional_signature: Some(sample_signature()),
    }
}

#[test]
fn round_trip_full_request() {
    let v = full_request();
    let bytes = v.encode();
    let decoded = OcspRequest::decode(&bytes).expect("canonical encoding must decode");
    assert_eq!(decoded, v);
}

#[test]
fn round_trip_minimal_request() {
    let v = OcspRequest {
        tbs_request: TbsRequest {
            version: Version::V1,
            requestor_name: None,
            request_list: vec![],
            request_extensions: None,
        },
        optional_signature: None,
    };
    let bytes = v.encode();
    assert_eq!(bytes, vec![0x30, 0x04, 0x30, 0x02, 0x30, 0x00]);
    let decoded = OcspRequest::decode(&bytes).expect("minimal request must decode");
    assert_eq!(decoded, v);
}

#[test]
fn round_trip_request_entity() {
    let r = Request {
        req_cert: sample_cert_id(),
        single_request_extensions: Some(vec![Extension {
            extn_id: vec![0x55, 0x1D, 0x0E],
            critical: true,
            extn_value: vec![0x01, 0x02, 0x03],
        }]),
    };
    let bytes = r.encode();
    let decoded = Request::decode(&bytes).expect("canonical Request must decode");
    assert_eq!(decoded, r);
}

#[test]
fn round_trip_signature_entity() {
    let s = sample_signature();
    let bytes = s.encode();
    let decoded = Signature::decode(&bytes).expect("canonical Signature must decode");
    assert_eq!(decoded, s);

    let unsigned_chain = Signature {
        signature_algorithm: AlgorithmIdentifier { der: vec![0x30, 0x05, 0x06, 0x03, 0x2A, 0x03, 0x04] },
        signature: BitString { unused_bits: 3, data: vec![0xA8] },
        certs: None,
    };
    let bytes2 = unsigned_chain.encode();
    let decoded2 = Signature::decode(&bytes2).expect("Signature without certs must decode");
    assert_eq!(decoded2, unsigned_chain);
}

#[test]
fn default_version_is_elided() {
    // The encoded TBSRequest carries no [0]-tagged version field at all.
    let t = TbsRequest {
        version: Version::V1,
        requestor_name: None,
        request_list: vec![Request { req_cert: sample_cert_id(), single_request_extensions: None }],
        request_extensions: None,
    };
    let bytes = t.encode();
    // SEQUENCE { SEQUENCE OF { SEQUENCE { certid } } }: no 0xA0 anywhere.
    assert_eq!(
        bytes,
        vec![0x30, 0x09, 0x30, 0x07, 0x30, 0x05, 0x30, 0x03, 0x02, 0x01, 0x05]
    );
    assert!(!bytes.contains(&0xA0));
}

#[test]
fn explicit_default_version_is_rejected() {
    // TBSRequest whose content opens with [0] { INTEGER 0 }: the version
    // explicitly encoded as its default value violates DER and must fail.
    let tbs = vec![0x30, 0x07, 0xA0, 0x03, 0x02, 0x01, 0x00, 0x30, 0x00];
    assert!(TbsRequest::decode(&tbs).is_err());
    let mut ocsp = vec![0x30, 0x09];
    ocsp.extend_from_slice(&tbs);
    assert!(OcspRequest::decode(&ocsp).is_err());
}

#[test]
fn explicit_nondefault_version_is_rejected() {
    // Only v1 exists, so any explicitly encoded version is malformed.
    let tbs = vec![0x30, 0x07, 0xA0, 0x03, 0x02, 0x01, 0x05, 0x30, 0x00];
    assert!(TbsRequest::decode(&tbs).is_err());
}

#[test]
fn unsigned_request_decodes_to_absent_signature() {
    let bytes = vec![0x30, 0x04, 0x30, 0x02, 0x30, 0x00];
    let decoded = OcspRequest::decode(&bytes).expect("two-element SEQUENCE must decode");
    assert_eq!(decoded.optional_signature, None);
    assert_eq!(decoded.tbs_request.request_list.len(), 0);
}

#[test]
fn signed_request_decodes_to_matching_signature() {
    let v = full_request();
    let bytes = v.encode();
    let decoded = OcspRequest::decode(&bytes).expect("signed request must decode");
    let sig = decoded.optional_signature.expect("signature must be present");
    assert_eq!(sig, sample_signature());
    assert_eq!(sig.signature.unused_bits, 0);
    assert_eq!(sig.signature.data, vec![0xAA, 0xBB]);
    assert_eq!(sig.certs, Some(vec![Certificate { der: vec![0x30, 0x03, 0x0C, 0x01, 0x41] }]));
}

#[test]
fn empty_request_list_decodes_and_reencodes() {
    let bytes = vec![0x30, 0x02, 0x30, 0x00];
    let decoded = TbsRequest::decode(&bytes).expect("zero-length requestList is legal");
    assert_eq!(decoded.request_list.len(), 0);
    assert_eq!(decoded.encode(), bytes);
}

#[test]
fn long_form_lengths_round_trip() {
    let t = TbsRequest {
        version: Version::V1,
        requestor_name: None,
        request_list: vec![],
        request_extensions: Some(vec![Extension {
            extn_id: nonce_oid_bytes(),
            critical: false,
            extn_value: vec![0xAB; 130],
        }]),
    };
    let bytes = t.encode();
    assert_eq!(bytes.len(), 158);
    assert_eq!(
        &bytes[..16],
        &[0x30, 0x81, 0x9B, 0x30, 0x00, 0xA2, 0x81, 0x96, 0x30, 0x81, 0x93, 0x30, 0x81, 0x90,
            0x06, 0x09]
    );
    let decoded = TbsRequest::decode(&bytes).expect("long-form lengths must decode");
    assert_eq!(decoded, t);
}

#[test]
fn trailing_bytes_are_rejected() {
    let bytes = vec![0x30, 0x04, 0x30, 0x02, 0x30, 0x00, 0x00];
    assert!(OcspRequest::decode(&bytes).is_err());
}

#[test]
fn truncated_buffer_is_rejected() {
    let bytes = vec![0x30, 0x05, 0x30, 0x02, 0x30, 0x00];
    assert!(OcspRequest::decode(&bytes).is_err());
    assert!(OcspRequest::decode(&vec![0x30]).is_err());
    assert!(OcspRequest::decode(&vec![]).is_err());
}

#[test]
fn non_minimal_length_is_rejected() {
    // 0x81 0x04 encodes length 4 in long form where short form is canonical.
    let bytes = vec![0x30, 0x81, 0x04, 0x30, 0x02, 0x30, 0x00];
    assert!(OcspRequest::decode(&bytes).is_err());
}

#[test]
fn indefinite_length_is_rejected() {
    let bytes = vec![0x30, 0x80, 0x30, 0x02, 0x30, 0x00, 0x00, 0x00];
    assert!(OcspRequest::decode(&bytes).is_err());
}

#[test]
fn wrong_root_tag_is_rejected() {
    let bytes = vec![0x31, 0x04, 0x30, 0x02, 0x30, 0x00];
    assert!(OcspRequest::decode(&bytes).is_err());
}

#[test]
fn explicit_false_criticality_is_rejected() {
    // DER elides BOOLEAN DEFAULT FALSE; an explicit FALSE is non-canonical.
    let t = TbsRequest {
        version: Version::V1,
        requestor_name: None,
        request_list: vec![],
        request_extensions: Some(vec![Extension {
            extn_id: nonce_oid_bytes(),
            critical: true,
            extn_value: vec![0x04, 0x01, 0x7F],
        }]),
    };
    let mut bytes = t.encode();
    // The canonical critical flag is the octets 01 01 FF; flip TRUE to FALSE.
    let at = bytes
        .windows(3)
        .position(|w| w == [0x01, 0x01, 0xFF])
        .expect("criticality octets must be present");
    assert!(TbsRequest::decode(&bytes).is_ok());
    bytes[at + 2] = 0x00;
    assert!(TbsRequest::decode(&bytes).is_err());
}

#[test]
fn empty_extension_list_is_rejected() {
    // [2] EXPLICIT wrapping SEQUENCE OF Extension with zero entries:
    // absence is the only encoding of "no extensions".
    let bytes = vec![0x30, 0x06, 0x30, 0x00, 0xA2, 0x02, 0x30, 0x00];
    assert!(TbsRequest::decode(&bytes).is_err());
}

#[test]
fn bad_bit_string_unused_count_is_rejected() {
    let v = OcspRequest {
        tbs_request: TbsRequest {
            version: Version::V1,
            requestor_name: None,
            request_list: vec![],
            request_extensions: None,
        },
        optional_signature: Some(sample_signature()),
    };
    let mut bytes = v.encode();
    assert!(OcspRequest::decode(&bytes).is_ok());
    // The BIT STRING is the octets 03 03 00 AA BB; set its unused-bit
    // count to eight, which no canonical encoding allows.
    let at = bytes
        .windows(5)
        .position(|w| w == [0x03, 0x03, 0x00, 0xAA, 0xBB])
        .expect("bit string octets must be present");
    bytes[at + 2] = 0x08;
    assert!(OcspRequest::decode(&bytes).is_err());
}

#[test]
fn malformed_oid_content_is_rejected() {
    // An extension id whose last octet keeps the continuation bit set is
    // not a whole OBJECT IDENTIFIER.
    let t = TbsRequest {
        version: Version::V1,
        requestor_name: None,
        request_list: vec![],
        request_extensions: Some(vec![Extension {
            extn_id: vec![0x2B, 0x06],
            critical: false,
            extn_value: vec![0x04, 0x00],
        }]),
    };
    let mut bytes = t.encode();
    assert!(TbsRequest::decode(&bytes).is_ok());
    let at = bytes
        .windows(4)
        .position(|w| w == [0x06, 0x02, 0x2B, 0x06])
        .expect("oid octets must be present");
    bytes[at + 3] = 0x86;
    assert!(TbsRequest::decode(&bytes).is_err());
}
