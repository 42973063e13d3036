use ocsp_request::types::{
    CertId, Extension, Nonce, OcspRequest, Request, TbsRequest, Version,
};

fn nonce_oid_bytes() -> Vec<u8> {
    vec![0x2B, 0x06, 0x01, 0x05, 0x05, 0x07, 0x30, 0x01, 0x02]
}

fn tbs_with_extensions(exts: Option<Vec<Extension>>) -> TbsRequest {
    TbsRequest {
        version: Version::V1,
        requestor_name: None,
        request_list: vec![Request {
            req_cert: CertId { der: vec![0x30, 0x03, 0x02, 0x01, 0x05] },
            single_request_extensions: None,
        }],
        request_extensions: exts,
    }
}

fn valid_nonce_extension() -> Extension {
    Extension {
        extn_id: nonce_oid_bytes(),
        critical: false,
        extn_value: vec![0x04, 0x04, 0xDE, 0xAD, 0xBE, 0xEF],
    }
}

fn unrelated_extension() -> Extension {
    Extension {
        // id-ce-subjectKeyIdentifier, unknown to the nonce lookup.
        extn_id: vec![0x55, 0x1D, 0x0E],
        critical: false,
        extn_value: vec![0x04, 0x02, 0x11, 0x22],
    }
}

#[test]
fn nonce_present_returns_value() {
    let t = tbs_with_extensions(Some(vec![valid_nonce_extension()]));
    assert_eq!(t.nonce(), Some(Nonce { bytes: vec![0xDE, 0xAD, 0xBE, 0xEF] }));
}

#[test]
fn nonce_delegates_from_root() {
    let v = OcspRequest {
        tbs_request: tbs_with_extensions(Some(vec![valid_nonce_extension()])),
        optional_signature: None,
    };
    assert_eq!(v.nonce(), Some(Nonce { bytes: vec![0xDE, 0xAD, 0xBE, 0xEF] }));
    assert_eq!(v.nonce(), v.tbs_request.nonce());
}

#[test]
fn nonce_absent_extensions_yields_none() {
    let t = tbs_with_extensions(None);
    assert_eq!(t.nonce(), None);
}

#[test]
fn nonce_unmatched_extensions_yields_none() {
    // Extensions present, none carrying the nonce id: observably the same
    // as having no extension list at all.
    let t = tbs_with_extensions(Some(vec![unrelated_extension()]));
    assert_eq!(t.nonce(), None);
}

#[test]
fn nonce_malformed_value_yields_none() {
    // The value is not a DER OCTET STRING at all.
    let bad1 = Extension {
        extn_id: nonce_oid_bytes(),
        critical: false,
        extn_value: vec![0xDE, 0xAD],
    };
    assert_eq!(tbs_with_extensions(Some(vec![bad1])).nonce(), None);

    // The value is a truncated OCTET STRING.
    let bad2 = Extension {
        extn_id: nonce_oid_bytes(),
        critical: false,
        extn_value: vec![0x04, 0x05, 0xDE],
    };
    assert_eq!(tbs_with_extensions(Some(vec![bad2])).nonce(), None);

    // The value carries trailing octets after the OCTET STRING.
    let bad3 = Extension {
        extn_id: nonce_oid_bytes(),
        critical: false,
        extn_value: vec![0x04, 0x01, 0xDE, 0x00],
    };
    assert_eq!(tbs_with_extensions(Some(vec![bad3])).nonce(), None);
}

#[test]
fn nonce_found_among_unknown_extensions() {
    // An unrecognized extension ahead of (and after) the nonce entry does
    // not disturb the lookup.
    let t = tbs_with_extensions(Some(vec![
        unrelated_extension(),
        valid_nonce_extension(),
        unrelated_extension(),
    ]));
    assert_eq!(t.nonce(), Some(Nonce { bytes: vec![0xDE, 0xAD, 0xBE, 0xEF] }));
}

#[test]
fn nonce_first_match_wins() {
    // Duplicate nonce ids are malformed input; only the first entry in
    // encoding order is considered, even when a later one differs.
    let second = Extension {
        extn_id: nonce_oid_bytes(),
        critical: false,
        extn_value: vec![0x04, 0x01, 0x01],
    };
    let t = tbs_with_extensions(Some(vec![valid_nonce_extension(), second]));
    assert_eq!(t.nonce(), Some(Nonce { bytes: vec![0xDE, 0xAD, 0xBE, 0xEF] }));

    // And a malformed first match hides a well-formed later one.
    let bad_first = Extension {
        extn_id: nonce_oid_bytes(),
        critical: false,
        extn_value: vec![0xFF],
    };
    let t2 = tbs_with_extensions(Some(vec![bad_first, valid_nonce_extension()]));
    assert_eq!(t2.nonce(), None);
}

#[test]
fn nonce_survives_decode_round_trip() {
    let t = tbs_with_extensions(Some(vec![unrelated_extension(), valid_nonce_extension()]));
    let bytes = t.encode();
    let decoded = TbsRequest::decode(&bytes).expect("canonical encoding must decode");
    assert_eq!(decoded.nonce(), Some(Nonce { bytes: vec![0xDE, 0xAD, 0xBE, 0xEF] }));
}
