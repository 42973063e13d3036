//! Executable decoders: strict, all-or-nothing parsers that accept
//! exactly the canonical DER form the model describes. Each internal
//! parser consumes from `pos` up to at most `end` and reports precisely
//! the result of the corresponding model parser on that window.

use vstd::prelude::*;
use crate::codec::{copy_range, read_tlv, spec_parse_tlv};
use crate::model::{
    spec_decode_ocsp, spec_decode_request, spec_decode_signature, spec_decode_tbs, spec_ocsp,
    spec_oid_ok,
    spec_parse_algid, spec_parse_bit_string, spec_parse_cert, spec_parse_cert_seq,
    spec_parse_certid, spec_parse_ext, spec_parse_ext_seq, spec_parse_ext_tail,
    spec_parse_explicit_exts, spec_parse_exts, spec_parse_gname, spec_parse_octets_exact,
    spec_parse_ocsp, spec_parse_ocsp_content, spec_parse_opt_exts, spec_parse_opt_name,
    spec_parse_opt_sig,
    spec_parse_req_seq, spec_parse_request, spec_parse_sig_content, spec_parse_signature,
    spec_parse_tbs, spec_parse_tbs_content, spec_request, spec_signature, spec_tbs, CertificateV,
    ExtensionV, RequestV, TAG_BIT_STRING,
    TAG_BOOLEAN, TAG_CTX0, TAG_CTX1, TAG_CTX2, TAG_OCTET_STRING, TAG_OID, TAG_SEQUENCE,
};
use crate::types::{
    AlgorithmIdentifier, BitString, CertId, Certificate, DecodeError, Extension, GeneralName,
    OcspRequest, Request, Signature, TbsRequest, Version,
};

verus! {

/// Reads one CertID as an opaque SEQUENCE unit.
fn parse_certid(data: &Vec<u8>, pos: usize, end: usize) -> (r: Option<(CertId, usize)>)
    requires
        pos <= end <= data@.len(),
    ensures
        match r {
            Some((v, np)) => {
                &&& pos < np <= end
                &&& spec_parse_certid(data@.subrange(pos as int, end as int)) == Some((
                    v@,
                    (np - pos) as nat,
                ))
            },
            None => spec_parse_certid(data@.subrange(pos as int, end as int)) is None,
        },
{
    let ghost win = data@.subrange(pos as int, end as int);
    match read_tlv(data, pos, end) {
        Some((tag, vs, ve)) => {
            if tag == TAG_SEQUENCE {
                let der = copy_range(data, pos, ve);
                assert(win.take((ve - pos) as int) =~= data@.subrange(pos as int, ve as int));
                Some((CertId { der }, ve))
            } else {
                None
            }
        },
        None => None,
    }
}

/// Reads one GeneralName as an opaque unit of any tag.
fn parse_gname(data: &Vec<u8>, pos: usize, end: usize) -> (r: Option<(GeneralName, usize)>)
    requires
        pos <= end <= data@.len(),
    ensures
        match r {
            Some((v, np)) => {
                &&& pos < np <= end
                &&& spec_parse_gname(data@.subrange(pos as int, end as int)) == Some((
                    v@,
                    (np - pos) as nat,
                ))
            },
            None => spec_parse_gname(data@.subrange(pos as int, end as int)) is None,
        },
{
    let ghost win = data@.subrange(pos as int, end as int);
    match read_tlv(data, pos, end) {
        Some((tag, vs, ve)) => {
            let der = copy_range(data, pos, ve);
            assert(win.take((ve - pos) as int) =~= data@.subrange(pos as int, ve as int));
            Some((GeneralName { der }, ve))
        },
        None => None,
    }
}

/// Reads one AlgorithmIdentifier as an opaque SEQUENCE unit.
fn parse_algid(data: &Vec<u8>, pos: usize, end: usize) -> (r: Option<(AlgorithmIdentifier, usize)>)
    requires
        pos <= end <= data@.len(),
    ensures
        match r {
            Some((v, np)) => {
                &&& pos < np <= end
                &&& spec_parse_algid(data@.subrange(pos as int, end as int)) == Some((
                    v@,
                    (np - pos) as nat,
                ))
            },
            None => spec_parse_algid(data@.subrange(pos as int, end as int)) is None,
        },
{
    let ghost win = data@.subrange(pos as int, end as int);
    match read_tlv(data, pos, end) {
        Some((tag, vs, ve)) => {
            if tag == TAG_SEQUENCE {
                let der = copy_range(data, pos, ve);
                assert(win.take((ve - pos) as int) =~= data@.subrange(pos as int, ve as int));
                Some((AlgorithmIdentifier { der }, ve))
            } else {
                None
            }
        },
        None => None,
    }
}

/// Reads one Certificate as an opaque SEQUENCE unit.
fn parse_cert(data: &Vec<u8>, pos: usize, end: usize) -> (r: Option<(Certificate, usize)>)
    requires
        pos <= end <= data@.len(),
    ensures
        match r {
            Some((v, np)) => {
                &&& pos < np <= end
                &&& spec_parse_cert(data@.subrange(pos as int, end as int)) == Some((
                    v@,
                    (np - pos) as nat,
                ))
            },
            None => spec_parse_cert(data@.subrange(pos as int, end as int)) is None,
        },
{
    let ghost win = data@.subrange(pos as int, end as int);
    match read_tlv(data, pos, end) {
        Some((tag, vs, ve)) => {
            if tag == TAG_SEQUENCE {
                let der = copy_range(data, pos, ve);
                assert(win.take((ve - pos) as int) =~= data@.subrange(pos as int, ve as int));
                Some((Certificate { der }, ve))
            } else {
                None
            }
        },
        None => None,
    }
}

/// Reads one BIT STRING, checking the unused-bit count.
fn parse_bit_string(data: &Vec<u8>, pos: usize, end: usize) -> (r: Option<(BitString, usize)>)
    requires
        pos <= end <= data@.len(),
    ensures
        match r {
            Some((v, np)) => {
                &&& pos < np <= end
                &&& spec_parse_bit_string(data@.subrange(pos as int, end as int)) == Some((
                    v@,
                    (np - pos) as nat,
                ))
            },
            None => spec_parse_bit_string(data@.subrange(pos as int, end as int)) is None,
        },
{
    let ghost win = data@.subrange(pos as int, end as int);
    match read_tlv(data, pos, end) {
        Some((tag, vs, ve)) => {
            let ghost content = data@.subrange(vs as int, ve as int);
            if tag == TAG_BIT_STRING && ve - vs >= 1 {
                let ub = data[vs];
                assert(content[0] == ub);
                if ub < 8 && (ve - vs > 1 || ub == 0) {
                    let payload = copy_range(data, vs + 1, ve);
                    assert(payload@ =~= content.skip(1));
                    Some((BitString { unused_bits: ub, data: payload }, ve))
                } else {
                    None
                }
            } else {
                None
            }
        },
        None => None,
    }
}

/// Reads an OCTET STRING that must fill `[pos, end)` exactly, giving its
/// content octets.
pub(crate) fn parse_octets_exact_range(data: &Vec<u8>, pos: usize, end: usize) -> (r: Option<Vec<u8>>)
    requires
        pos <= end <= data@.len(),
    ensures
        match r {
            Some(v) => spec_parse_octets_exact(data@.subrange(pos as int, end as int)) == Some(v@),
            None => spec_parse_octets_exact(data@.subrange(pos as int, end as int)) is None,
        },
{
    let ghost win = data@.subrange(pos as int, end as int);
    match read_tlv(data, pos, end) {
        Some((tag, vs, ve)) => {
            if tag == TAG_OCTET_STRING && ve == end {
                Some(copy_range(data, vs, ve))
            } else {
                None
            }
        },
        None => None,
    }
}

/// Checks that `b` holds the content octets of a well-formed OBJECT
/// IDENTIFIER.
fn oid_content_ok(b: &Vec<u8>) -> (r: bool)
    ensures
        r == spec_oid_ok(b@),
{
    if b.len() == 0 {
        return false;
    }
    if b[b.len() - 1] >= 0x80 {
        return false;
    }
    let mut i: usize = 0;
    let mut sub_start: bool = true;
    while i < b.len()
        invariant
            0 <= i <= b@.len(),
            sub_start == (i == 0 || b@[i - 1] < 0x80),
            forall|j: int| 0 <= j < i && (j == 0 || b@[j - 1] < 0x80) ==> (#[trigger] b@[j])
                != 0x80,
        decreases b@.len() - i,
    {
        let byte = b[i];
        if sub_start && byte == 0x80 {
            assert(!spec_oid_ok(b@));
            return false;
        }
        sub_start = byte < 0x80;
        i = i + 1;
    }
    true
}

/// Reads the optional criticality BOOLEAN and the value OCTET STRING that
/// must end the extension exactly. DER accepts only an explicit TRUE,
/// FALSE being the elided default.
fn parse_ext_tail(data: &Vec<u8>, pos: usize, end: usize) -> (r: Option<(bool, Vec<u8>)>)
    requires
        pos <= end <= data@.len(),
    ensures
        match r {
            Some((crit, v)) => spec_parse_ext_tail(data@.subrange(pos as int, end as int))
                == Some((crit, v@)),
            None => spec_parse_ext_tail(data@.subrange(pos as int, end as int)) is None,
        },
{
    let ghost win = data@.subrange(pos as int, end as int);
    if pos < end && data[pos] == TAG_BOOLEAN {
        assert(win[0] == TAG_BOOLEAN);
        if end - pos >= 3 && data[pos + 1] == 1 && data[pos + 2] == 0xFF {
            assert(win[1] == data@[pos + 1] && win[2] == data@[pos + 2]);
            assert(win.skip(3) =~= data@.subrange(pos + 3, end as int));
            match parse_octets_exact_range(data, pos + 3, end) {
                Some(v) => Some((true, v)),
                None => None,
            }
        } else {
            assert(!(win.len() >= 3 && win[1] == 1 && win[2] == 0xFF));
            None
        }
    } else {
        assert(!(win.len() >= 1 && win[0] == TAG_BOOLEAN));
        match parse_octets_exact_range(data, pos, end) {
            Some(v) => Some((false, v)),
            None => None,
        }
    }
}

/// Reads one Extension.
#[verifier::rlimit(50)]
fn parse_ext(data: &Vec<u8>, pos: usize, end: usize) -> (r: Option<(Extension, usize)>)
    requires
        pos <= end <= data@.len(),
    ensures
        match r {
            Some((v, np)) => {
                &&& pos < np <= end
                &&& spec_parse_ext(data@.subrange(pos as int, end as int)) == Some((
                    v@,
                    (np - pos) as nat,
                ))
            },
            None => spec_parse_ext(data@.subrange(pos as int, end as int)) is None,
        },
{
    proof {
        reveal(spec_parse_ext);
    }
    let ghost win = data@.subrange(pos as int, end as int);
    match read_tlv(data, pos, end) {
        Some((tag, vs, ve)) => {
            let ghost content = data@.subrange(vs as int, ve as int);
            if tag == TAG_SEQUENCE {
                match read_tlv(data, vs, ve) {
                    Some((t1, is_, ie)) => {
                        if t1 == TAG_OID {
                            let id = copy_range(data, is_, ie);
                            if oid_content_ok(&id) {
                                assert(content.skip((ie - vs) as int) =~= data@.subrange(
                                    ie as int,
                                    ve as int,
                                ));
                                match parse_ext_tail(data, ie, ve) {
                                    Some((crit, v)) => Some((
                                        Extension { extn_id: id, critical: crit, extn_value: v },
                                        ve,
                                    )),
                                    None => None,
                                }
                            } else {
                                None
                            }
                        } else {
                            None
                        }
                    },
                    None => None,
                }
            } else {
                None
            }
        },
        None => None,
    }
}

/// Reads a run of Extensions that must fill `[pos, end)` exactly.
#[verifier::rlimit(50)]
fn parse_ext_list_range(data: &Vec<u8>, pos: usize, end: usize) -> (r: Option<Vec<Extension>>)
    requires
        pos <= end <= data@.len(),
    ensures
        match r {
            Some(es) => spec_parse_ext_seq(data@.subrange(pos as int, end as int)) == Some(
                es@.map_values(|e: Extension| e@),
            ),
            None => spec_parse_ext_seq(data@.subrange(pos as int, end as int)) is None,
        },
{
    let ghost c = data@.subrange(pos as int, end as int);
    let mut items: Vec<Extension> = Vec::new();
    let mut p: usize = pos;
    while p < end
        invariant
            pos <= p <= end <= data@.len(),
            c == data@.subrange(pos as int, end as int),
            spec_parse_ext_seq(c) == (match spec_parse_ext_seq(
                data@.subrange(p as int, end as int),
            ) {
                Some(rest) => Some(items@.map_values(|e: Extension| e@) + rest),
                None => None::<Seq<ExtensionV>>,
            }),
        decreases end - p,
    {
        let ghost rem = data@.subrange(p as int, end as int);
        match parse_ext(data, p, end) {
            Some((e, np)) => {
                proof {
                    assert(rem.skip((np - p) as int) =~= data@.subrange(np as int, end as int));
                    assert((items@.push(e)).map_values(|x: Extension| x@) =~= items@.map_values(
                        |x: Extension| x@,
                    ).push(e@));
                    match spec_parse_ext_seq(data@.subrange(np as int, end as int)) {
                        Some(rest2) => {
                            assert(spec_parse_ext_seq(rem) == Some(seq![e@] + rest2));
                            assert(items@.map_values(|x: Extension| x@) + (seq![e@] + rest2)
                                =~= items@.map_values(|x: Extension| x@).push(e@) + rest2);
                        },
                        None => {
                            assert(spec_parse_ext_seq(rem) is None);
                        },
                    }
                }
                items.push(e);
                p = np;
            },
            None => {
                proof {
                    assert(rem.len() > 0);
                    assert(spec_parse_ext_seq(rem) is None);
                }
                return None;
            },
        }
    }
    proof {
        assert(data@.subrange(p as int, end as int).len() == 0);
        assert(spec_parse_ext_seq(data@.subrange(p as int, end as int)) == Some(
            Seq::<ExtensionV>::empty(),
        ));
        assert(items@.map_values(|x: Extension| x@) + Seq::<ExtensionV>::empty()
            =~= items@.map_values(|x: Extension| x@));
    }
    Some(items)
}

/// Reads one Extensions SEQUENCE, rejecting an empty list.
fn parse_exts(data: &Vec<u8>, pos: usize, end: usize) -> (r: Option<(Vec<Extension>, usize)>)
    requires
        pos <= end <= data@.len(),
    ensures
        match r {
            Some((es, np)) => {
                &&& pos < np <= end
                &&& spec_parse_exts(data@.subrange(pos as int, end as int)) == Some((
                    es@.map_values(|e: Extension| e@),
                    (np - pos) as nat,
                ))
            },
            None => spec_parse_exts(data@.subrange(pos as int, end as int)) is None,
        },
{
    let ghost win = data@.subrange(pos as int, end as int);
    match read_tlv(data, pos, end) {
        Some((tag, vs, ve)) => {
            if tag == TAG_SEQUENCE && ve - vs >= 1 {
                match parse_ext_list_range(data, vs, ve) {
                    Some(es) => Some((es, ve)),
                    None => None,
                }
            } else {
                None
            }
        },
        None => None,
    }
}

/// Reads an Extensions value under its explicit context tag; the wrapped
/// SEQUENCE must fill the wrapper exactly.
fn parse_tagged_exts(data: &Vec<u8>, pos: usize, end: usize, ctag: u8) -> (r: Option<(
    Vec<Extension>,
    usize,
)>)
    requires
        pos <= end <= data@.len(),
    ensures
        match r {
            Some((es, np)) => {
                &&& pos < np <= end
                &&& spec_parse_explicit_exts(data@.subrange(pos as int, end as int), ctag)
                    == Some((es@.map_values(|e: Extension| e@), (np - pos) as nat))
            },
            None => spec_parse_explicit_exts(data@.subrange(pos as int, end as int), ctag)
                is None,
        },
{
    let ghost win = data@.subrange(pos as int, end as int);
    match read_tlv(data, pos, end) {
        Some((tag, vs, ve)) => {
            if tag == ctag {
                match parse_exts(data, vs, ve) {
                    Some((es, np)) => {
                        if np == ve {
                            Some((es, ve))
                        } else {
                            None
                        }
                    },
                    None => None,
                }
            } else {
                None
            }
        },
        None => None,
    }
}

/// Reads an optional explicitly tagged Extensions field: absent, and
/// nothing consumed, when the next tag differs.
fn parse_opt_exts(data: &Vec<u8>, pos: usize, end: usize, ctag: u8) -> (r: Option<(
    Option<Vec<Extension>>,
    usize,
)>)
    requires
        pos <= end <= data@.len(),
    ensures
        match r {
            Some((oes, np)) => {
                &&& pos <= np <= end
                &&& spec_parse_opt_exts(data@.subrange(pos as int, end as int), ctag) == Some((
                    (match oes {
                        Some(es) => Some(es@.map_values(|e: Extension| e@)),
                        None => None::<Seq<ExtensionV>>,
                    }),
                    (np - pos) as nat,
                ))
            },
            None => spec_parse_opt_exts(data@.subrange(pos as int, end as int), ctag) is None,
        },
{
    let ghost win = data@.subrange(pos as int, end as int);
    if pos < end && data[pos] == ctag {
        assert(win[0] == ctag);
        match parse_tagged_exts(data, pos, end, ctag) {
            Some((es, np)) => Some((Some(es), np)),
            None => None,
        }
    } else {
        assert(!(win.len() >= 1 && win[0] == ctag));
        Some((None, pos))
    }
}

/// Reads one Request.
#[verifier::rlimit(50)]
fn parse_request(data: &Vec<u8>, pos: usize, end: usize) -> (r: Option<(Request, usize)>)
    requires
        pos <= end <= data@.len(),
    ensures
        match r {
            Some((v, np)) => {
                &&& pos < np <= end
                &&& spec_parse_request(data@.subrange(pos as int, end as int)) == Some((
                    v@,
                    (np - pos) as nat,
                ))
            },
            None => spec_parse_request(data@.subrange(pos as int, end as int)) is None,
        },
{
    proof {
        reveal(spec_parse_request);
    }
    let ghost win = data@.subrange(pos as int, end as int);
    match read_tlv(data, pos, end) {
        Some((tag, vs, ve)) => {
            let ghost content = data@.subrange(vs as int, ve as int);
            if tag == TAG_SEQUENCE {
                match parse_certid(data, vs, ve) {
                    Some((cid, p1)) => {
                        proof {
                            assert(content.skip((p1 - vs) as int) =~= data@.subrange(
                                p1 as int,
                                ve as int,
                            ));
                        }
                        match parse_opt_exts(data, p1, ve, TAG_CTX0) {
                            Some((oes, p2)) => {
                                if p2 == ve {
                                    Some((
                                        Request {
                                            req_cert: cid,
                                            single_request_extensions: oes,
                                        },
                                        ve,
                                    ))
                                } else {
                                    None
                                }
                            },
                            None => None,
                        }
                    },
                    None => None,
                }
            } else {
                None
            }
        },
        None => None,
    }
}

/// Reads a run of Requests that must fill `[pos, end)` exactly.
#[verifier::rlimit(50)]
fn parse_req_list_range(data: &Vec<u8>, pos: usize, end: usize) -> (r: Option<Vec<Request>>)
    requires
        pos <= end <= data@.len(),
    ensures
        match r {
            Some(rs) => spec_parse_req_seq(data@.subrange(pos as int, end as int)) == Some(
                rs@.map_values(|q: Request| q@),
            ),
            None => spec_parse_req_seq(data@.subrange(pos as int, end as int)) is None,
        },
{
    let ghost c = data@.subrange(pos as int, end as int);
    let mut items: Vec<Request> = Vec::new();
    let mut p: usize = pos;
    while p < end
        invariant
            pos <= p <= end <= data@.len(),
            c == data@.subrange(pos as int, end as int),
            spec_parse_req_seq(c) == (match spec_parse_req_seq(
                data@.subrange(p as int, end as int),
            ) {
                Some(rest) => Some(items@.map_values(|q: Request| q@) + rest),
                None => None::<Seq<RequestV>>,
            }),
        decreases end - p,
    {
        let ghost rem = data@.subrange(p as int, end as int);
        match parse_request(data, p, end) {
            Some((q, np)) => {
                proof {
                    assert(rem.skip((np - p) as int) =~= data@.subrange(np as int, end as int));
                    assert((items@.push(q)).map_values(|x: Request| x@) =~= items@.map_values(
                        |x: Request| x@,
                    ).push(q@));
                    match spec_parse_req_seq(data@.subrange(np as int, end as int)) {
                        Some(rest2) => {
                            assert(spec_parse_req_seq(rem) == Some(seq![q@] + rest2));
                            assert(items@.map_values(|x: Request| x@) + (seq![q@] + rest2)
                                =~= items@.map_values(|x: Request| x@).push(q@) + rest2);
                        },
                        None => {
                            assert(spec_parse_req_seq(rem) is None);
                        },
                    }
                }
                items.push(q);
                p = np;
            },
            None => {
                proof {
                    assert(rem.len() > 0);
                    assert(spec_parse_req_seq(rem) is None);
                }
                return None;
            },
        }
    }
    proof {
        assert(data@.subrange(p as int, end as int).len() == 0);
        assert(spec_parse_req_seq(data@.subrange(p as int, end as int)) == Some(
            Seq::<RequestV>::empty(),
        ));
        assert(items@.map_values(|x: Request| x@) + Seq::<RequestV>::empty() =~= items@.map_values(
            |x: Request| x@,
        ));
    }
    Some(items)
}

/// Reads an optional [1] EXPLICIT GeneralName: absent, and nothing
/// consumed, when the next tag differs.
fn parse_opt_name(data: &Vec<u8>, pos: usize, end: usize) -> (r: Option<(
    Option<GeneralName>,
    usize,
)>)
    requires
        pos <= end <= data@.len(),
    ensures
        match r {
            Some((on, np)) => {
                &&& pos <= np <= end
                &&& spec_parse_opt_name(data@.subrange(pos as int, end as int)) == Some((
                    (match on {
                        Some(n) => Some(n@),
                        None => None,
                    }),
                    (np - pos) as nat,
                ))
            },
            None => spec_parse_opt_name(data@.subrange(pos as int, end as int)) is None,
        },
{
    let ghost win = data@.subrange(pos as int, end as int);
    if pos < end && data[pos] == TAG_CTX1 {
        assert(win[0] == TAG_CTX1);
        match read_tlv(data, pos, end) {
            Some((tag, vs, ve)) => {
                match parse_gname(data, vs, ve) {
                    Some((gn, p)) => {
                        if p == ve {
                            Some((Some(gn), ve))
                        } else {
                            None
                        }
                    },
                    None => None,
                }
            },
            None => None,
        }
    } else {
        assert(!(win.len() >= 1 && win[0] == TAG_CTX1));
        Some((None, pos))
    }
}

/// Reads a whole TBSRequest content filling `[pos, end)`. A [0]-tagged
/// version field is rejected: the only defined version is the v1
/// default, whose explicit encoding DER forbids.
#[verifier::rlimit(100)]
fn parse_tbs_content_range(data: &Vec<u8>, pos: usize, end: usize) -> (r: Option<TbsRequest>)
    requires
        pos <= end <= data@.len(),
    ensures
        match r {
            Some(v) => spec_parse_tbs_content(data@.subrange(pos as int, end as int)) == Some(v@),
            None => spec_parse_tbs_content(data@.subrange(pos as int, end as int)) is None,
        },
{
    proof {
        reveal(spec_parse_tbs_content);
    }
    let ghost content = data@.subrange(pos as int, end as int);
    if pos < end && data[pos] == TAG_CTX0 {
        assert(content[0] == TAG_CTX0);
        return None;
    }
    assert(!(content.len() >= 1 && content[0] == TAG_CTX0));
    match parse_opt_name(data, pos, end) {
        Some((name, p1)) => {
            proof {
                assert(content.skip((p1 - pos) as int) =~= data@.subrange(p1 as int, end as int));
            }
            match read_tlv(data, p1, end) {
                Some((t2, ls, le)) => {
                    if t2 != TAG_SEQUENCE {
                        return None;
                    }
                    match parse_req_list_range(data, ls, le) {
                        Some(rs) => {
                            proof {
                                assert(data@.subrange(p1 as int, end as int).skip((le - p1) as int)
                                    =~= data@.subrange(le as int, end as int));
                            }
                            match parse_opt_exts(data, le, end, TAG_CTX2) {
                                Some((oes, p3)) => {
                                    if p3 == end {
                                        Some(
                                            TbsRequest {
                                                version: Version::V1,
                                                requestor_name: name,
                                                request_list: rs,
                                                request_extensions: oes,
                                            },
                                        )
                                    } else {
                                        None
                                    }
                                },
                                None => None,
                            }
                        },
                        None => None,
                    }
                },
                None => None,
            }
        },
        None => None,
    }
}

/// Reads one TBSRequest.
fn parse_tbs(data: &Vec<u8>, pos: usize, end: usize) -> (r: Option<(TbsRequest, usize)>)
    requires
        pos <= end <= data@.len(),
    ensures
        match r {
            Some((v, np)) => {
                &&& pos < np <= end
                &&& spec_parse_tbs(data@.subrange(pos as int, end as int)) == Some((
                    v@,
                    (np - pos) as nat,
                ))
            },
            None => spec_parse_tbs(data@.subrange(pos as int, end as int)) is None,
        },
{
    let ghost win = data@.subrange(pos as int, end as int);
    match read_tlv(data, pos, end) {
        Some((tag, vs, ve)) => {
            if tag != TAG_SEQUENCE {
                return None;
            }
            match parse_tbs_content_range(data, vs, ve) {
                Some(v) => Some((v, ve)),
                None => None,
            }
        },
        None => None,
    }
}

/// Reads a run of Certificates that must fill `[pos, end)` exactly.
#[verifier::rlimit(50)]
fn parse_cert_list_range(data: &Vec<u8>, pos: usize, end: usize) -> (r: Option<Vec<Certificate>>)
    requires
        pos <= end <= data@.len(),
    ensures
        match r {
            Some(cs) => spec_parse_cert_seq(data@.subrange(pos as int, end as int)) == Some(
                cs@.map_values(|c: Certificate| c@),
            ),
            None => spec_parse_cert_seq(data@.subrange(pos as int, end as int)) is None,
        },
{
    let ghost c = data@.subrange(pos as int, end as int);
    let mut items: Vec<Certificate> = Vec::new();
    let mut p: usize = pos;
    while p < end
        invariant
            pos <= p <= end <= data@.len(),
            c == data@.subrange(pos as int, end as int),
            spec_parse_cert_seq(c) == (match spec_parse_cert_seq(
                data@.subrange(p as int, end as int),
            ) {
                Some(rest) => Some(items@.map_values(|x: Certificate| x@) + rest),
                None => None::<Seq<CertificateV>>,
            }),
        decreases end - p,
    {
        let ghost rem = data@.subrange(p as int, end as int);
        match parse_cert(data, p, end) {
            Some((q, np)) => {
                proof {
                    assert(rem.skip((np - p) as int) =~= data@.subrange(np as int, end as int));
                    assert((items@.push(q)).map_values(|x: Certificate| x@) =~= items@.map_values(
                        |x: Certificate| x@,
                    ).push(q@));
                    match spec_parse_cert_seq(data@.subrange(np as int, end as int)) {
                        Some(rest2) => {
                            assert(spec_parse_cert_seq(rem) == Some(seq![q@] + rest2));
                            assert(items@.map_values(|x: Certificate| x@) + (seq![q@] + rest2)
                                =~= items@.map_values(|x: Certificate| x@).push(q@) + rest2);
                        },
                        None => {
                            assert(spec_parse_cert_seq(rem) is None);
                        },
                    }
                }
                items.push(q);
                p = np;
            },
            None => {
                proof {
                    assert(rem.len() > 0);
                    assert(spec_parse_cert_seq(rem) is None);
                }
                return None;
            },
        }
    }
    proof {
        assert(data@.subrange(p as int, end as int).len() == 0);
        assert(spec_parse_cert_seq(data@.subrange(p as int, end as int)) == Some(
            Seq::<CertificateV>::empty(),
        ));
        assert(items@.map_values(|x: Certificate| x@) + Seq::<CertificateV>::empty()
            =~= items@.map_values(|x: Certificate| x@));
    }
    Some(items)
}

/// Reads one Signature.
#[verifier::rlimit(100)]
fn parse_signature(data: &Vec<u8>, pos: usize, end: usize) -> (r: Option<(Signature, usize)>)
    requires
        pos <= end <= data@.len(),
    ensures
        match r {
            Some((v, np)) => {
                &&& pos < np <= end
                &&& spec_parse_signature(data@.subrange(pos as int, end as int)) == Some((
                    v@,
                    (np - pos) as nat,
                ))
            },
            None => spec_parse_signature(data@.subrange(pos as int, end as int)) is None,
        },
{
    proof {
        reveal(spec_parse_sig_content);
    }
    let ghost win = data@.subrange(pos as int, end as int);
    match read_tlv(data, pos, end) {
        Some((tag, vs, ve)) => {
            let ghost content = data@.subrange(vs as int, ve as int);
            if tag != TAG_SEQUENCE {
                return None;
            }
            match parse_algid(data, vs, ve) {
                Some((alg, p1)) => {
                    proof {
                        assert(content.skip((p1 - vs) as int) =~= data@.subrange(
                            p1 as int,
                            ve as int,
                        ));
                    }
                    match parse_bit_string(data, p1, ve) {
                        Some((bs, p2)) => {
                            let ghost c2 = data@.subrange(p2 as int, ve as int);
                            proof {
                                assert(data@.subrange(p1 as int, ve as int).skip((p2 - p1) as int)
                                    =~= c2);
                            }
                            if p2 == ve {
                                return Some((
                                    Signature {
                                        signature_algorithm: alg,
                                        signature: bs,
                                        certs: None,
                                    },
                                    ve,
                                ));
                            }
                            if data[p2] != TAG_CTX0 {
                                assert(c2[0] != TAG_CTX0);
                                return None;
                            }
                            assert(c2[0] == TAG_CTX0);
                            match read_tlv(data, p2, ve) {
                                Some((t3, ws, we)) => {
                                    if we != ve {
                                        return None;
                                    }
                                    let ghost w = data@.subrange(ws as int, we as int);
                                    match read_tlv(data, ws, we) {
                                        Some((t4, ls, le)) => {
                                            if t4 != TAG_SEQUENCE || le != we {
                                                return None;
                                            }
                                            match parse_cert_list_range(data, ls, le) {
                                                Some(cs) => Some((
                                                    Signature {
                                                        signature_algorithm: alg,
                                                        signature: bs,
                                                        certs: Some(cs),
                                                    },
                                                    ve,
                                                )),
                                                None => None,
                                            }
                                        },
                                        None => None,
                                    }
                                },
                                None => None,
                            }
                        },
                        None => None,
                    }
                },
                None => None,
            }
        },
        None => None,
    }
}

/// Reads an optional [0] EXPLICIT Signature that must fill `[pos, end)`
/// exactly: absent on an empty window.
#[verifier::rlimit(50)]
fn parse_opt_sig_exact(data: &Vec<u8>, pos: usize, end: usize) -> (r: Option<Option<Signature>>)
    requires
        pos <= end <= data@.len(),
    ensures
        match r {
            Some(os) => spec_parse_opt_sig(data@.subrange(pos as int, end as int)) == Some(
                match os {
                    Some(s) => Some(s@),
                    None => None,
                },
            ),
            None => spec_parse_opt_sig(data@.subrange(pos as int, end as int)) is None,
        },
{
    let ghost c = data@.subrange(pos as int, end as int);
    if pos == end {
        return Some(None);
    }
    if data[pos] != TAG_CTX0 {
        assert(c[0] != TAG_CTX0);
        return None;
    }
    assert(c[0] == TAG_CTX0);
    match read_tlv(data, pos, end) {
        Some((t2, ws, we)) => {
            if we != end {
                return None;
            }
            match parse_signature(data, ws, we) {
                Some((s, p2)) => {
                    if p2 == we {
                        Some(Some(s))
                    } else {
                        None
                    }
                },
                None => None,
            }
        },
        None => None,
    }
}

/// Reads a whole OCSPRequest content filling `[pos, end)`: the
/// TBSRequest, then the optional [0] EXPLICIT Signature.
#[verifier::rlimit(100)]
fn parse_ocsp_content_range(data: &Vec<u8>, pos: usize, end: usize) -> (r: Option<OcspRequest>)
    requires
        pos <= end <= data@.len(),
    ensures
        match r {
            Some(v) => spec_parse_ocsp_content(data@.subrange(pos as int, end as int)) == Some(v@),
            None => spec_parse_ocsp_content(data@.subrange(pos as int, end as int)) is None,
        },
{
    let ghost content = data@.subrange(pos as int, end as int);
    match parse_tbs(data, pos, end) {
        Some((t, p1)) => {
            proof {
                assert(content.skip((p1 - pos) as int) =~= data@.subrange(p1 as int, end as int));
            }
            match parse_opt_sig_exact(data, p1, end) {
                Some(os) => Some(OcspRequest { tbs_request: t, optional_signature: os }),
                None => None,
            }
        },
        None => None,
    }
}

/// Reads one OCSPRequest.
fn parse_ocsp(data: &Vec<u8>, pos: usize, end: usize) -> (r: Option<(OcspRequest, usize)>)
    requires
        pos <= end <= data@.len(),
    ensures
        match r {
            Some((v, np)) => {
                &&& pos < np <= end
                &&& spec_parse_ocsp(data@.subrange(pos as int, end as int)) == Some((
                    v@,
                    (np - pos) as nat,
                ))
            },
            None => spec_parse_ocsp(data@.subrange(pos as int, end as int)) is None,
        },
{
    let ghost win = data@.subrange(pos as int, end as int);
    match read_tlv(data, pos, end) {
        Some((tag, vs, ve)) => {
            if tag != TAG_SEQUENCE {
                return None;
            }
            match parse_ocsp_content_range(data, vs, ve) {
                Some(v) => Some((v, ve)),
                None => None,
            }
        },
        None => None,
    }
}

impl OcspRequest {
    /// Decodes one OCSPRequest from a complete buffer. Succeeds exactly
    /// on the canonical DER encoding of a request, with nothing before or
    /// after it; any malformed tag, length or content, trailing octets,
    /// or a non-canonical DEFAULT or OPTIONAL field fails the whole
    /// decode, with no partial result.
    pub fn decode(data: &Vec<u8>) -> (r: Result<OcspRequest, DecodeError>)
        ensures
            match r {
                Ok(v) => {
                    &&& spec_decode_ocsp(data@) == Some(v@)
                    &&& v@.wf()
                    &&& data@ == spec_ocsp(v@)
                },
                Err(e) => spec_decode_ocsp(data@) is None,
            },
    {
        assert(data@.subrange(0, data@.len() as int) =~= data@);
        proof {
            crate::laws::lemma_ocsp_decode_canonical(data@);
        }
        match parse_ocsp(data, 0, data.len()) {
            Some((v, np)) => {
                if np == data.len() {
                    Ok(v)
                } else {
                    Err(DecodeError)
                }
            },
            None => Err(DecodeError),
        }
    }
}

impl TbsRequest {
    /// Decodes one TBSRequest from a complete buffer, with the same
    /// all-or-nothing contract as the root decoder.
    pub fn decode(data: &Vec<u8>) -> (r: Result<TbsRequest, DecodeError>)
        ensures
            match r {
                Ok(v) => {
                    &&& spec_decode_tbs(data@) == Some(v@)
                    &&& v@.wf()
                    &&& data@ == spec_tbs(v@)
                },
                Err(e) => spec_decode_tbs(data@) is None,
            },
    {
        assert(data@.subrange(0, data@.len() as int) =~= data@);
        proof {
            crate::laws::lemma_tbs_decode_canonical(data@);
        }
        match parse_tbs(data, 0, data.len()) {
            Some((v, np)) => {
                if np == data.len() {
                    Ok(v)
                } else {
                    Err(DecodeError)
                }
            },
            None => Err(DecodeError),
        }
    }
}

impl Request {
    /// Decodes one Request from a complete buffer, with the same
    /// all-or-nothing contract as the root decoder.
    pub fn decode(data: &Vec<u8>) -> (r: Result<Request, DecodeError>)
        ensures
            match r {
                Ok(v) => {
                    &&& spec_decode_request(data@) == Some(v@)
                    &&& v@.wf()
                    &&& data@ == spec_request(v@)
                },
                Err(e) => spec_decode_request(data@) is None,
            },
    {
        assert(data@.subrange(0, data@.len() as int) =~= data@);
        proof {
            crate::laws::lemma_request_decode_canonical(data@);
        }
        match parse_request(data, 0, data.len()) {
            Some((v, np)) => {
                if np == data.len() {
                    Ok(v)
                } else {
                    Err(DecodeError)
                }
            },
            None => Err(DecodeError),
        }
    }
}

impl Signature {
    /// Decodes one Signature from a complete buffer, with the same
    /// all-or-nothing contract as the root decoder.
    pub fn decode(data: &Vec<u8>) -> (r: Result<Signature, DecodeError>)
        ensures
            match r {
                Ok(v) => {
                    &&& spec_decode_signature(data@) == Some(v@)
                    &&& v@.wf()
                    &&& data@ == spec_signature(v@)
                },
                Err(e) => spec_decode_signature(data@) is None,
            },
    {
        assert(data@.subrange(0, data@.len() as int) =~= data@);
        proof {
            crate::laws::lemma_signature_decode_canonical(data@);
        }
        match parse_signature(data, 0, data.len()) {
            Some((v, np)) => {
                if np == data.len() {
                    Ok(v)
                } else {
                    Err(DecodeError)
                }
            },
            None => Err(DecodeError),
        }
    }
}

} // verus!
