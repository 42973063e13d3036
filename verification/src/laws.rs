//! The laws of the codec, proved once and for all values: decoding the
//! canonical encoding of any well-formed entity gives back exactly that
//! entity; the version field is always elided; and an explicitly encoded
//! version field is always rejected.

use vstd::prelude::*;
use crate::codec::{
    lemma_parse_tlv_build, lemma_parse_tlv_canonical, spec_parse_tlv, spec_tlv, whole_tlv,
    MAX_CONTENT_LEN,
};
use crate::model::{
    exts_wf, spec_bit_string, spec_certs_content, spec_decode_ocsp, spec_decode_request,
    spec_decode_signature, spec_decode_tbs, spec_ext, spec_ext_content, spec_exts,
    spec_exts_content, spec_ocsp, spec_ocsp_content, spec_parse_algid, spec_parse_bit_string,
    spec_parse_cert, spec_parse_cert_seq, spec_parse_certid, spec_parse_ext, spec_parse_ext_seq,
    spec_parse_ext_tail, spec_parse_explicit_exts, spec_parse_exts, spec_parse_gname,
    spec_parse_octets_exact,
    spec_parse_ocsp, spec_parse_ocsp_content, spec_parse_opt_exts, spec_parse_opt_name,
    spec_parse_opt_sig,
    spec_parse_req_seq, spec_parse_request, spec_parse_sig_content, spec_parse_signature,
    spec_parse_tbs, spec_parse_tbs_content, spec_req_list_content, spec_request,
    spec_request_content, spec_sig_content, spec_signature, spec_tbs, spec_tbs_content,
    AlgorithmIdentifierV, BitStringV, CertIdV, CertificateV, ExtensionV, GeneralNameV,
    OcspRequestV, RequestV, SignatureV, TbsRequestV, TAG_BIT_STRING, TAG_BOOLEAN, TAG_CTX0,
    TAG_CTX1, TAG_CTX2, TAG_OCTET_STRING, TAG_OID, TAG_SEQUENCE,
};
use crate::types::Version;

verus! {

/// RFC 6960 defines a single version, so every version value is the v1
/// default.
pub proof fn lemma_version_only_v1(v: Version)
    ensures
        v == Version::V1,
{
    match v {
        Version::V1 => {},
    }
}

/// A whole tag-length-value unit parses back to itself, whatever follows.
proof fn lemma_parse_tlv_extend(d: Seq<u8>, rest: Seq<u8>)
    requires
        whole_tlv(d),
    ensures
        spec_parse_tlv(d + rest) == spec_parse_tlv(d),
        spec_parse_tlv(d) matches Some((tag, content, k)) && k == d.len() && tag == d[0],
        (d + rest).take(d.len() as int) == d,
{
    match spec_parse_tlv(d) {
        Some((tag, content, k)) => {
            lemma_parse_tlv_canonical(d);
            assert(d.take(k as int) =~= d);
            lemma_parse_tlv_build(tag, content, rest);
            assert(d + rest =~= spec_tlv(tag, content) + rest);
            assert((d + rest).take(d.len() as int) =~= d);
        },
        None => {
            assert(false);
        },
    }
}

/// Parsing a well-formed CertID's encoding gives it back, whatever
/// follows.
proof fn lemma_parse_certid_extend(c: CertIdV, rest: Seq<u8>)
    requires
        c.wf(),
    ensures
        spec_parse_certid(c.der + rest) == Some((c, c.der.len() as nat)),
        c.der.len() >= 2,
{
    lemma_parse_tlv_extend(c.der, rest);
    lemma_parse_tlv_canonical(c.der + rest);
}

/// Parsing a well-formed GeneralName's encoding gives it back, whatever
/// follows.
proof fn lemma_parse_gname_extend(n: GeneralNameV, rest: Seq<u8>)
    requires
        n.wf(),
    ensures
        spec_parse_gname(n.der + rest) == Some((n, n.der.len() as nat)),
        n.der.len() >= 2,
{
    lemma_parse_tlv_extend(n.der, rest);
    lemma_parse_tlv_canonical(n.der + rest);
}

/// Parsing a well-formed AlgorithmIdentifier's encoding gives it back,
/// whatever follows.
proof fn lemma_parse_algid_extend(a: AlgorithmIdentifierV, rest: Seq<u8>)
    requires
        a.wf(),
    ensures
        spec_parse_algid(a.der + rest) == Some((a, a.der.len() as nat)),
        a.der.len() >= 2,
{
    lemma_parse_tlv_extend(a.der, rest);
    lemma_parse_tlv_canonical(a.der + rest);
}

/// Parsing a well-formed Certificate's encoding gives it back, whatever
/// follows.
proof fn lemma_parse_cert_extend(c: CertificateV, rest: Seq<u8>)
    requires
        c.wf(),
    ensures
        spec_parse_cert(c.der + rest) == Some((c, c.der.len() as nat)),
        c.der.len() >= 2,
{
    lemma_parse_tlv_extend(c.der, rest);
    lemma_parse_tlv_canonical(c.der + rest);
}

/// Parsing an OCTET STRING built from any content gives the content back.
proof fn lemma_parse_octets_exact_build(v: Seq<u8>)
    requires
        v.len() <= MAX_CONTENT_LEN,
    ensures
        spec_parse_octets_exact(spec_tlv(TAG_OCTET_STRING, v)) == Some(v),
        spec_tlv(TAG_OCTET_STRING, v).len() >= 2,
        spec_tlv(TAG_OCTET_STRING, v)[0] == TAG_OCTET_STRING,
{
    lemma_parse_tlv_build(TAG_OCTET_STRING, v, Seq::empty());
    assert(spec_tlv(TAG_OCTET_STRING, v) + Seq::<u8>::empty() =~= spec_tlv(TAG_OCTET_STRING, v));
}

/// Parsing a well-formed Extension's encoding gives it back, whatever
/// follows.
#[verifier::rlimit(100)]
proof fn lemma_parse_ext_build(e: ExtensionV, rest: Seq<u8>)
    requires
        e.wf(),
    ensures
        spec_parse_ext(spec_ext(e) + rest) == Some((e, spec_ext(e).len() as nat)),
        spec_ext(e).len() >= 2,
{
    reveal(spec_parse_ext);
    let content = spec_ext_content(e);
    let idtlv = spec_tlv(TAG_OID, e.extn_id);
    let crit: Seq<u8> = if e.critical {
        seq![0x01u8, 1u8, 0xFFu8]
    } else {
        Seq::empty()
    };
    let vtlv = spec_tlv(TAG_OCTET_STRING, e.extn_value);
    assert(e.extn_id.len() <= MAX_CONTENT_LEN);
    assert(e.extn_value.len() <= MAX_CONTENT_LEN);
    lemma_parse_tlv_build(TAG_SEQUENCE, content, rest);
    lemma_parse_tlv_build(TAG_OID, e.extn_id, crit + vtlv);
    assert(content =~= idtlv + (crit + vtlv));
    assert(content.skip(idtlv.len() as int) =~= crit + vtlv);
    lemma_parse_octets_exact_build(e.extn_value);
    if e.critical {
        let r = crit + vtlv;
        assert(r[0] == 0x01u8 && r[1] == 1u8 && r[2] == 0xFFu8);
        assert(r.skip(3) =~= vtlv);
        assert(spec_parse_ext_tail(r) == Some((true, e.extn_value)));
    } else {
        assert(crit + vtlv =~= vtlv);
        assert(vtlv[0] == TAG_OCTET_STRING);
        assert(spec_parse_ext_tail(vtlv) == Some((false, e.extn_value)));
    }
}

/// One unfolding step of the extension run parser, in a minimal context.
proof fn lemma_parse_ext_seq_step(es: Seq<ExtensionV>, content: Seq<u8>, k: int)
    requires
        es.len() > 0,
        spec_parse_ext(content) == Some((es[0], k as nat)),
        1 <= k <= content.len(),
        spec_parse_ext_seq(content.skip(k)) == Some(es.skip(1)),
    ensures
        spec_parse_ext_seq(content) == Some(es),
{
    assert(seq![es[0]] + es.skip(1) =~= es);
}

/// Parsing a concatenation of well-formed Extension encodings gives the
/// list back.
#[verifier::rlimit(100)]
proof fn lemma_parse_ext_seq_build(es: Seq<ExtensionV>)
    requires
        forall|i: int| 0 <= i < es.len() ==> (#[trigger] es[i]).wf(),
    ensures
        spec_parse_ext_seq(spec_exts_content(es)) == Some(es),
    decreases es.len(),
{
    if es.len() == 0 {
    } else {
        let head = spec_ext(es[0]);
        let tail = spec_exts_content(es.skip(1));
        let content = spec_exts_content(es);
        assert(es[0].wf());
        lemma_parse_ext_build(es[0], tail);
        assert(content == head + tail);
        let k = head.len() as int;
        assert(spec_parse_ext(content) == Some((es[0], k as nat)));
        assert(1 <= k <= content.len());
        assert(content.skip(k) =~= tail);
        assert forall|i: int| 0 <= i < es.skip(1).len() implies (#[trigger] es.skip(1)[i]).wf() by {
            assert(es.skip(1)[i] == es[i + 1]);
        }
        lemma_parse_ext_seq_build(es.skip(1));
        lemma_parse_ext_seq_step(es, content, k);
    }
}

/// Parsing a well-formed Extensions SEQUENCE gives the list back,
/// whatever follows.
#[verifier::rlimit(100)]
proof fn lemma_parse_exts_build(es: Seq<ExtensionV>, rest: Seq<u8>)
    requires
        exts_wf(es),
    ensures
        spec_parse_exts(spec_exts(es) + rest) == Some((es, spec_exts(es).len() as nat)),
        spec_exts(es).len() >= 2,
{
    let content = spec_exts_content(es);
    assert(content.len() <= MAX_CONTENT_LEN);
    lemma_parse_tlv_build(TAG_SEQUENCE, content, rest);
    assert(es[0].wf());
    assert(content == spec_ext(es[0]) + spec_exts_content(es.skip(1)));
    assert(spec_ext(es[0]).len() >= 1);
    assert(content.len() >= 1);
    lemma_parse_ext_seq_build(es);
}

/// Parsing a present explicitly tagged Extensions field gives the list
/// back, whatever follows.
proof fn lemma_parse_opt_exts_present(es: Seq<ExtensionV>, ctag: u8, rest: Seq<u8>)
    requires
        exts_wf(es),
    ensures
        spec_parse_opt_exts(spec_tlv(ctag, spec_exts(es)) + rest, ctag) == Some((
            Some(es),
            spec_tlv(ctag, spec_exts(es)).len() as nat,
        )),
        spec_tlv(ctag, spec_exts(es)).len() >= 2,
        spec_tlv(ctag, spec_exts(es))[0] == ctag,
{
    let inner = spec_exts(es);
    let w = spec_tlv(ctag, inner);
    lemma_parse_tlv_build(ctag, inner, rest);
    assert((w + rest)[0] == ctag);
    lemma_parse_exts_build(es, Seq::empty());
    assert(inner + Seq::<u8>::empty() =~= inner);
}

/// An optional explicitly tagged Extensions field is absent when the
/// input is empty or opens with another tag.
proof fn lemma_parse_opt_exts_absent(b: Seq<u8>, ctag: u8)
    requires
        b.len() == 0 || b[0] != ctag,
    ensures
        spec_parse_opt_exts(b, ctag) == Some((None::<Seq<ExtensionV>>, 0nat)),
{
}

/// Parsing a well-formed Request's encoding gives it back, whatever
/// follows.
#[verifier::rlimit(100)]
proof fn lemma_parse_request_build(r: RequestV, rest: Seq<u8>)
    requires
        r.wf(),
    ensures
        spec_parse_request(spec_request(r) + rest) == Some((r, spec_request(r).len() as nat)),
        spec_request(r).len() >= 2,
{
    reveal(spec_parse_request);
    let content = spec_request_content(r);
    let opt: Seq<u8> = match r.single_request_extensions {
        Some(es) => spec_tlv(TAG_CTX0, spec_exts(es)),
        None => Seq::empty(),
    };
    lemma_parse_tlv_build(TAG_SEQUENCE, content, rest);
    assert(content == r.req_cert.der + opt);
    lemma_parse_certid_extend(r.req_cert, opt);
    assert(content.skip(r.req_cert.der.len() as int) =~= opt);
    match r.single_request_extensions {
        Some(es) => {
            lemma_parse_opt_exts_present(es, TAG_CTX0, Seq::empty());
            assert(spec_tlv(TAG_CTX0, spec_exts(es)) + Seq::<u8>::empty() =~= opt);
        },
        None => {
            lemma_parse_opt_exts_absent(opt, TAG_CTX0);
        },
    }
}

/// Parsing a concatenation of well-formed Request encodings gives the
/// list back.
#[verifier::rlimit(100)]
proof fn lemma_parse_req_seq_build(rs: Seq<RequestV>)
    requires
        forall|i: int| 0 <= i < rs.len() ==> (#[trigger] rs[i]).wf(),
    ensures
        spec_parse_req_seq(spec_req_list_content(rs)) == Some(rs),
    decreases rs.len(),
{
    if rs.len() == 0 {
    } else {
        let head = spec_request(rs[0]);
        let tail = spec_req_list_content(rs.skip(1));
        let content = spec_req_list_content(rs);
        assert(rs[0].wf());
        lemma_parse_request_build(rs[0], tail);
        assert(content == head + tail);
        assert(1 <= head.len() <= content.len());
        assert(content.skip(head.len() as int) =~= tail);
        assert(forall|i: int| 0 <= i < rs.skip(1).len() ==> (#[trigger] rs.skip(1)[i]).wf());
        lemma_parse_req_seq_build(rs.skip(1));
        assert(seq![rs[0]] + rs.skip(1) =~= rs);
    }
}

/// Parsing a present [1] EXPLICIT GeneralName gives it back, whatever
/// follows.
proof fn lemma_parse_opt_name_present(n: GeneralNameV, rest: Seq<u8>)
    requires
        n.wf(),
    ensures
        spec_parse_opt_name(spec_tlv(TAG_CTX1, n.der) + rest) == Some((
            Some(n),
            spec_tlv(TAG_CTX1, n.der).len() as nat,
        )),
        spec_tlv(TAG_CTX1, n.der).len() >= 2,
        spec_tlv(TAG_CTX1, n.der)[0] == TAG_CTX1,
{
    let w = spec_tlv(TAG_CTX1, n.der);
    lemma_parse_tlv_build(TAG_CTX1, n.der, rest);
    assert((w + rest)[0] == TAG_CTX1);
    lemma_parse_gname_extend(n, Seq::empty());
    assert(n.der + Seq::<u8>::empty() =~= n.der);
}

/// An optional [1] EXPLICIT GeneralName is absent when the input is
/// empty or opens with another tag.
proof fn lemma_parse_opt_name_absent(b: Seq<u8>)
    requires
        b.len() == 0 || b[0] != TAG_CTX1,
    ensures
        spec_parse_opt_name(b) == Some((None::<GeneralNameV>, 0nat)),
{
}

/// One unfolding of the TBSRequest content parser, in a minimal context.
proof fn lemma_parse_tbs_content_step(t: TbsRequestV, c: Seq<u8>, k1: int, k2: int)
    requires
        c.len() >= 1,
        c[0] != TAG_CTX0,
        0 <= k1,
        0 <= k2,
        k1 + k2 <= c.len(),
        spec_parse_opt_name(c) == Some((t.requestor_name, k1 as nat)),
        spec_parse_tlv(c.skip(k1)) matches Some((tag, lc, kk)) && tag == TAG_SEQUENCE && kk == k2
            as nat && spec_parse_req_seq(lc) == Some(t.request_list),
        spec_parse_opt_exts(c.skip(k1).skip(k2), TAG_CTX2) == Some((
            t.request_extensions,
            (c.len() - k1 - k2) as nat,
        )),
        t.version == Version::V1,
    ensures
        spec_parse_tbs_content(c) == Some(t),
{
    reveal(spec_parse_tbs_content);
}

/// Parsing a well-formed TBSRequest content gives the value back. The
/// content opens with the [1] name tag or the request list's SEQUENCE
/// tag, never with the version's [0] tag: DER elides the default
/// version.
#[verifier::rlimit(100)]
proof fn lemma_parse_tbs_content_build(t: TbsRequestV)
    requires
        t.wf(),
    ensures
        spec_parse_tbs_content(spec_tbs_content(t)) == Some(t),
        spec_tbs_content(t).len() >= 1,
        spec_tbs_content(t)[0] == TAG_CTX1 || spec_tbs_content(t)[0] == TAG_SEQUENCE,
{
    let name_seq: Seq<u8> = match t.requestor_name {
        Some(n) => spec_tlv(TAG_CTX1, n.der),
        None => Seq::empty(),
    };
    let list_tlv = spec_tlv(TAG_SEQUENCE, spec_req_list_content(t.request_list));
    let exts_seq: Seq<u8> = match t.request_extensions {
        Some(es) => spec_tlv(TAG_CTX2, spec_exts(es)),
        None => Seq::empty(),
    };
    let c = spec_tbs_content(t);
    assert(c == name_seq + list_tlv + exts_seq);
    lemma_parse_tlv_build(TAG_SEQUENCE, spec_req_list_content(t.request_list), exts_seq);
    match t.requestor_name {
        Some(n) => {
            lemma_parse_opt_name_present(n, list_tlv + exts_seq);
            assert(c =~= spec_tlv(TAG_CTX1, n.der) + (list_tlv + exts_seq));
            assert(c[0] == TAG_CTX1);
        },
        None => {
            assert(c =~= list_tlv + exts_seq);
            assert(c[0] == TAG_SEQUENCE);
            lemma_parse_opt_name_absent(c);
        },
    }
    assert(c.skip(name_seq.len() as int) =~= list_tlv + exts_seq);
    lemma_parse_req_seq_build(t.request_list);
    assert((list_tlv + exts_seq).skip(list_tlv.len() as int) =~= exts_seq);
    match t.request_extensions {
        Some(es) => {
            lemma_parse_opt_exts_present(es, TAG_CTX2, Seq::empty());
            assert(spec_tlv(TAG_CTX2, spec_exts(es)) + Seq::<u8>::empty() =~= exts_seq);
        },
        None => {
            lemma_parse_opt_exts_absent(exts_seq, TAG_CTX2);
        },
    }
    lemma_version_only_v1(t.version);
    lemma_parse_tbs_content_step(t, c, name_seq.len() as int, list_tlv.len() as int);
}

/// Parsing a well-formed TBSRequest's encoding gives it back, whatever
/// follows.
proof fn lemma_parse_tbs_build(t: TbsRequestV, rest: Seq<u8>)
    requires
        t.wf(),
    ensures
        spec_parse_tbs(spec_tbs(t) + rest) == Some((t, spec_tbs(t).len() as nat)),
        spec_tbs(t).len() >= 2,
        spec_tbs(t)[0] == TAG_SEQUENCE,
{
    lemma_parse_tlv_build(TAG_SEQUENCE, spec_tbs_content(t), rest);
    lemma_parse_tbs_content_build(t);
    assert(spec_tbs(t)[0] == TAG_SEQUENCE);
}

/// Parsing a well-formed BIT STRING's encoding gives it back, whatever
/// follows.
proof fn lemma_parse_bit_string_build(bs: BitStringV, rest: Seq<u8>)
    requires
        bs.wf(),
    ensures
        spec_parse_bit_string(spec_bit_string(bs) + rest) == Some((
            bs,
            spec_bit_string(bs).len() as nat,
        )),
        spec_bit_string(bs).len() >= 2,
{
    let content = seq![bs.unused_bits] + bs.data;
    lemma_parse_tlv_build(TAG_BIT_STRING, content, rest);
    assert(content[0] == bs.unused_bits);
    assert(content.skip(1) =~= bs.data);
}

/// Parsing a concatenation of well-formed Certificate encodings gives the
/// chain back.
#[verifier::rlimit(100)]
proof fn lemma_parse_cert_seq_build(cs: Seq<CertificateV>)
    requires
        forall|i: int| 0 <= i < cs.len() ==> (#[trigger] cs[i]).wf(),
    ensures
        spec_parse_cert_seq(spec_certs_content(cs)) == Some(cs),
    decreases cs.len(),
{
    if cs.len() == 0 {
    } else {
        let head = cs[0].der;
        let tail = spec_certs_content(cs.skip(1));
        let content = spec_certs_content(cs);
        assert(cs[0].wf());
        lemma_parse_cert_extend(cs[0], tail);
        assert(content == head + tail);
        assert(1 <= head.len() <= content.len());
        assert(content.skip(head.len() as int) =~= tail);
        assert(forall|i: int| 0 <= i < cs.skip(1).len() ==> (#[trigger] cs.skip(1)[i]).wf());
        lemma_parse_cert_seq_build(cs.skip(1));
        assert(seq![cs[0]] + cs.skip(1) =~= cs);
    }
}

/// Parsing a well-formed Signature content gives the value back.
#[verifier::rlimit(100)]
proof fn lemma_parse_sig_content_build(s: SignatureV)
    requires
        s.wf(),
    ensures
        spec_parse_sig_content(spec_sig_content(s)) == Some(s),
{
    reveal(spec_parse_sig_content);
    let bs_tlv = spec_bit_string(s.signature);
    let certs_seq: Seq<u8> = match s.certs {
        Some(cs) => spec_tlv(TAG_CTX0, spec_tlv(TAG_SEQUENCE, spec_certs_content(cs))),
        None => Seq::empty(),
    };
    let c = spec_sig_content(s);
    assert(c == s.signature_algorithm.der + bs_tlv + certs_seq);
    lemma_parse_algid_extend(s.signature_algorithm, bs_tlv + certs_seq);
    assert(c =~= s.signature_algorithm.der + (bs_tlv + certs_seq));
    assert(c.skip(s.signature_algorithm.der.len() as int) =~= bs_tlv + certs_seq);
    lemma_parse_bit_string_build(s.signature, certs_seq);
    assert((bs_tlv + certs_seq).skip(bs_tlv.len() as int) =~= certs_seq);
    match s.certs {
        Some(cs) => {
            let inner = spec_tlv(TAG_SEQUENCE, spec_certs_content(cs));
            lemma_parse_tlv_build(TAG_CTX0, inner, Seq::empty());
            assert(spec_tlv(TAG_CTX0, inner) + Seq::<u8>::empty() =~= certs_seq);
            assert(certs_seq[0] == TAG_CTX0);
            lemma_parse_tlv_build(TAG_SEQUENCE, spec_certs_content(cs), Seq::empty());
            assert(inner + Seq::<u8>::empty() =~= inner);
            lemma_parse_cert_seq_build(cs);
        },
        None => {},
    }
}

/// Parsing a well-formed Signature's encoding gives it back, whatever
/// follows.
proof fn lemma_parse_signature_build(s: SignatureV, rest: Seq<u8>)
    requires
        s.wf(),
    ensures
        spec_parse_signature(spec_signature(s) + rest) == Some((
            s,
            spec_signature(s).len() as nat,
        )),
        spec_signature(s).len() >= 2,
{
    lemma_parse_tlv_build(TAG_SEQUENCE, spec_sig_content(s), rest);
    lemma_parse_sig_content_build(s);
}

/// Parsing a well-formed OCSPRequest content gives the value back.
#[verifier::rlimit(100)]
proof fn lemma_parse_ocsp_content_build(v: OcspRequestV)
    requires
        v.wf(),
    ensures
        spec_parse_ocsp_content(spec_ocsp_content(v)) == Some(v),
{
    let sig_seq: Seq<u8> = match v.optional_signature {
        Some(s) => spec_tlv(TAG_CTX0, spec_signature(s)),
        None => Seq::empty(),
    };
    let c = spec_ocsp_content(v);
    assert(c == spec_tbs(v.tbs_request) + sig_seq);
    lemma_parse_tbs_build(v.tbs_request, sig_seq);
    assert(c.skip(spec_tbs(v.tbs_request).len() as int) =~= sig_seq);
    match v.optional_signature {
        Some(s) => {
            lemma_parse_tlv_build(TAG_CTX0, spec_signature(s), Seq::empty());
            assert(spec_tlv(TAG_CTX0, spec_signature(s)) + Seq::<u8>::empty() =~= sig_seq);
            assert(sig_seq[0] == TAG_CTX0);
            lemma_parse_signature_build(s, Seq::empty());
            assert(spec_signature(s) + Seq::<u8>::empty() =~= spec_signature(s));
            assert(spec_parse_opt_sig(sig_seq) == Some(Some(s)));
        },
        None => {
            assert(spec_parse_opt_sig(sig_seq) == Some(None::<SignatureV>));
        },
    }
}

/// Round trip: decoding the canonical encoding of any well-formed
/// OCSPRequest gives back exactly that request.
pub proof fn lemma_ocsp_round_trip(v: OcspRequestV)
    requires
        v.wf(),
    ensures
        spec_decode_ocsp(spec_ocsp(v)) == Some(v),
{
    lemma_parse_tlv_build(TAG_SEQUENCE, spec_ocsp_content(v), Seq::empty());
    assert(spec_ocsp(v) + Seq::<u8>::empty() =~= spec_ocsp(v));
    lemma_parse_ocsp_content_build(v);
}

/// Round trip: decoding the canonical encoding of any well-formed
/// TBSRequest gives back exactly that value.
pub proof fn lemma_tbs_round_trip(t: TbsRequestV)
    requires
        t.wf(),
    ensures
        spec_decode_tbs(spec_tbs(t)) == Some(t),
{
    lemma_parse_tbs_build(t, Seq::empty());
    assert(spec_tbs(t) + Seq::<u8>::empty() =~= spec_tbs(t));
}

/// Round trip: decoding the canonical encoding of any well-formed
/// Request gives back exactly that value.
pub proof fn lemma_request_round_trip(r: RequestV)
    requires
        r.wf(),
    ensures
        spec_decode_request(spec_request(r)) == Some(r),
{
    lemma_parse_request_build(r, Seq::empty());
    assert(spec_request(r) + Seq::<u8>::empty() =~= spec_request(r));
}

/// Round trip: decoding the canonical encoding of any well-formed
/// Signature gives back exactly that value.
pub proof fn lemma_signature_round_trip(s: SignatureV)
    requires
        s.wf(),
    ensures
        spec_decode_signature(spec_signature(s)) == Some(s),
{
    lemma_parse_signature_build(s, Seq::empty());
    assert(spec_signature(s) + Seq::<u8>::empty() =~= spec_signature(s));
}

/// Default elision: the encoded TBSRequest of any well-formed value
/// opens with the [1] requestorName tag or the request list's SEQUENCE
/// tag — never with the version's [0] tag, which DER elides because the
/// version always equals the v1 default.
pub proof fn lemma_default_version_elided(t: TbsRequestV)
    requires
        t.wf(),
    ensures
        spec_tbs_content(t).len() >= 1,
        spec_tbs_content(t)[0] == TAG_CTX1 || spec_tbs_content(t)[0] == TAG_SEQUENCE,
        spec_tbs_content(t)[0] != TAG_CTX0,
        spec_tbs(t) == spec_tlv(TAG_SEQUENCE, spec_tbs_content(t)),
{
    lemma_parse_tbs_content_build(t);
}

/// Canonicality rejection: a TBSRequest whose content opens with a
/// [0]-tagged field — the version, whose only defined value is the
/// default and must therefore be elided — is rejected outright, whatever
/// the field holds and whatever follows the TBSRequest.
pub proof fn lemma_explicit_version_rejected(c: Seq<u8>, rest: Seq<u8>)
    requires
        c.len() >= 1,
        c[0] == TAG_CTX0,
        c.len() <= MAX_CONTENT_LEN,
    ensures
        spec_parse_tbs(spec_tlv(TAG_SEQUENCE, c) + rest) is None,
        spec_decode_tbs(spec_tlv(TAG_SEQUENCE, c)) is None,
{
    reveal(spec_parse_tbs_content);
    lemma_parse_tlv_build(TAG_SEQUENCE, c, rest);
    assert(spec_parse_tbs_content(c) is None);
    lemma_parse_tlv_build(TAG_SEQUENCE, c, Seq::empty());
    assert(spec_tlv(TAG_SEQUENCE, c) + Seq::<u8>::empty() =~= spec_tlv(TAG_SEQUENCE, c));
}

/// Canonicality rejection at the root: an OCSPRequest whose TBSRequest
/// carries a [0]-tagged version field fails the whole decode.
pub proof fn lemma_explicit_version_rejected_ocsp(c: Seq<u8>, rest: Seq<u8>)
    requires
        c.len() >= 1,
        c[0] == TAG_CTX0,
        c.len() <= MAX_CONTENT_LEN,
        (spec_tlv(TAG_SEQUENCE, c) + rest).len() <= MAX_CONTENT_LEN,
    ensures
        spec_decode_ocsp(spec_tlv(TAG_SEQUENCE, spec_tlv(TAG_SEQUENCE, c) + rest)) is None,
{
    lemma_explicit_version_rejected(c, rest);
    lemma_parse_tlv_build(TAG_SEQUENCE, spec_tlv(TAG_SEQUENCE, c) + rest, Seq::empty());
    assert(spec_tlv(TAG_SEQUENCE, spec_tlv(TAG_SEQUENCE, c) + rest) + Seq::<u8>::empty()
        =~= spec_tlv(TAG_SEQUENCE, spec_tlv(TAG_SEQUENCE, c) + rest));
}

/// Optional signature, absent: the root SEQUENCE holding only a
/// TBSRequest decodes to a request whose signature is absent, the body
/// preserved.
pub proof fn lemma_decode_unsigned(t: TbsRequestV)
    requires
        (OcspRequestV { tbs_request: t, optional_signature: None }).wf(),
    ensures
        spec_decode_ocsp(spec_tlv(TAG_SEQUENCE, spec_tbs(t))) == Some(
            OcspRequestV { tbs_request: t, optional_signature: None },
        ),
{
    let v = OcspRequestV { tbs_request: t, optional_signature: None };
    assert(spec_ocsp_content(v) =~= spec_tbs(t));
    lemma_ocsp_round_trip(v);
}

/// Optional signature, present: the root SEQUENCE holding a TBSRequest
/// and a [0]-tagged Signature decodes to a request carrying exactly that
/// signature, all fields preserved.
pub proof fn lemma_decode_signed(t: TbsRequestV, s: SignatureV)
    requires
        (OcspRequestV { tbs_request: t, optional_signature: Some(s) }).wf(),
    ensures
        spec_decode_ocsp(
            spec_tlv(TAG_SEQUENCE, spec_tbs(t) + spec_tlv(TAG_CTX0, spec_signature(s))),
        ) == Some(OcspRequestV { tbs_request: t, optional_signature: Some(s) }),
{
    let v = OcspRequestV { tbs_request: t, optional_signature: Some(s) };
    assert(spec_ocsp_content(v) =~= spec_tbs(t) + spec_tlv(TAG_CTX0, spec_signature(s)));
    lemma_ocsp_round_trip(v);
}

/// Empty request list: a TBSRequest with a zero-length request list is
/// degenerate but syntactically legal. It decodes successfully and, the
/// codec being canonical, re-encodes to the same octets.
pub proof fn lemma_empty_request_list(t: TbsRequestV)
    requires
        t.wf(),
        t.request_list.len() == 0,
    ensures
        spec_decode_tbs(spec_tbs(t)) == Some(t),
{
    lemma_tbs_round_trip(t);
}

// ---------------------------------------------------------------------
// The canonical direction: whatever the parsers accept is the canonical
// encoding of a well-formed value, so a decoded value re-encodes to the
// very octets it came from.
// ---------------------------------------------------------------------

/// An accepted prefix is itself one whole tag-length-value unit.
proof fn lemma_take_whole_tlv(b: Seq<u8>)
    ensures
        match spec_parse_tlv(b) {
            Some((tag, content, k)) => {
                &&& whole_tlv(b.take(k as int))
                &&& spec_parse_tlv(b.take(k as int)) == Some((tag, content, k))
            },
            None => true,
        },
{
    match spec_parse_tlv(b) {
        Some((tag, content, k)) => {
            lemma_parse_tlv_canonical(b);
            lemma_parse_tlv_build(tag, content, Seq::empty());
            assert(spec_tlv(tag, content) + Seq::<u8>::empty() =~= b.take(k as int));
        },
        None => {},
    }
}

/// An accepted whole OCTET STRING is the canonical encoding of its
/// content.
proof fn lemma_octets_exact_canonical(b: Seq<u8>)
    ensures
        match spec_parse_octets_exact(b) {
            Some(v) => v.len() <= MAX_CONTENT_LEN && b == spec_tlv(TAG_OCTET_STRING, v),
            None => true,
        },
{
    match spec_parse_octets_exact(b) {
        Some(v) => {
            lemma_parse_tlv_canonical(b);
            assert(b.take(b.len() as int) =~= b);
        },
        None => {},
    }
}

/// An accepted extension tail is the canonical criticality octets
/// followed by the canonical value OCTET STRING.
proof fn lemma_ext_tail_canonical(r: Seq<u8>)
    ensures
        match spec_parse_ext_tail(r) {
            Some((crit, v)) => {
                &&& v.len() <= MAX_CONTENT_LEN
                &&& r == (if crit {
                    seq![0x01u8, 1u8, 0xFFu8]
                } else {
                    Seq::<u8>::empty()
                }) + spec_tlv(TAG_OCTET_STRING, v)
            },
            None => true,
        },
{
    match spec_parse_ext_tail(r) {
        Some((crit, v)) => {
            if r.len() >= 1 && r[0] == TAG_BOOLEAN {
                lemma_octets_exact_canonical(r.skip(3));
                assert(r =~= seq![0x01u8, 1u8, 0xFFu8] + r.skip(3));
            } else {
                lemma_octets_exact_canonical(r);
                assert(r =~= Seq::<u8>::empty() + r);
            }
        },
        None => {},
    }
}

/// Recomposing an Extension content from its accepted pieces, in a
/// minimal context.
proof fn lemma_ext_content_recompose(e: ExtensionV, content: Seq<u8>, k1: int)
    requires
        0 <= k1 <= content.len(),
        content.take(k1) == spec_tlv(TAG_OID, e.extn_id),
        content.skip(k1) == (if e.critical {
            seq![0x01u8, 1u8, 0xFFu8]
        } else {
            Seq::<u8>::empty()
        }) + spec_tlv(TAG_OCTET_STRING, e.extn_value),
    ensures
        content == spec_ext_content(e),
{
    assert(content =~= content.take(k1) + content.skip(k1));
    assert(content =~= spec_ext_content(e));
}

/// An accepted Extension prefix is the canonical encoding of a
/// well-formed Extension.
#[verifier::rlimit(100)]
proof fn lemma_ext_canonical(b: Seq<u8>)
    ensures
        match spec_parse_ext(b) {
            Some((e, k)) => 2 <= k <= b.len() && b.take(k as int) == spec_ext(e) && e.wf(),
            None => true,
        },
{
    reveal(spec_parse_ext);
    match spec_parse_ext(b) {
        Some((e, k)) => {
            lemma_parse_tlv_canonical(b);
            match spec_parse_tlv(b) {
                Some((t0, content, k0)) => {
                    lemma_parse_tlv_canonical(content);
                    match spec_parse_tlv(content) {
                        Some((t1, id, k1)) => {
                            lemma_ext_tail_canonical(content.skip(k1 as int));
                            lemma_ext_content_recompose(e, content, k1 as int);
                            assert(b.take(k as int) == spec_ext(e));
                        },
                        None => {
                            assert(false);
                        },
                    }
                },
                None => {
                    assert(false);
                },
            }
        },
        None => {},
    }
}

/// An accepted whole extension run is the canonical encoding of a list of
/// well-formed Extensions.
proof fn lemma_ext_seq_canonical(c: Seq<u8>)
    ensures
        match spec_parse_ext_seq(c) {
            Some(es) => c == spec_exts_content(es) && es.len() <= c.len() && (forall|i: int|
                0 <= i < es.len() ==> (#[trigger] es[i]).wf()),
            None => true,
        },
    decreases c.len(),
{
    if c.len() == 0 {
    } else {
        match spec_parse_ext(c) {
            Some((e, k)) => {
                if 1 <= k <= c.len() {
                    lemma_ext_canonical(c);
                    lemma_ext_seq_canonical(c.skip(k as int));
                    match spec_parse_ext_seq(c.skip(k as int)) {
                        Some(rest) => {
                            let es = seq![e] + rest;
                            assert(es[0] == e);
                            assert(es.skip(1) =~= rest);
                            assert(spec_exts_content(es) == spec_ext(e) + spec_exts_content(
                                rest,
                            ));
                            assert(c =~= c.take(k as int) + c.skip(k as int));
                            assert(c == spec_exts_content(es));
                            assert forall|i: int| 0 <= i < es.len() implies (#[trigger] es[i]).wf()
                            by {
                                if i > 0 {
                                    assert(es[i] == rest[i - 1]);
                                }
                            }
                        },
                        None => {},
                    }
                }
            },
            None => {},
        }
    }
}

/// An accepted Extensions SEQUENCE prefix is the canonical encoding of a
/// non-empty list of well-formed Extensions.
proof fn lemma_exts_canonical(b: Seq<u8>)
    ensures
        match spec_parse_exts(b) {
            Some((es, k)) => {
                &&& 2 <= k <= b.len()
                &&& b.take(k as int) == spec_exts(es)
                &&& es.len() >= 1
                &&& forall|i: int| 0 <= i < es.len() ==> (#[trigger] es[i]).wf()
                &&& spec_exts_content(es).len() <= MAX_CONTENT_LEN
                &&& spec_exts(es).len() == k
            },
            None => true,
        },
{
    match spec_parse_exts(b) {
        Some((es, k)) => {
            lemma_parse_tlv_canonical(b);
            match spec_parse_tlv(b) {
                Some((t0, content, k0)) => {
                    lemma_ext_seq_canonical(content);
                    assert(content == spec_exts_content(es));
                },
                None => {
                    assert(false);
                },
            }
        },
        None => {},
    }
}

/// An accepted optional explicitly tagged Extensions field is either
/// absent, consuming nothing, or the canonical wrapper around a
/// well-formed list.
proof fn lemma_opt_exts_canonical(b: Seq<u8>, ctag: u8)
    ensures
        match spec_parse_opt_exts(b, ctag) {
            Some((oes, k)) => (match oes {
                Some(es) => {
                    &&& 2 <= k <= b.len()
                    &&& b.take(k as int) == spec_tlv(ctag, spec_exts(es))
                    &&& exts_wf(es)
                },
                None => k == 0,
            }),
            None => true,
        },
{
    if b.len() >= 1 && b[0] == ctag {
        match spec_parse_explicit_exts(b, ctag) {
            Some((es, k)) => {
                lemma_parse_tlv_canonical(b);
                match spec_parse_tlv(b) {
                    Some((t0, content, k0)) => {
                        lemma_exts_canonical(content);
                        match spec_parse_exts(content) {
                            Some((es2, k2)) => {
                                assert(content.take(k2 as int) =~= content);
                                assert(content == spec_exts(es));
                            },
                            None => {
                                assert(false);
                            },
                        }
                    },
                    None => {
                        assert(false);
                    },
                }
            },
            None => {},
        }
    }
}

/// An accepted CertID prefix is one whole SEQUENCE unit.
proof fn lemma_certid_canonical(b: Seq<u8>)
    ensures
        match spec_parse_certid(b) {
            Some((c, k)) => {
                &&& 2 <= k <= b.len()
                &&& b.take(k as int) == c.der
                &&& c.der.len() == k
                &&& whole_tlv(c.der)
                &&& c.der[0] == TAG_SEQUENCE
            },
            None => true,
        },
{
    match spec_parse_certid(b) {
        Some((c, k)) => {
            lemma_parse_tlv_canonical(b);
            lemma_take_whole_tlv(b);
        },
        None => {},
    }
}

/// An accepted GeneralName prefix is one whole unit.
proof fn lemma_gname_canonical(b: Seq<u8>)
    ensures
        match spec_parse_gname(b) {
            Some((n, k)) => {
                &&& 2 <= k <= b.len()
                &&& b.take(k as int) == n.der
                &&& n.der.len() == k
                &&& whole_tlv(n.der)
            },
            None => true,
        },
{
    match spec_parse_gname(b) {
        Some((n, k)) => {
            lemma_parse_tlv_canonical(b);
            lemma_take_whole_tlv(b);
        },
        None => {},
    }
}

/// An accepted AlgorithmIdentifier prefix is one whole SEQUENCE unit.
proof fn lemma_algid_canonical(b: Seq<u8>)
    ensures
        match spec_parse_algid(b) {
            Some((a, k)) => {
                &&& 2 <= k <= b.len()
                &&& b.take(k as int) == a.der
                &&& a.der.len() == k
                &&& whole_tlv(a.der)
                &&& a.der[0] == TAG_SEQUENCE
            },
            None => true,
        },
{
    match spec_parse_algid(b) {
        Some((a, k)) => {
            lemma_parse_tlv_canonical(b);
            lemma_take_whole_tlv(b);
        },
        None => {},
    }
}

/// An accepted Certificate prefix is one whole SEQUENCE unit.
proof fn lemma_cert_canonical(b: Seq<u8>)
    ensures
        match spec_parse_cert(b) {
            Some((c, k)) => {
                &&& 2 <= k <= b.len()
                &&& b.take(k as int) == c.der
                &&& c.der.len() == k
                &&& whole_tlv(c.der)
                &&& c.der[0] == TAG_SEQUENCE
            },
            None => true,
        },
{
    match spec_parse_cert(b) {
        Some((c, k)) => {
            lemma_parse_tlv_canonical(b);
            lemma_take_whole_tlv(b);
        },
        None => {},
    }
}

/// An accepted Request prefix is the canonical encoding of a well-formed
/// Request.
#[verifier::rlimit(100)]
proof fn lemma_request_canonical(b: Seq<u8>)
    ensures
        match spec_parse_request(b) {
            Some((r, k)) => 2 <= k <= b.len() && b.take(k as int) == spec_request(r) && r.wf(),
            None => true,
        },
{
    reveal(spec_parse_request);
    match spec_parse_request(b) {
        Some((r, k)) => {
            lemma_parse_tlv_canonical(b);
            match spec_parse_tlv(b) {
                Some((t0, content, k0)) => {
                    lemma_certid_canonical(content);
                    match spec_parse_certid(content) {
                        Some((cid, k1)) => {
                            lemma_opt_exts_canonical(content.skip(k1 as int), TAG_CTX0);
                            assert(content =~= content.take(k1 as int) + content.skip(
                                k1 as int,
                            ));
                            match spec_parse_opt_exts(content.skip(k1 as int), TAG_CTX0) {
                                Some((oes, k2)) => {
                                    assert(content.skip(k1 as int).take(k2 as int)
                                        =~= content.skip(k1 as int));
                                    assert(content == spec_request_content(r));
                                },
                                None => {
                                    assert(false);
                                },
                            }
                        },
                        None => {
                            assert(false);
                        },
                    }
                },
                None => {
                    assert(false);
                },
            }
        },
        None => {},
    }
}

/// An accepted whole Request run is the canonical encoding of a list of
/// well-formed Requests.
proof fn lemma_req_seq_canonical(c: Seq<u8>)
    ensures
        match spec_parse_req_seq(c) {
            Some(rs) => c == spec_req_list_content(rs) && rs.len() <= c.len() && (forall|i: int|
                0 <= i < rs.len() ==> (#[trigger] rs[i]).wf()),
            None => true,
        },
    decreases c.len(),
{
    if c.len() == 0 {
    } else {
        match spec_parse_request(c) {
            Some((r, k)) => {
                if 1 <= k <= c.len() {
                    lemma_request_canonical(c);
                    lemma_req_seq_canonical(c.skip(k as int));
                    match spec_parse_req_seq(c.skip(k as int)) {
                        Some(rest) => {
                            let rs = seq![r] + rest;
                            assert(rs[0] == r);
                            assert(rs.skip(1) =~= rest);
                            assert(spec_req_list_content(rs) == spec_request(r)
                                + spec_req_list_content(rest));
                            assert(c =~= c.take(k as int) + c.skip(k as int));
                            assert(c == spec_req_list_content(rs));
                            assert forall|i: int| 0 <= i < rs.len() implies (#[trigger] rs[i]).wf()
                            by {
                                if i > 0 {
                                    assert(rs[i] == rest[i - 1]);
                                }
                            }
                        },
                        None => {},
                    }
                }
            },
            None => {},
        }
    }
}

/// An accepted optional [1] EXPLICIT GeneralName is either absent,
/// consuming nothing, or the canonical wrapper around a well-formed name.
proof fn lemma_opt_name_canonical(b: Seq<u8>)
    ensures
        match spec_parse_opt_name(b) {
            Some((on, k)) => (match on {
                Some(n) => {
                    &&& 2 <= k <= b.len()
                    &&& b.take(k as int) == spec_tlv(TAG_CTX1, n.der)
                    &&& n.wf()
                },
                None => k == 0,
            }),
            None => true,
        },
{
    if b.len() >= 1 && b[0] == TAG_CTX1 {
        match spec_parse_tlv(b) {
            Some((t0, content, k0)) => {
                lemma_parse_tlv_canonical(b);
                lemma_gname_canonical(content);
                match spec_parse_gname(content) {
                    Some((n, kg)) => {
                        if kg == content.len() {
                            assert(content.take(kg as int) =~= content);
                        }
                    },
                    None => {},
                }
            },
            None => {},
        }
    }
}

/// An accepted whole TBSRequest content is the canonical encoding of a
/// well-formed TBSRequest.
#[verifier::rlimit(100)]
proof fn lemma_tbs_content_canonical(c: Seq<u8>)
    requires
        c.len() <= MAX_CONTENT_LEN,
    ensures
        match spec_parse_tbs_content(c) {
            Some(t) => c == spec_tbs_content(t) && t.wf(),
            None => true,
        },
{
    reveal(spec_parse_tbs_content);
    match spec_parse_tbs_content(c) {
        Some(t) => {
            lemma_opt_name_canonical(c);
            match spec_parse_opt_name(c) {
                Some((name, k1)) => {
                    let c1 = c.skip(k1 as int);
                    lemma_parse_tlv_canonical(c1);
                    match spec_parse_tlv(c1) {
                        Some((t2, lc, k2)) => {
                            lemma_req_seq_canonical(lc);
                            let c2 = c1.skip(k2 as int);
                            lemma_opt_exts_canonical(c2, TAG_CTX2);
                            match spec_parse_opt_exts(c2, TAG_CTX2) {
                                Some((oes, k3)) => {
                                    assert(c2.take(k3 as int) =~= c2);
                                    assert(c =~= c.take(k1 as int) + (c1.take(k2 as int)
                                        + c2));
                                    assert(c == spec_tbs_content(t));
                                },
                                None => {
                                    assert(false);
                                },
                            }
                        },
                        None => {
                            assert(false);
                        },
                    }
                },
                None => {
                    assert(false);
                },
            }
        },
        None => {},
    }
}

/// An accepted TBSRequest prefix is the canonical encoding of a
/// well-formed TBSRequest.
proof fn lemma_tbs_canonical(b: Seq<u8>)
    ensures
        match spec_parse_tbs(b) {
            Some((t, k)) => 2 <= k <= b.len() && b.take(k as int) == spec_tbs(t) && t.wf(),
            None => true,
        },
{
    match spec_parse_tbs(b) {
        Some((t, k)) => {
            lemma_parse_tlv_canonical(b);
            match spec_parse_tlv(b) {
                Some((t0, content, k0)) => {
                    lemma_tbs_content_canonical(content);
                },
                None => {
                    assert(false);
                },
            }
        },
        None => {},
    }
}

/// An accepted BIT STRING prefix is the canonical encoding of a
/// well-formed BIT STRING.
proof fn lemma_bit_string_canonical(b: Seq<u8>)
    ensures
        match spec_parse_bit_string(b) {
            Some((bs, k)) => 2 <= k <= b.len() && b.take(k as int) == spec_bit_string(bs)
                && bs.wf(),
            None => true,
        },
{
    match spec_parse_bit_string(b) {
        Some((bs, k)) => {
            lemma_parse_tlv_canonical(b);
            match spec_parse_tlv(b) {
                Some((t0, content, k0)) => {
                    assert(content =~= seq![bs.unused_bits] + bs.data);
                },
                None => {
                    assert(false);
                },
            }
        },
        None => {},
    }
}

/// An accepted whole Certificate run is the canonical encoding of a chain
/// of well-formed Certificates.
proof fn lemma_cert_seq_canonical(c: Seq<u8>)
    requires
        c.len() <= MAX_CONTENT_LEN,
    ensures
        match spec_parse_cert_seq(c) {
            Some(cs) => c == spec_certs_content(cs) && cs.len() <= c.len() && (forall|i: int|
                0 <= i < cs.len() ==> (#[trigger] cs[i]).wf()),
            None => true,
        },
    decreases c.len(),
{
    if c.len() == 0 {
    } else {
        match spec_parse_cert(c) {
            Some((cc, k)) => {
                if 1 <= k <= c.len() {
                    lemma_cert_canonical(c);
                    lemma_cert_seq_canonical(c.skip(k as int));
                    match spec_parse_cert_seq(c.skip(k as int)) {
                        Some(rest) => {
                            let cs = seq![cc] + rest;
                            assert(cs[0] == cc);
                            assert(cs.skip(1) =~= rest);
                            assert(spec_certs_content(cs) == cc.der + spec_certs_content(rest));
                            assert(c =~= c.take(k as int) + c.skip(k as int));
                            assert(c == spec_certs_content(cs));
                            assert forall|i: int| 0 <= i < cs.len() implies (#[trigger] cs[i]).wf()
                            by {
                                if i > 0 {
                                    assert(cs[i] == rest[i - 1]);
                                }
                            }
                        },
                        None => {},
                    }
                }
            },
            None => {},
        }
    }
}

/// An accepted whole Signature content is the canonical encoding of a
/// well-formed Signature.
#[verifier::rlimit(100)]
proof fn lemma_sig_content_canonical(c: Seq<u8>)
    requires
        c.len() <= MAX_CONTENT_LEN,
    ensures
        match spec_parse_sig_content(c) {
            Some(s) => c == spec_sig_content(s) && s.wf(),
            None => true,
        },
{
    reveal(spec_parse_sig_content);
    match spec_parse_sig_content(c) {
        Some(s) => {
            lemma_algid_canonical(c);
            match spec_parse_algid(c) {
                Some((alg, k1)) => {
                    let c1 = c.skip(k1 as int);
                    lemma_bit_string_canonical(c1);
                    match spec_parse_bit_string(c1) {
                        Some((bs, k2)) => {
                            let c2 = c1.skip(k2 as int);
                            if c2.len() == 0 {
                                assert(c =~= c.take(k1 as int) + (c1.take(k2 as int) + c2));
                                assert(c == spec_sig_content(s));
                            } else {
                                lemma_parse_tlv_canonical(c2);
                                match spec_parse_tlv(c2) {
                                    Some((t3, w, k3)) => {
                                        lemma_parse_tlv_canonical(w);
                                        lemma_take_whole_tlv(c2);
                                        match spec_parse_tlv(w) {
                                            Some((t4, lc, k4)) => {
                                                lemma_cert_seq_canonical(lc);
                                                assert(w.take(k4 as int) =~= w);
                                                assert(c2.take(k3 as int) =~= c2);
                                                assert(c =~= c.take(k1 as int) + (c1.take(
                                                    k2 as int,
                                                ) + c2));
                                                assert(c == spec_sig_content(s));
                                            },
                                            None => {
                                                assert(false);
                                            },
                                        }
                                    },
                                    None => {
                                        assert(false);
                                    },
                                }
                            }
                        },
                        None => {
                            assert(false);
                        },
                    }
                },
                None => {
                    assert(false);
                },
            }
        },
        None => {},
    }
}

/// An accepted Signature prefix is the canonical encoding of a
/// well-formed Signature.
proof fn lemma_signature_canonical(b: Seq<u8>)
    ensures
        match spec_parse_signature(b) {
            Some((s, k)) => 2 <= k <= b.len() && b.take(k as int) == spec_signature(s) && s.wf(),
            None => true,
        },
{
    match spec_parse_signature(b) {
        Some((s, k)) => {
            lemma_parse_tlv_canonical(b);
            match spec_parse_tlv(b) {
                Some((t0, content, k0)) => {
                    lemma_sig_content_canonical(content);
                },
                None => {
                    assert(false);
                },
            }
        },
        None => {},
    }
}

/// An accepted whole OCSPRequest content is the canonical encoding of a
/// well-formed OCSPRequest.
#[verifier::rlimit(100)]
proof fn lemma_ocsp_content_canonical(c: Seq<u8>)
    requires
        c.len() <= MAX_CONTENT_LEN,
    ensures
        match spec_parse_ocsp_content(c) {
            Some(v) => c == spec_ocsp_content(v) && v.wf(),
            None => true,
        },
{
    match spec_parse_ocsp_content(c) {
        Some(v) => {
            lemma_tbs_canonical(c);
            match spec_parse_tbs(c) {
                Some((t, k1)) => {
                    let c1 = c.skip(k1 as int);
                    match spec_parse_opt_sig(c1) {
                        Some(os) => {
                            match os {
                                Some(s) => {
                                    lemma_parse_tlv_canonical(c1);
                                    match spec_parse_tlv(c1) {
                                        Some((t2, w, k2)) => {
                                            lemma_signature_canonical(w);
                                            assert(w.take(w.len() as int) =~= w);
                                            assert(c1.take(k2 as int) =~= c1);
                                            assert(c =~= c.take(k1 as int) + c1);
                                            assert(c == spec_ocsp_content(v));
                                        },
                                        None => {
                                            assert(false);
                                        },
                                    }
                                },
                                None => {
                                    assert(c1.len() == 0);
                                    assert(c =~= c.take(k1 as int) + c1);
                                    assert(c == spec_ocsp_content(v));
                                },
                            }
                        },
                        None => {
                            assert(false);
                        },
                    }
                },
                None => {
                    assert(false);
                },
            }
        },
        None => {},
    }
}

/// Canonicality: a buffer that decodes as an OCSPRequest is the canonical
/// encoding of the well-formed value it decodes to — the codec accepts
/// exactly one byte form per value.
pub proof fn lemma_ocsp_decode_canonical(b: Seq<u8>)
    ensures
        match spec_decode_ocsp(b) {
            Some(v) => v.wf() && b == spec_ocsp(v),
            None => true,
        },
{
    match spec_decode_ocsp(b) {
        Some(v) => {
            lemma_parse_tlv_canonical(b);
            match spec_parse_tlv(b) {
                Some((t0, content, k0)) => {
                    lemma_ocsp_content_canonical(content);
                    assert(b.take(b.len() as int) =~= b);
                },
                None => {
                    assert(false);
                },
            }
        },
        None => {},
    }
}

/// Canonicality: a buffer that decodes as a TBSRequest is the canonical
/// encoding of the well-formed value it decodes to.
pub proof fn lemma_tbs_decode_canonical(b: Seq<u8>)
    ensures
        match spec_decode_tbs(b) {
            Some(t) => t.wf() && b == spec_tbs(t),
            None => true,
        },
{
    match spec_decode_tbs(b) {
        Some(t) => {
            lemma_tbs_canonical(b);
            assert(b.take(b.len() as int) =~= b);
        },
        None => {},
    }
}

/// Canonicality: a buffer that decodes as a Request is the canonical
/// encoding of the well-formed value it decodes to.
pub proof fn lemma_request_decode_canonical(b: Seq<u8>)
    ensures
        match spec_decode_request(b) {
            Some(r) => r.wf() && b == spec_request(r),
            None => true,
        },
{
    match spec_decode_request(b) {
        Some(r) => {
            lemma_request_canonical(b);
            assert(b.take(b.len() as int) =~= b);
        },
        None => {},
    }
}

/// Canonicality: a buffer that decodes as a Signature is the canonical
/// encoding of the well-formed value it decodes to.
pub proof fn lemma_signature_decode_canonical(b: Seq<u8>)
    ensures
        match spec_decode_signature(b) {
            Some(s) => s.wf() && b == spec_signature(s),
            None => true,
        },
{
    match spec_decode_signature(b) {
        Some(s) => {
            lemma_signature_canonical(b);
            assert(b.take(b.len() as int) =~= b);
        },
        None => {},
    }
}


} // verus!
