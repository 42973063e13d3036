//! Executable encoders: each entity is serialized to exactly the
//! canonical byte form that the model's encoding functions describe.
//! Encoding a well-formed value never fails.

use vstd::prelude::*;
use crate::codec::{spec_tlv, write_bytes, write_len, MAX_CONTENT_LEN};
use crate::model::{
    exts_wf, spec_bit_string, spec_certs_content, spec_ext, spec_ext_content, spec_exts,
    spec_exts_content, spec_ocsp, spec_ocsp_content, spec_req_list_content, spec_request,
    spec_request_content, spec_sig_content, spec_signature, spec_tbs, spec_tbs_content,
    CertificateV, ExtensionV, RequestV, TAG_BIT_STRING, TAG_BOOLEAN, TAG_CTX0, TAG_CTX1, TAG_CTX2,
    TAG_OCTET_STRING, TAG_OID, TAG_SEQUENCE,
};
use crate::types::{BitString, Certificate, Extension, OcspRequest, Request, Signature, TbsRequest};

verus! {

/// Appending one extension to a list appends its encoding to the list's.
proof fn lemma_exts_content_push(s: Seq<ExtensionV>, e: ExtensionV)
    ensures
        spec_exts_content(s.push(e)) == spec_exts_content(s) + spec_ext(e),
    decreases s.len(),
{
    let p = s.push(e);
    if s.len() == 0 {
        assert(p[0] == e);
        assert(p.skip(1) =~= Seq::<ExtensionV>::empty());
        assert(spec_exts_content(p.skip(1)) == Seq::<u8>::empty());
        assert(spec_exts_content(p) == spec_ext(e) + spec_exts_content(p.skip(1)));
        assert(spec_exts_content(p) =~= spec_exts_content(s) + spec_ext(e));
    } else {
        assert(p.skip(1) =~= s.skip(1).push(e));
        lemma_exts_content_push(s.skip(1), e);
        assert(p[0] == s[0]);
        assert(spec_exts_content(p) == spec_ext(s[0]) + spec_exts_content(s.skip(1).push(e)));
        assert(spec_exts_content(s) == spec_ext(s[0]) + spec_exts_content(s.skip(1)));
        assert(spec_exts_content(p) =~= spec_exts_content(s) + spec_ext(e));
    }
}

/// Appending one request to a list appends its encoding to the list's.
proof fn lemma_req_list_content_push(s: Seq<RequestV>, r: RequestV)
    ensures
        spec_req_list_content(s.push(r)) == spec_req_list_content(s) + spec_request(r),
    decreases s.len(),
{
    let p = s.push(r);
    if s.len() == 0 {
        assert(p[0] == r);
        assert(p.skip(1) =~= Seq::<RequestV>::empty());
        assert(spec_req_list_content(p.skip(1)) == Seq::<u8>::empty());
        assert(spec_req_list_content(p) == spec_request(r) + spec_req_list_content(p.skip(1)));
        assert(spec_req_list_content(p) =~= spec_req_list_content(s) + spec_request(r));
    } else {
        assert(p.skip(1) =~= s.skip(1).push(r));
        lemma_req_list_content_push(s.skip(1), r);
        assert(p[0] == s[0]);
        assert(spec_req_list_content(p) == spec_request(s[0]) + spec_req_list_content(
            s.skip(1).push(r),
        ));
        assert(spec_req_list_content(s) == spec_request(s[0]) + spec_req_list_content(s.skip(1)));
        assert(spec_req_list_content(p) =~= spec_req_list_content(s) + spec_request(r));
    }
}

/// Appending one certificate to a chain appends its encoding to the
/// chain's.
proof fn lemma_certs_content_push(s: Seq<CertificateV>, c: CertificateV)
    ensures
        spec_certs_content(s.push(c)) == spec_certs_content(s) + c.der,
    decreases s.len(),
{
    let p = s.push(c);
    if s.len() == 0 {
        assert(p[0] == c);
        assert(p.skip(1) =~= Seq::<CertificateV>::empty());
        assert(spec_certs_content(p.skip(1)) == Seq::<u8>::empty());
        assert(spec_certs_content(p) == c.der + spec_certs_content(p.skip(1)));
        assert(spec_certs_content(p) =~= spec_certs_content(s) + c.der);
    } else {
        assert(p.skip(1) =~= s.skip(1).push(c));
        lemma_certs_content_push(s.skip(1), c);
        assert(p[0] == s[0]);
        assert(spec_certs_content(p) == s[0].der + spec_certs_content(s.skip(1).push(c)));
        assert(spec_certs_content(s) == s[0].der + spec_certs_content(s.skip(1)));
        assert(spec_certs_content(p) =~= spec_certs_content(s) + c.der);
    }
}

/// Appends one encoded Extension to `out`.
#[verifier::rlimit(50)]
fn write_ext(out: &mut Vec<u8>, e: &Extension)
    requires
        e@.wf(),
    ensures
        final(out)@ == old(out)@ + spec_ext(e@),
{
    let mut content: Vec<u8> = Vec::new();
    assert(spec_ext_content(e@).len() >= e.extn_id@.len());
    assert(spec_ext_content(e@).len() >= e.extn_value@.len());
    content.push(TAG_OID);
    write_len(&mut content, e.extn_id.len());
    write_bytes(&mut content, &e.extn_id);
    assert(content@ =~= spec_tlv(TAG_OID, e.extn_id@));
    let ghost crit_seq: Seq<u8> = if e.critical {
        seq![TAG_BOOLEAN, 1u8, 0xFFu8]
    } else {
        Seq::empty()
    };
    if e.critical {
        content.push(TAG_BOOLEAN);
        content.push(1);
        content.push(0xFF);
    }
    assert(content@ =~= spec_tlv(TAG_OID, e.extn_id@) + crit_seq);
    content.push(TAG_OCTET_STRING);
    write_len(&mut content, e.extn_value.len());
    write_bytes(&mut content, &e.extn_value);
    assert(content@ =~= spec_tlv(TAG_OID, e.extn_id@) + crit_seq + spec_tlv(
        TAG_OCTET_STRING,
        e.extn_value@,
    ));
    assert(content@ == spec_ext_content(e@));
    out.push(TAG_SEQUENCE);
    write_len(out, content.len());
    out.append(&mut content);
    assert(final(out)@ =~= old(out)@ + spec_ext(e@));
}

/// Appends one encoded Extensions SEQUENCE to `out`.
#[verifier::rlimit(50)]
fn write_exts(out: &mut Vec<u8>, es: &Vec<Extension>)
    requires
        exts_wf(es@.map_values(|e: Extension| e@)),
    ensures
        final(out)@ == old(out)@ + spec_exts(es@.map_values(|e: Extension| e@)),
{
    let ghost v = es@.map_values(|e: Extension| e@);
    let mut content: Vec<u8> = Vec::new();
    let mut i: usize = 0;
    while i < es.len()
        invariant
            i <= es@.len(),
            v == es@.map_values(|e: Extension| e@),
            exts_wf(v),
            content@ == spec_exts_content(v.take(i as int)),
        decreases es@.len() - i,
    {
        assert(v[i as int] == es@[i as int]@);
        write_ext(&mut content, &es[i]);
        proof {
            assert(v.take(i + 1) =~= v.take(i as int).push(v[i as int]));
            lemma_exts_content_push(v.take(i as int), v[i as int]);
        }
        i = i + 1;
    }
    assert(v.take(v.len() as int) =~= v);
    assert(spec_exts(v).len() >= content@.len());
    out.push(TAG_SEQUENCE);
    write_len(out, content.len());
    out.append(&mut content);
    assert(final(out)@ =~= old(out)@ + spec_exts(v));
}

/// Appends an extension list under its explicit context tag to `out`.
fn write_tagged_exts(out: &mut Vec<u8>, ctag: u8, es: &Vec<Extension>)
    requires
        exts_wf(es@.map_values(|e: Extension| e@)),
    ensures
        final(out)@ == old(out)@ + spec_tlv(ctag, spec_exts(es@.map_values(|e: Extension| e@))),
{
    let mut w: Vec<u8> = Vec::new();
    write_exts(&mut w, es);
    out.push(ctag);
    write_len(out, w.len());
    out.append(&mut w);
    assert(final(out)@ =~= old(out)@ + spec_tlv(
        ctag,
        spec_exts(es@.map_values(|e: Extension| e@)),
    ));
}

/// Appends one encoded Request to `out`.
#[verifier::rlimit(50)]
fn write_request(out: &mut Vec<u8>, r: &Request)
    requires
        r@.wf(),
    ensures
        final(out)@ == old(out)@ + spec_request(r@),
{
    let mut content: Vec<u8> = Vec::new();
    write_bytes(&mut content, &r.req_cert.der);
    let ghost exts_seq: Seq<u8> = match r@.single_request_extensions {
        Some(es) => spec_tlv(TAG_CTX0, spec_exts(es)),
        None => Seq::empty(),
    };
    match &r.single_request_extensions {
        Some(es) => {
            write_tagged_exts(&mut content, TAG_CTX0, es);
        },
        None => {},
    }
    assert(content@ =~= r.req_cert.der@ + exts_seq);
    assert(content@ == spec_request_content(r@));
    out.push(TAG_SEQUENCE);
    write_len(out, content.len());
    out.append(&mut content);
    assert(final(out)@ =~= old(out)@ + spec_request(r@));
}

/// Appends one encoded TBSRequest to `out`. The version always equals
/// the v1 default, so no version field is written.
#[verifier::rlimit(50)]
fn write_tbs(out: &mut Vec<u8>, t: &TbsRequest)
    requires
        t@.wf(),
    ensures
        final(out)@ == old(out)@ + spec_tbs(t@),
{
    let ghost v = t@;
    let mut content: Vec<u8> = Vec::new();
    let ghost name_seq: Seq<u8> = match v.requestor_name {
        Some(n) => spec_tlv(TAG_CTX1, n.der),
        None => Seq::empty(),
    };
    match &t.requestor_name {
        Some(n) => {
            content.push(TAG_CTX1);
            write_len(&mut content, n.der.len());
            write_bytes(&mut content, &n.der);
        },
        None => {},
    }
    assert(content@ =~= name_seq);
    let ghost rl = t.request_list@.map_values(|r: Request| r@);
    assert(rl == v.request_list);
    let mut list: Vec<u8> = Vec::new();
    let mut i: usize = 0;
    while i < t.request_list.len()
        invariant
            i <= t.request_list@.len(),
            rl == t.request_list@.map_values(|r: Request| r@),
            forall|j: int| 0 <= j < rl.len() ==> (#[trigger] rl[j]).wf(),
            spec_req_list_content(rl).len() <= MAX_CONTENT_LEN,
            list@ == spec_req_list_content(rl.take(i as int)),
        decreases t.request_list@.len() - i,
    {
        assert(rl[i as int] == t.request_list@[i as int]@);
        write_request(&mut list, &t.request_list[i]);
        proof {
            assert(rl.take(i + 1) =~= rl.take(i as int).push(rl[i as int]));
            lemma_req_list_content_push(rl.take(i as int), rl[i as int]);
        }
        i = i + 1;
    }
    assert(rl.take(rl.len() as int) =~= rl);
    content.push(TAG_SEQUENCE);
    write_len(&mut content, list.len());
    content.append(&mut list);
    assert(content@ =~= name_seq + spec_tlv(TAG_SEQUENCE, spec_req_list_content(rl)));
    let ghost exts_seq: Seq<u8> = match v.request_extensions {
        Some(es) => spec_tlv(TAG_CTX2, spec_exts(es)),
        None => Seq::empty(),
    };
    match &t.request_extensions {
        Some(es) => {
            write_tagged_exts(&mut content, TAG_CTX2, es);
        },
        None => {},
    }
    assert(content@ =~= name_seq + spec_tlv(TAG_SEQUENCE, spec_req_list_content(rl)) + exts_seq);
    assert(content@ == spec_tbs_content(v));
    out.push(TAG_SEQUENCE);
    write_len(out, content.len());
    out.append(&mut content);
    assert(final(out)@ =~= old(out)@ + spec_tbs(v));
}

/// Appends one encoded BIT STRING to `out`.
fn write_bit_string(out: &mut Vec<u8>, bs: &BitString)
    requires
        bs@.wf(),
    ensures
        final(out)@ == old(out)@ + spec_bit_string(bs@),
{
    out.push(TAG_BIT_STRING);
    write_len(out, 1 + bs.data.len());
    out.push(bs.unused_bits);
    write_bytes(out, &bs.data);
    assert(final(out)@ =~= old(out)@ + spec_bit_string(bs@));
}

/// Appends one encoded Signature to `out`.
#[verifier::rlimit(50)]
fn write_signature(out: &mut Vec<u8>, s: &Signature)
    requires
        s@.wf(),
    ensures
        final(out)@ == old(out)@ + spec_signature(s@),
{
    let ghost v = s@;
    let mut content: Vec<u8> = Vec::new();
    write_bytes(&mut content, &s.signature_algorithm.der);
    write_bit_string(&mut content, &s.signature);
    assert(content@ =~= v.signature_algorithm.der + spec_bit_string(v.signature));
    let ghost certs_seq: Seq<u8> = match v.certs {
        Some(cs) => spec_tlv(TAG_CTX0, spec_tlv(TAG_SEQUENCE, spec_certs_content(cs))),
        None => Seq::empty(),
    };
    match &s.certs {
        Some(cs) => {
            let ghost cv = cs@.map_values(|c: Certificate| c@);
            assert(v.certs == Some(cv));
            let mut chain: Vec<u8> = Vec::new();
            let mut i: usize = 0;
            while i < cs.len()
                invariant
                    i <= cs@.len(),
                    cv == cs@.map_values(|c: Certificate| c@),
                    forall|j: int| 0 <= j < cv.len() ==> (#[trigger] cv[j]).wf(),
                    spec_certs_content(cv).len() <= MAX_CONTENT_LEN,
                    chain@ == spec_certs_content(cv.take(i as int)),
                decreases cs@.len() - i,
            {
                assert(cv[i as int] == cs@[i as int]@);
                assert(cv[i as int].wf());
                write_bytes(&mut chain, &cs[i].der);
                proof {
                    assert(cv.take(i + 1) =~= cv.take(i as int).push(cv[i as int]));
                    lemma_certs_content_push(cv.take(i as int), cv[i as int]);
                }
                i = i + 1;
            }
            assert(cv.take(cv.len() as int) =~= cv);
            let mut w: Vec<u8> = Vec::new();
            w.push(TAG_SEQUENCE);
            write_len(&mut w, chain.len());
            w.append(&mut chain);
            assert(w@ =~= spec_tlv(TAG_SEQUENCE, spec_certs_content(cv)));
            content.push(TAG_CTX0);
            write_len(&mut content, w.len());
            content.append(&mut w);
        },
        None => {},
    }
    assert(content@ =~= v.signature_algorithm.der + spec_bit_string(v.signature) + certs_seq);
    assert(content@ == spec_sig_content(v));
    out.push(TAG_SEQUENCE);
    write_len(out, content.len());
    out.append(&mut content);
    assert(final(out)@ =~= old(out)@ + spec_signature(v));
}

impl Request {
    /// Serializes this Request to its canonical DER form. Encoding a
    /// well-formed value never fails.
    pub fn encode(&self) -> (r: Vec<u8>)
        requires
            self@.wf(),
        ensures
            r@ == spec_request(self@),
    {
        let mut out: Vec<u8> = Vec::new();
        write_request(&mut out, self);
        out
    }
}

impl TbsRequest {
    /// Serializes this TBSRequest to its canonical DER form: the version
    /// equals the v1 default and is therefore omitted entirely. Encoding
    /// a well-formed value never fails.
    pub fn encode(&self) -> (r: Vec<u8>)
        requires
            self@.wf(),
        ensures
            r@ == spec_tbs(self@),
    {
        let mut out: Vec<u8> = Vec::new();
        write_tbs(&mut out, self);
        out
    }
}

impl Signature {
    /// Serializes this Signature to its canonical DER form. Encoding a
    /// well-formed value never fails.
    pub fn encode(&self) -> (r: Vec<u8>)
        requires
            self@.wf(),
        ensures
            r@ == spec_signature(self@),
    {
        let mut out: Vec<u8> = Vec::new();
        write_signature(&mut out, self);
        out
    }
}

impl OcspRequest {
    /// Serializes this OCSPRequest to its canonical DER form. Encoding a
    /// well-formed value never fails.
    #[verifier::rlimit(50)]
    pub fn encode(&self) -> (r: Vec<u8>)
        requires
            self@.wf(),
        ensures
            r@ == spec_ocsp(self@),
    {
        let ghost v = self@;
        let mut content: Vec<u8> = Vec::new();
        write_tbs(&mut content, &self.tbs_request);
        let ghost sig_seq: Seq<u8> = match v.optional_signature {
            Some(s) => spec_tlv(TAG_CTX0, spec_signature(s)),
            None => Seq::empty(),
        };
        match &self.optional_signature {
            Some(s) => {
                let mut w: Vec<u8> = Vec::new();
                write_signature(&mut w, s);
                content.push(TAG_CTX0);
                write_len(&mut content, w.len());
                content.append(&mut w);
            },
            None => {},
        }
        assert(content@ =~= spec_tbs(v.tbs_request) + sig_seq);
        assert(content@ == spec_ocsp_content(v));
        let mut out: Vec<u8> = Vec::new();
        out.push(TAG_SEQUENCE);
        write_len(&mut out, content.len());
        out.append(&mut content);
        assert(out@ =~= spec_ocsp(v));
        out
    }
}

} // verus!
