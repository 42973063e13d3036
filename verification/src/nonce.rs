//! The nonce-extension lookup: a read-only derived view over a
//! TBSRequest's top-level extension list. Absence of the extension and a
//! malformed extension value are deliberately collapsed into "no nonce";
//! callers needing to tell them apart must inspect the extension list
//! directly.

use vstd::prelude::*;
use crate::decode::parse_octets_exact_range;
use crate::model::{spec_parse_octets_exact, ExtensionV, TbsRequestV};
use crate::types::{Extension, Nonce, OcspRequest, TbsRequest};

verus! {

/// The content octets of the id-pkix-ocsp-nonce OBJECT IDENTIFIER,
/// 1.3.6.1.5.5.7.48.1.2.
pub open spec fn spec_nonce_oid() -> Seq<u8> {
    seq![0x2Bu8, 0x06u8, 0x01u8, 0x05u8, 0x05u8, 0x07u8, 0x30u8, 0x01u8, 0x02u8]
}

/// First-match scan of an extension list: the first entry carrying the
/// nonce id decides the outcome, and its value must decode as a whole
/// OCTET STRING, else there is no nonce. Later entries with the same id
/// are never considered.
pub open spec fn spec_nonce_scan(es: Seq<ExtensionV>) -> Option<Seq<u8>>
    decreases es.len(),
{
    if es.len() == 0 {
        None
    } else if es[0].extn_id == spec_nonce_oid() {
        spec_parse_octets_exact(es[0].extn_value)
    } else {
        spec_nonce_scan(es.skip(1))
    }
}

/// The nonce of a TBSRequest: "no nonce" uniformly when the extension
/// list is absent, no entry matches the nonce id, or the first matching
/// entry's value is not a well-formed OCTET STRING.
pub open spec fn spec_nonce(t: TbsRequestV) -> Option<Seq<u8>> {
    match t.request_extensions {
        Some(es) => spec_nonce_scan(es),
        None => None,
    }
}

/// Compares an extension id against the nonce OBJECT IDENTIFIER.
fn is_nonce_oid(id: &Vec<u8>) -> (r: bool)
    ensures
        r == (id@ == spec_nonce_oid()),
{
    if id.len() != 9 {
        assert(id@ != spec_nonce_oid());
        return false;
    }
    let r = id[0] == 0x2B && id[1] == 0x06 && id[2] == 0x01 && id[3] == 0x05 && id[4] == 0x05
        && id[5] == 0x07 && id[6] == 0x30 && id[7] == 0x01 && id[8] == 0x02;
    if r {
        assert(id@ =~= spec_nonce_oid());
    } else {
        assert(id@ != spec_nonce_oid()) by {
            if id@ == spec_nonce_oid() {
                assert(id@[0] == 0x2B && id@[1] == 0x06 && id@[2] == 0x01 && id@[3] == 0x05
                    && id@[4] == 0x05 && id@[5] == 0x07 && id@[6] == 0x30 && id@[7] == 0x01
                    && id@[8] == 0x02);
            }
        }
    }
    r
}

impl TbsRequest {
    /// Returns the request's nonce value, if any. Returns `None` when the
    /// request has no nonce extension or when decoding of the nonce
    /// extension's value fails: the two cases are observably identical.
    /// Only the first entry carrying the nonce id is considered.
    pub fn nonce(&self) -> (r: Option<Nonce>)
        ensures
            match r {
                Some(n) => spec_nonce(self@) == Some(n.bytes@),
                None => spec_nonce(self@) is None,
            },
    {
        match &self.request_extensions {
            Some(es) => {
                let ghost ev = es@.map_values(|e: Extension| e@);
                assert(self@.request_extensions == Some(ev));
                assert(ev.skip(0) =~= ev);
                let mut i: usize = 0;
                while i < es.len()
                    invariant
                        i <= es@.len(),
                        ev == es@.map_values(|e: Extension| e@),
                        self@.request_extensions == Some(ev),
                        spec_nonce_scan(ev) == spec_nonce_scan(ev.skip(i as int)),
                    decreases es@.len() - i,
                {
                    assert(ev.skip(i as int)[0] == ev[i as int]);
                    assert(ev[i as int] == es@[i as int]@);
                    let e = &es[i];
                    if is_nonce_oid(&e.extn_id) {
                        assert(spec_nonce_scan(ev.skip(i as int)) == spec_parse_octets_exact(
                            e@.extn_value,
                        ));
                        let v = &e.extn_value;
                        assert(v@.subrange(0, v@.len() as int) =~= v@);
                        match parse_octets_exact_range(v, 0, v.len()) {
                            Some(bytes) => {
                                return Some(Nonce { bytes });
                            },
                            None => {
                                return None;
                            },
                        }
                    }
                    proof {
                        assert(ev.skip(i as int).skip(1) =~= ev.skip(i + 1));
                    }
                    i = i + 1;
                }
                assert(ev.skip(i as int).len() == 0);
                None
            },
            None => None,
        }
    }
}

impl OcspRequest {
    /// Returns the request's nonce value, if any: a pure forwarding
    /// accessor with the semantics of the TBSRequest lookup.
    pub fn nonce(&self) -> (r: Option<Nonce>)
        ensures
            match r {
                Some(n) => spec_nonce(self@.tbs_request) == Some(n.bytes@),
                None => spec_nonce(self@.tbs_request) is None,
            },
    {
        self.tbs_request.nonce()
    }
}

/// A request without a top-level extension list carries no nonce.
pub proof fn lemma_nonce_absent(t: TbsRequestV)
    requires
        t.request_extensions is None,
    ensures
        spec_nonce(t) is None,
{
}

/// A scan of a list with no entry carrying the nonce id finds nothing.
proof fn lemma_scan_no_match(es: Seq<ExtensionV>)
    requires
        forall|j: int| 0 <= j < es.len() ==> (#[trigger] es[j].extn_id) != spec_nonce_oid(),
    ensures
        spec_nonce_scan(es) is None,
    decreases es.len(),
{
    if es.len() > 0 {
        assert(forall|j: int|
            0 <= j < es.skip(1).len() ==> (#[trigger] es.skip(1)[j].extn_id) != spec_nonce_oid());
        lemma_scan_no_match(es.skip(1));
    }
}

/// A request whose extension list has no entry carrying the nonce id
/// carries no nonce: observably identical to having no extension list at
/// all.
pub proof fn lemma_nonce_no_match(t: TbsRequestV)
    requires
        match t.request_extensions {
            Some(es) => forall|j: int|
                0 <= j < es.len() ==> (#[trigger] es[j].extn_id) != spec_nonce_oid(),
            None => true,
        },
    ensures
        spec_nonce(t) is None,
{
    match t.request_extensions {
        Some(es) => lemma_scan_no_match(es),
        None => {},
    }
}

/// The scan is decided by the first entry carrying the nonce id,
/// whatever stands before it (unknown ids pass through unharmed) or
/// after it.
proof fn lemma_scan_first_match(es: Seq<ExtensionV>, i: int)
    requires
        0 <= i < es.len(),
        es[i].extn_id == spec_nonce_oid(),
        forall|j: int| 0 <= j < i ==> (#[trigger] es[j].extn_id) != spec_nonce_oid(),
    ensures
        spec_nonce_scan(es) == spec_parse_octets_exact(es[i].extn_value),
    decreases i,
{
    if i == 0 {
    } else {
        assert(es[0].extn_id != spec_nonce_oid());
        assert(forall|j: int|
            0 <= j < i - 1 ==> (#[trigger] es.skip(1)[j].extn_id) != spec_nonce_oid());
        assert(es.skip(1)[i - 1] == es[i]);
        lemma_scan_first_match(es.skip(1), i - 1);
    }
}

/// The nonce lookup is decided by the first entry carrying the nonce id:
/// its value decides between a nonce and none, and extensions with other
/// (also unrecognized) ids anywhere in the list never disturb the
/// lookup.
pub proof fn lemma_nonce_first_match(t: TbsRequestV, i: int)
    requires
        match t.request_extensions {
            Some(es) => {
                &&& 0 <= i < es.len()
                &&& es[i].extn_id == spec_nonce_oid()
                &&& forall|j: int| 0 <= j < i ==> (#[trigger] es[j].extn_id) != spec_nonce_oid()
            },
            None => false,
        },
    ensures
        match t.request_extensions {
            Some(es) => spec_nonce(t) == spec_parse_octets_exact(es[i].extn_value),
            None => false,
        },
{
    match t.request_extensions {
        Some(es) => lemma_scan_first_match(es, i),
        None => {},
    }
}

/// A request whose first nonce-tagged entry holds a value that is not a
/// well-formed OCTET STRING carries no nonce: observably identical to a
/// request with no nonce extension at all.
pub proof fn lemma_nonce_malformed(t: TbsRequestV, i: int)
    requires
        match t.request_extensions {
            Some(es) => {
                &&& 0 <= i < es.len()
                &&& es[i].extn_id == spec_nonce_oid()
                &&& forall|j: int| 0 <= j < i ==> (#[trigger] es[j].extn_id) != spec_nonce_oid()
                &&& spec_parse_octets_exact(es[i].extn_value) is None
            },
            None => false,
        },
    ensures
        spec_nonce(t) is None,
{
    lemma_nonce_first_match(t, i);
}

} // verus!
