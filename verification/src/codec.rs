//! Generic DER primitives: canonical length octets and tag-length-value
//! framing, as specification functions, executable readers and writers,
//! and the lemmas that tie the two directions together.

use vstd::prelude::*;

verus! {

/// Largest content length the codec supports: what fits in four length
/// octets. A canonical DER length beyond that is refused by the decoder
/// and excluded by well-formedness on the encoder side.
pub const MAX_CONTENT_LEN: usize = 0xFFFF_FFFF;

/// Canonical DER length octets for a content length `n`: the short form
/// below 128, else the long form with the minimal number of big-endian
/// octets. Lengths beyond `MAX_CONTENT_LEN` are out of the supported
/// range; well-formed values never reach them.
pub open spec fn spec_der_len(n: nat) -> Seq<u8> {
    if n < 0x80 {
        seq![n as u8]
    } else if n < 0x100 {
        seq![0x81u8, n as u8]
    } else if n < 0x1_0000 {
        seq![0x82u8, (n / 0x100) as u8, (n % 0x100) as u8]
    } else if n < 0x100_0000 {
        seq![0x83u8, (n / 0x1_0000) as u8, ((n / 0x100) % 0x100) as u8, (n % 0x100) as u8]
    } else if n < 0x1_0000_0000 {
        seq![
            0x84u8,
            (n / 0x100_0000) as u8,
            ((n / 0x1_0000) % 0x100) as u8,
            ((n / 0x100) % 0x100) as u8,
            (n % 0x100) as u8,
        ]
    } else {
        Seq::empty()
    }
}

/// Parses canonical DER length octets from the front of `b`, giving the
/// length value and the number of octets consumed. Rejects the indefinite
/// form, non-minimal encodings, and more than four length octets.
pub open spec fn spec_parse_len(b: Seq<u8>) -> Option<(nat, nat)> {
    if b.len() < 1 {
        None
    } else if b[0] < 0x80 {
        Some((b[0] as nat, 1))
    } else if b[0] == 0x81 {
        if b.len() >= 2 && b[1] >= 0x80 {
            Some((b[1] as nat, 2))
        } else {
            None
        }
    } else if b[0] == 0x82 {
        if b.len() >= 3 && b[1] != 0 {
            Some(((b[1] as nat) * 0x100 + b[2] as nat, 3))
        } else {
            None
        }
    } else if b[0] == 0x83 {
        if b.len() >= 4 && b[1] != 0 {
            Some(((b[1] as nat) * 0x1_0000 + (b[2] as nat) * 0x100 + b[3] as nat, 4))
        } else {
            None
        }
    } else if b[0] == 0x84 {
        if b.len() >= 5 && b[1] != 0 {
            Some((
                (b[1] as nat) * 0x100_0000 + (b[2] as nat) * 0x1_0000 + (b[3] as nat) * 0x100
                    + b[4] as nat,
                5,
            ))
        } else {
            None
        }
    } else {
        None
    }
}

/// One DER tag-length-value unit: tag octet, canonical length octets,
/// then the content octets.
pub open spec fn spec_tlv(tag: u8, content: Seq<u8>) -> Seq<u8> {
    seq![tag] + spec_der_len(content.len() as nat) + content
}

/// Parses one tag-length-value unit from the front of `b`, giving the
/// tag, the content octets, and the number of octets consumed.
pub open spec fn spec_parse_tlv(b: Seq<u8>) -> Option<(u8, Seq<u8>, nat)> {
    if b.len() < 1 {
        None
    } else {
        match spec_parse_len(b.skip(1)) {
            Some((n, k)) => {
                if b.len() >= 1 + k + n {
                    Some((b[0], b.subrange(1 + k as int, 1 + k as int + n as int), 1 + k + n))
                } else {
                    None
                }
            },
            None => None,
        }
    }
}

/// `b` is exactly one tag-length-value unit, with nothing after it.
pub open spec fn whole_tlv(b: Seq<u8>) -> bool {
    match spec_parse_tlv(b) {
        Some((tag, content, k)) => k == b.len(),
        None => false,
    }
}

/// Parsing the canonical length octets gives back the length they were
/// made from, whatever follows them.
pub proof fn lemma_parse_der_len(n: nat, rest: Seq<u8>)
    requires
        n <= MAX_CONTENT_LEN,
    ensures
        spec_parse_len(spec_der_len(n) + rest) == Some((n, spec_der_len(n).len())),
        1 <= spec_der_len(n).len() <= 5,
{
    let d = spec_der_len(n);
    let b = d + rest;
    if n < 0x80 {
        assert(b[0] == n as u8);
    } else if n < 0x100 {
        assert(b[0] == 0x81u8 && b[1] == n as u8);
    } else if n < 0x1_0000 {
        let q = n / 0x100;
        let r = n % 0x100;
        assert(q * 0x100 + r == n && q < 0x100 && r < 0x100 && q >= 1) by (nonlinear_arith)
            requires 0x100 <= n < 0x1_0000, q == n / 0x100, r == n % 0x100;
        assert(b[0] == 0x82u8 && b[1] == q as u8 && b[2] == r as u8);
        assert((b[1] as nat) * 0x100 + b[2] as nat == n);
    } else if n < 0x100_0000 {
        let q2 = n / 0x1_0000;
        let q1 = (n / 0x100) % 0x100;
        let r = n % 0x100;
        assert(q2 * 0x1_0000 + q1 * 0x100 + r == n && q2 < 0x100 && q1 < 0x100 && r < 0x100
            && q2 >= 1) by (nonlinear_arith)
            requires 0x1_0000 <= n < 0x100_0000, q2 == n / 0x1_0000, q1 == (n / 0x100) % 0x100,
                r == n % 0x100;
        assert(b[0] == 0x83u8 && b[1] == q2 as u8 && b[2] == q1 as u8 && b[3] == r as u8);
        assert((b[1] as nat) * 0x1_0000 + (b[2] as nat) * 0x100 + b[3] as nat == n);
    } else {
        let q3 = n / 0x100_0000;
        let q2 = (n / 0x1_0000) % 0x100;
        let q1 = (n / 0x100) % 0x100;
        let r = n % 0x100;
        assert(q3 * 0x100_0000 + q2 * 0x1_0000 + q1 * 0x100 + r == n && q3 < 0x100 && q2 < 0x100
            && q1 < 0x100 && r < 0x100 && q3 >= 1) by (nonlinear_arith)
            requires 0x100_0000 <= n < 0x1_0000_0000, q3 == n / 0x100_0000,
                q2 == (n / 0x1_0000) % 0x100, q1 == (n / 0x100) % 0x100, r == n % 0x100;
        assert(b[0] == 0x84u8 && b[1] == q3 as u8 && b[2] == q2 as u8 && b[3] == q1 as u8
            && b[4] == r as u8);
        assert((b[1] as nat) * 0x100_0000 + (b[2] as nat) * 0x1_0000 + (b[3] as nat) * 0x100
            + b[4] as nat == n);
    }
}

/// The length octets that the parser accepts are exactly the canonical
/// ones: what was consumed re-encodes to the same octets.
pub proof fn lemma_parse_len_canonical(b: Seq<u8>)
    ensures
        match spec_parse_len(b) {
            Some((n, k)) => {
                &&& 1 <= k <= b.len()
                &&& n <= MAX_CONTENT_LEN
                &&& b.take(k as int) == spec_der_len(n)
            },
            None => true,
        },
{
    match spec_parse_len(b) {
        Some((n, k)) => {
            if b[0] < 0x80 {
                assert(b.take(1) =~= spec_der_len(n));
            } else if b[0] == 0x81 {
                assert(b.take(2) =~= spec_der_len(n));
            } else if b[0] == 0x82 {
                let n_ = (b[1] as nat) * 0x100 + b[2] as nat;
                assert(n_ / 0x100 == b[1] as nat && n_ % 0x100 == b[2] as nat && 0x100 <= n_
                    < 0x1_0000) by (nonlinear_arith)
                    requires n_ == (b[1] as nat) * 0x100 + b[2] as nat, 1 <= (b[1] as nat) < 0x100,
                        (b[2] as nat) < 0x100;
                assert(b.take(3) =~= spec_der_len(n));
            } else if b[0] == 0x83 {
                let n_ = (b[1] as nat) * 0x1_0000 + (b[2] as nat) * 0x100 + b[3] as nat;
                assert(n_ / 0x1_0000 == b[1] as nat && (n_ / 0x100) % 0x100 == b[2] as nat
                    && n_ % 0x100 == b[3] as nat && 0x1_0000 <= n_ < 0x100_0000)
                    by (nonlinear_arith)
                    requires n_ == (b[1] as nat) * 0x1_0000 + (b[2] as nat) * 0x100 + b[3] as nat,
                        1 <= (b[1] as nat) < 0x100, (b[2] as nat) < 0x100, (b[3] as nat) < 0x100;
                assert(b.take(4) =~= spec_der_len(n));
            } else {
                let n_ = (b[1] as nat) * 0x100_0000 + (b[2] as nat) * 0x1_0000 + (b[3] as nat)
                    * 0x100 + b[4] as nat;
                assert(n_ / 0x100_0000 == b[1] as nat && (n_ / 0x1_0000) % 0x100 == b[2] as nat
                    && (n_ / 0x100) % 0x100 == b[3] as nat && n_ % 0x100 == b[4] as nat
                    && 0x100_0000 <= n_ < 0x1_0000_0000) by (nonlinear_arith)
                    requires n_ == (b[1] as nat) * 0x100_0000 + (b[2] as nat) * 0x1_0000
                        + (b[3] as nat) * 0x100 + b[4] as nat, 1 <= (b[1] as nat) < 0x100,
                        (b[2] as nat) < 0x100, (b[3] as nat) < 0x100, (b[4] as nat) < 0x100;
                assert(b.take(5) =~= spec_der_len(n));
            }
        },
        None => {},
    }
}

/// Parsing a tag-length-value unit built from `tag` and `content` gives
/// them back, whatever follows.
pub proof fn lemma_parse_tlv_build(tag: u8, content: Seq<u8>, rest: Seq<u8>)
    requires
        content.len() <= MAX_CONTENT_LEN,
    ensures
        spec_parse_tlv(spec_tlv(tag, content) + rest) == Some((
            tag,
            content,
            spec_tlv(tag, content).len() as nat,
        )),
        spec_tlv(tag, content).len() == 1 + spec_der_len(content.len() as nat).len()
            + content.len(),
        2 <= spec_tlv(tag, content).len(),
{
    let d = spec_der_len(content.len() as nat);
    let b = spec_tlv(tag, content) + rest;
    lemma_parse_der_len(content.len() as nat, content + rest);
    assert(b.skip(1) =~= d + (content + rest));
    let k = d.len() as nat;
    let n = content.len() as nat;
    assert(spec_parse_len(b.skip(1)) == Some((n, k)));
    assert(b.len() >= 1 + k + n);
    assert(b.subrange(1 + k as int, 1 + k as int + n as int) =~= content);
    assert(b[0] == tag);
}

/// The octets that the tag-length-value parser consumes are exactly the
/// canonical encoding of what it returns.
pub proof fn lemma_parse_tlv_canonical(b: Seq<u8>)
    ensures
        match spec_parse_tlv(b) {
            Some((tag, content, k)) => {
                &&& 2 <= k <= b.len()
                &&& content.len() <= MAX_CONTENT_LEN
                &&& content.len() < k
                &&& b.take(k as int) == spec_tlv(tag, content)
                &&& b[0] == tag
            },
            None => true,
        },
{
    match spec_parse_tlv(b) {
        Some((tag, content, k)) => {
            let (n, kl) = spec_parse_len(b.skip(1)).unwrap();
            lemma_parse_len_canonical(b.skip(1));
            assert(b.skip(1).take(kl as int) =~= b.subrange(1, 1 + kl as int));
            assert(b.take(k as int) =~= seq![tag] + spec_der_len(n) + content);
        },
        None => {},
    }
}

/// Reads canonical DER length octets at `pos`, staying below `end`.
/// Returns the length value and the position after the length octets.
pub(crate) fn read_len(data: &Vec<u8>, pos: usize, end: usize) -> (r: Option<(usize, usize)>)
    requires
        pos <= end <= data@.len(),
    ensures
        match r {
            Some((n, np)) => {
                &&& pos < np <= end
                &&& n <= MAX_CONTENT_LEN
                &&& spec_parse_len(data@.subrange(pos as int, end as int)) == Some((
                    n as nat,
                    (np - pos) as nat,
                ))
            },
            None => spec_parse_len(data@.subrange(pos as int, end as int)) is None,
        },
{
    let ghost win = data@.subrange(pos as int, end as int);
    if pos >= end {
        return None;
    }
    let b0 = data[pos];
    assert(win[0] == b0);
    if b0 < 0x80 {
        Some((b0 as usize, pos + 1))
    } else if b0 == 0x81 {
        if end - pos >= 2 && data[pos + 1] >= 0x80 {
            assert(win[1] == data@[pos + 1]);
            Some((data[pos + 1] as usize, pos + 2))
        } else {
            None
        }
    } else if b0 == 0x82 {
        if end - pos >= 3 && data[pos + 1] != 0 {
            assert(win[1] == data@[pos + 1] && win[2] == data@[pos + 2]);
            let n = (data[pos + 1] as usize) * 0x100 + data[pos + 2] as usize;
            Some((n, pos + 3))
        } else {
            None
        }
    } else if b0 == 0x83 {
        if end - pos >= 4 && data[pos + 1] != 0 {
            assert(win[1] == data@[pos + 1] && win[2] == data@[pos + 2] && win[3] == data@[pos
                + 3]);
            let n = (data[pos + 1] as usize) * 0x1_0000 + (data[pos + 2] as usize) * 0x100 + data[
                pos + 3] as usize;
            Some((n, pos + 4))
        } else {
            None
        }
    } else if b0 == 0x84 {
        if end - pos >= 5 && data[pos + 1] != 0 {
            assert(win[1] == data@[pos + 1] && win[2] == data@[pos + 2] && win[3] == data@[pos + 3]
                && win[4] == data@[pos + 4]);
            let n = (data[pos + 1] as usize) * 0x100_0000 + (data[pos + 2] as usize) * 0x1_0000 + (
            data[pos + 3] as usize) * 0x100 + data[pos + 4] as usize;
            Some((n, pos + 5))
        } else {
            None
        }
    } else {
        None
    }
}

/// Appends the canonical DER length octets for `n` to `out`.
pub(crate) fn write_len(out: &mut Vec<u8>, n: usize)
    requires
        n <= MAX_CONTENT_LEN,
    ensures
        final(out)@ == old(out)@ + spec_der_len(n as nat),
{
    if n < 0x80 {
        out.push(n as u8);
        assert(out@ =~= old(out)@ + spec_der_len(n as nat));
    } else if n < 0x100 {
        out.push(0x81);
        out.push(n as u8);
        assert(out@ =~= old(out)@ + spec_der_len(n as nat));
    } else if n < 0x1_0000 {
        out.push(0x82);
        out.push((n / 0x100) as u8);
        out.push((n % 0x100) as u8);
        assert(out@ =~= old(out)@ + spec_der_len(n as nat));
    } else if n < 0x100_0000 {
        out.push(0x83);
        out.push((n / 0x1_0000) as u8);
        out.push(((n / 0x100) % 0x100) as u8);
        out.push((n % 0x100) as u8);
        assert(out@ =~= old(out)@ + spec_der_len(n as nat));
    } else {
        out.push(0x84);
        out.push((n / 0x100_0000) as u8);
        out.push(((n / 0x1_0000) % 0x100) as u8);
        out.push(((n / 0x100) % 0x100) as u8);
        out.push((n % 0x100) as u8);
        assert(out@ =~= old(out)@ + spec_der_len(n as nat));
    }
}

/// Reads one tag-length-value unit at `pos`, staying below `end`.
/// Returns the tag and the bounds of the content octets; the unit ends
/// where the content does.
pub(crate) fn read_tlv(data: &Vec<u8>, pos: usize, end: usize) -> (r: Option<(u8, usize, usize)>)
    requires
        pos <= end <= data@.len(),
    ensures
        match r {
            Some((tag, vstart, vend)) => {
                &&& pos < vstart <= vend <= end
                &&& spec_parse_tlv(data@.subrange(pos as int, end as int)) == Some((
                    tag,
                    data@.subrange(vstart as int, vend as int),
                    (vend - pos) as nat,
                ))
            },
            None => spec_parse_tlv(data@.subrange(pos as int, end as int)) is None,
        },
{
    let ghost win = data@.subrange(pos as int, end as int);
    if pos >= end {
        return None;
    }
    let tag = data[pos];
    assert(win[0] == tag);
    assert(win.skip(1) =~= data@.subrange(pos + 1, end as int));
    match read_len(data, pos + 1, end) {
        Some((n, np)) => {
            if n <= end - np {
                assert(win.len() >= 1 + (np - pos - 1) + n);
                assert(win.subrange(1 + (np - pos - 1) as int, 1 + (np - pos - 1) as int + n as int)
                    =~= data@.subrange(np as int, np + n));
                Some((tag, np, np + n))
            } else {
                None
            }
        },
        None => None,
    }
}

/// Appends `src` to `out`.
pub(crate) fn write_bytes(out: &mut Vec<u8>, src: &Vec<u8>)
    ensures
        final(out)@ == old(out)@ + src@,
{
    let mut i: usize = 0;
    while i < src.len()
        invariant
            i <= src@.len(),
            out@ == old(out)@ + src@.take(i as int),
        decreases src@.len() - i,
    {
        out.push(src[i]);
        assert(src@.take(i + 1) =~= src@.take(i as int).push(src@[i as int]));
        i = i + 1;
    }
    assert(src@.take(src@.len() as int) =~= src@);
}

/// Copies `data[from..to]` into a fresh vector.
pub(crate) fn copy_range(data: &Vec<u8>, from: usize, to: usize) -> (r: Vec<u8>)
    requires
        from <= to <= data@.len(),
    ensures
        r@ == data@.subrange(from as int, to as int),
{
    let mut r: Vec<u8> = Vec::new();
    let mut i: usize = from;
    while i < to
        invariant
            from <= i <= to <= data@.len(),
            r@ == data@.subrange(from as int, i as int),
        decreases to - i,
    {
        r.push(data[i]);
        assert(data@.subrange(from as int, i + 1) =~= data@.subrange(from as int, i as int).push(
            data@[i as int],
        ));
        i = i + 1;
    }
    r
}

} // verus!
