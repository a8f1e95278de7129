//! The canonical byte encoding that block headers are hashed over.
//!
//! Integers are eight little-endian bytes, byte strings and lists carry their
//! length in front, optional values a one-byte tag.
use vstd::prelude::*;

verus! {

pub open spec fn enc_u64(x: u64) -> Seq<u8> {
    seq![
        (x & 0xff) as u8,
        ((x >> 8u64) & 0xff) as u8,
        ((x >> 16u64) & 0xff) as u8,
        ((x >> 24u64) & 0xff) as u8,
        ((x >> 32u64) & 0xff) as u8,
        ((x >> 40u64) & 0xff) as u8,
        ((x >> 48u64) & 0xff) as u8,
        ((x >> 56u64) & 0xff) as u8,
    ]
}

pub open spec fn enc_bytes(b: Seq<u8>) -> Seq<u8> {
    enc_u64(b.len() as u64) + b
}

pub open spec fn enc_bool(b: bool) -> Seq<u8> {
    if b {
        seq![1u8]
    } else {
        seq![0u8]
    }
}

pub open spec fn enc_opt(o: Option<Seq<u8>>) -> Seq<u8> {
    match o {
        Some(b) => seq![1u8] + enc_bytes(b),
        None => seq![0u8],
    }
}

/// The items of a list of byte strings, each with its length.
pub open spec fn enc_items(l: Seq<Seq<u8>>) -> Seq<u8>
    decreases l.len(),
{
    if l.len() == 0 {
        Seq::empty()
    } else {
        enc_items(l.drop_last()) + enc_bytes(l.last())
    }
}

pub open spec fn enc_list(l: Seq<Seq<u8>>) -> Seq<u8> {
    enc_u64(l.len() as u64) + enc_items(l)
}

pub fn put_u64(out: &mut Vec<u8>, x: u64)
    ensures
        final(out)@ == old(out)@ + enc_u64(x),
{
    out.push((x & 0xff) as u8);
    out.push(((x >> 8u64) & 0xff) as u8);
    out.push(((x >> 16u64) & 0xff) as u8);
    out.push(((x >> 24u64) & 0xff) as u8);
    out.push(((x >> 32u64) & 0xff) as u8);
    out.push(((x >> 40u64) & 0xff) as u8);
    out.push(((x >> 48u64) & 0xff) as u8);
    out.push(((x >> 56u64) & 0xff) as u8);
    assert(final(out)@ =~= old(out)@ + enc_u64(x));
}

pub fn put_bytes(out: &mut Vec<u8>, b: &Vec<u8>)
    ensures
        final(out)@ == old(out)@ + enc_bytes(b@),
{
    put_u64(out, b.len() as u64);
    let ghost mid = out@;
    let mut i: usize = 0;
    while i < b.len()
        invariant
            i <= b@.len(),
            out@ == mid + b@.take(i as int),
        decreases b.len() - i,
    {
        out.push(b[i]);
        i += 1;
        assert(out@ =~= mid + b@.take(i as int));
    }
    assert(b@.take(b@.len() as int) =~= b@);
    assert(out@ =~= old(out)@ + enc_bytes(b@));
}

pub fn put_bool(out: &mut Vec<u8>, b: bool)
    ensures
        final(out)@ == old(out)@ + enc_bool(b),
{
    out.push(if b { 1u8 } else { 0u8 });
    assert(final(out)@ =~= old(out)@ + enc_bool(b));
}

pub fn put_opt(out: &mut Vec<u8>, o: &Option<Vec<u8>>)
    ensures
        final(out)@ == old(out)@ + enc_opt(match o {
            Some(b) => Some(b@),
            None => None,
        }),
{
    match o {
        Some(b) => {
            out.push(1u8);
            let ghost mid = out@;
            put_bytes(out, b);
            assert(out@ =~= old(out)@ + (seq![1u8] + enc_bytes(b@)));
        },
        None => {
            out.push(0u8);
            assert(out@ =~= old(out)@ + seq![0u8]);
        },
    }
}

pub fn put_list(out: &mut Vec<u8>, l: &Vec<Vec<u8>>)
    ensures
        final(out)@ == old(out)@ + enc_list(crate::common::views_of(l@)),
{
    let ghost lv = crate::common::views_of(l@);
    put_u64(out, l.len() as u64);
    let ghost mid = out@;
    let mut i: usize = 0;
    while i < l.len()
        invariant
            lv == crate::common::views_of(l@),
            i <= l@.len(),
            out@ == mid + enc_items(lv.take(i as int)),
        decreases l.len() - i,
    {
        assert(lv.take(i + 1).drop_last() =~= lv.take(i as int));
        put_bytes(out, &l[i]);
        i += 1;
        assert(out@ =~= mid + enc_items(lv.take(i as int)));
    }
    assert(lv.take(l@.len() as int) =~= lv);
    assert(out@ =~= old(out)@ + enc_list(lv));
}

} // verus!
