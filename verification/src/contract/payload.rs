//! The canonical byte encoding of the library's values: every field in
//! declaration order, integers big-endian, each variant behind a tag byte,
//! and every byte string, text and sequence behind its length. A package's
//! fingerprint and a layout's shape fingerprint are digests of it.
use vstd::prelude::*;

use super::canonical::{be32, be64, push_be32, push_be64, push_bytes};
use super::identity::text_bytes;
use vstd::utf8::encode_utf8;

verus! {

/// A value with a canonical byte encoding.
pub trait Canonical: Sized {
    spec fn canonical(&self) -> Seq<u8>;

    /// Appends the canonical encoding of `self`.
    fn write_canonical(&self, out: &mut Vec<u8>)
        ensures
            final(out)@ == old(out)@ + self.canonical(),
    ;
}

/// Appending `next` after `start + done` is appending `done + next` after `start`.
pub proof fn lemma_extend(start: Seq<u8>, done: Seq<u8>, next: Seq<u8>)
    ensures
        (start + done) + next == start + (done + next),
{
    assert((start + done) + next =~= start + (done + next));
}

/// The encodings of the items of `s`, one after another.
pub open spec fn items_canonical<T: Canonical>(s: Seq<T>) -> Seq<u8>
    decreases s.len(),
{
    if s.len() == 0 {
        Seq::empty()
    } else {
        items_canonical(s.drop_last()) + s.last().canonical()
    }
}

/// A sequence: its length, then its items.
pub open spec fn seq_canonical<T: Canonical>(s: Seq<T>) -> Seq<u8> {
    be64(s.len() as u64) + items_canonical(s)
}

/// Appends the encoding of a sequence.
pub fn write_items<T: Canonical>(items: &[T], out: &mut Vec<u8>)
    ensures
        final(out)@ == old(out)@ + seq_canonical(items@),
{
    let ghost start = out@;
    push_be64(out, items.len() as u64);
    let mut i: usize = 0;
    while i < items.len()
        invariant
            i <= items@.len(),
            out@ == start + be64(items@.len() as u64) + items_canonical(items@.take(i as int)),
        decreases items@.len() - i,
    {
        let ghost before = out@;
        items[i].write_canonical(out);
        proof {
            assert(items@.take(i + 1).drop_last() =~= items@.take(i as int));
            assert(items@.take(i + 1).last() == items@[i as int]);
            assert(out@ =~= start + be64(items@.len() as u64) + items_canonical(items@.take(i + 1)));
        }
        i = i + 1;
    }
    proof {
        assert(items@.take(items@.len() as int) =~= items@);
    }
}

impl Canonical for u8 {
    open spec fn canonical(&self) -> Seq<u8> {
        seq![*self]
    }

    fn write_canonical(&self, out: &mut Vec<u8>) {
        out.push(*self);
    }
}

impl Canonical for bool {
    open spec fn canonical(&self) -> Seq<u8> {
        seq![if *self { 1u8 } else { 0u8 }]
    }

    fn write_canonical(&self, out: &mut Vec<u8>) {
        out.push(if *self { 1u8 } else { 0u8 });
    }
}

impl Canonical for u16 {
    open spec fn canonical(&self) -> Seq<u8> {
        seq![(*self >> 8u16) as u8, (*self & 0xffu16) as u8]
    }

    fn write_canonical(&self, out: &mut Vec<u8>) {
        out.push((*self >> 8u16) as u8);
        out.push((*self & 0xffu16) as u8);
    }
}

impl Canonical for u32 {
    open spec fn canonical(&self) -> Seq<u8> {
        be32(*self)
    }

    fn write_canonical(&self, out: &mut Vec<u8>) {
        push_be32(out, *self);
    }
}

impl Canonical for i32 {
    open spec fn canonical(&self) -> Seq<u8> {
        be32(*self as u32)
    }

    fn write_canonical(&self, out: &mut Vec<u8>) {
        push_be32(out, *self as u32);
    }
}

impl Canonical for u64 {
    open spec fn canonical(&self) -> Seq<u8> {
        be64(*self)
    }

    fn write_canonical(&self, out: &mut Vec<u8>) {
        push_be64(out, *self);
    }
}

impl Canonical for u128 {
    open spec fn canonical(&self) -> Seq<u8> {
        be64((*self >> 64u128) as u64) + be64(*self as u64)
    }

    fn write_canonical(&self, out: &mut Vec<u8>) {
        push_be64(out, (*self >> 64u128) as u64);
        push_be64(out, *self as u64);
    }
}

impl Canonical for i128 {
    open spec fn canonical(&self) -> Seq<u8> {
        be64(((*self as u128) >> 64u128) as u64) + be64((*self as u128) as u64)
    }

    fn write_canonical(&self, out: &mut Vec<u8>) {
        let v = *self as u128;
        push_be64(out, (v >> 64u128) as u64);
        push_be64(out, v as u64);
    }
}

impl Canonical for String {
    open spec fn canonical(&self) -> Seq<u8> {
        be64(encode_utf8(self@).len() as u64) + encode_utf8(self@)
    }

    fn write_canonical(&self, out: &mut Vec<u8>) {
        let bytes = text_bytes(self.as_str());
        push_be64(out, bytes.len() as u64);
        push_bytes(out, bytes.as_slice());
    }
}

impl Canonical for [u8; 32] {
    open spec fn canonical(&self) -> Seq<u8> {
        self@
    }

    fn write_canonical(&self, out: &mut Vec<u8>) {
        push_bytes(out, self.as_slice());
    }
}

impl<T: Canonical> Canonical for Vec<T> {
    open spec fn canonical(&self) -> Seq<u8> {
        seq_canonical(self@)
    }

    fn write_canonical(&self, out: &mut Vec<u8>) {
        write_items(self.as_slice(), out);
    }
}

impl<T: Canonical> Canonical for Option<T> {
    open spec fn canonical(&self) -> Seq<u8> {
        match self {
            None => seq![0u8],
            Some(x) => seq![1u8] + x.canonical(),
        }
    }

    fn write_canonical(&self, out: &mut Vec<u8>) {
        match self {
            None => out.push(0u8),
            Some(x) => {
                out.push(1u8);
                x.write_canonical(out);
            },
        }
    }
}

} // verus!
