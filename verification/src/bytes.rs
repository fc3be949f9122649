//! Little-endian numbers at the front of byte sequences.

use vstd::prelude::*;

use crate::mem::{
    le_bytes, le_bytes_len, le_bytes_of_le_value, le_value, le_value_bound, le_value_of_le_bytes,
    lemma_pow256_mono, lemma_pow256_values, pow256,
};

verus! {

/// The `n`-byte number at the front, and what follows it.
pub open spec fn take_le(b: Seq<u8>, n: nat) -> Option<(nat, Seq<u8>)> {
    if b.len() >= n {
        Some((le_value(b.subrange(0, n as int)), b.skip(n as int)))
    } else {
        None
    }
}

/// The bytes at the front, and what follows them.
pub open spec fn take_bytes(b: Seq<u8>, n: nat) -> Option<(Seq<u8>, Seq<u8>)> {
    if b.len() >= n {
        Some((b.subrange(0, n as int), b.skip(n as int)))
    } else {
        None
    }
}

/// What was written at the front is read from there.
pub proof fn take_le_of_le_bytes(v: nat, n: nat, rest: Seq<u8>)
    requires
        v < pow256(n),
    ensures
        take_le(le_bytes(v, n) + rest, n) == Some((v, rest)),
{
    le_bytes_len(v, n);
    le_value_of_le_bytes(v, n);
    let b = le_bytes(v, n) + rest;
    assert(b.subrange(0, n as int) =~= le_bytes(v, n));
    assert(b.skip(n as int) =~= rest);
}

/// What was read from the front is written there.
pub proof fn le_bytes_of_take_le(b: Seq<u8>, n: nat)
    requires
        b.len() >= n,
    ensures
        ({
            let (v, rest) = take_le(b, n)->0;
            b == le_bytes(v, n) + rest && v < pow256(n)
        }),
{
    let front = b.subrange(0, n as int);
    le_bytes_of_le_value(front);
    le_value_bound(front);
    assert(b =~= front + b.skip(n as int));
}

/// The bytes that were put in front are taken from there.
pub proof fn take_bytes_of_concat(front: Seq<u8>, rest: Seq<u8>)
    ensures
        take_bytes(front + rest, front.len()) == Some((front, rest)),
{
    assert((front + rest).subrange(0, front.len() as int) =~= front);
    assert((front + rest).skip(front.len() as int) =~= rest);
}

/// Append the `n` low bytes of a number.
pub fn push_le(out: &mut Vec<u8>, v: u128, n: usize)
    ensures
        final(out)@ == old(out)@ + le_bytes(v as nat, n as nat),
{
    let mut left: u128 = v;
    let mut k: usize = 0;
    let ghost start = out@;
    proof {
        assert(start + le_bytes(v as nat, n as nat) =~= out@ + le_bytes(left as nat, n as nat));
    }
    while k < n
        invariant
            k <= n,
            start + le_bytes(v as nat, n as nat) == out@ + le_bytes(left as nat, (n - k) as nat),
        decreases n - k,
    {
        let byte: u8 = (left % 256) as u8;
        let ghost before = out@;
        out.push(byte);
        proof {
            let rest = le_bytes((left / 256) as nat, (n - k - 1) as nat);
            assert(before + le_bytes(left as nat, (n - k) as nat) =~= out@ + rest);
        }
        left = left / 256;
        k += 1;
    }
    assert(out@ + le_bytes(left as nat, 0) =~= out@);
}

/// Append bytes.
pub fn push_bytes(out: &mut Vec<u8>, bytes: &[u8])
    ensures
        final(out)@ == old(out)@ + bytes@,
{
    let ghost start = out@;
    let mut k: usize = 0;
    assert(start + bytes@.subrange(0, 0) =~= start);
    while k < bytes.len()
        invariant
            k <= bytes@.len(),
            out@ == start + bytes@.subrange(0, k as int),
        decreases bytes@.len() - k,
    {
        out.push(bytes[k]);
        assert(bytes@.subrange(0, k + 1) =~= bytes@.subrange(0, k as int).push(bytes@[k as int]));
        assert(start + bytes@.subrange(0, k + 1) =~= (start + bytes@.subrange(0, k as int)).push(
            bytes@[k as int],
        ));
        k += 1;
    }
    assert(bytes@.subrange(0, k as int) =~= bytes@);
}

/// A position in a byte slice.
pub struct Cursor<'a> {
    bytes: &'a [u8],
    pos: usize,
}

impl<'a> View for Cursor<'a> {
    type V = Seq<u8>;

    /// What is still to be read.
    closed spec fn view(&self) -> Seq<u8> {
        self.bytes@.skip(self.pos as int)
    }
}

impl<'a> Cursor<'a> {
    pub closed spec fn wf(&self) -> bool {
        self.pos <= self.bytes@.len()
    }

    pub fn new(bytes: &'a [u8]) -> (r: Self)
        ensures
            r.wf(),
            r@ == bytes@,
    {
        let r = Cursor { bytes, pos: 0 };
        assert(r@ =~= bytes@);
        r
    }

    /// How much is still to be read.
    pub fn remaining(&self) -> (r: usize)
        requires
            self.wf(),
        ensures
            r == self@.len(),
    {
        self.bytes.len() - self.pos
    }

    /// The next `n`-byte number; None where too little is left.
    pub fn number(&mut self, n: usize) -> (r: Option<u128>)
        requires
            old(self).wf(),
            n <= 16,
        ensures
            final(self).wf(),
            match take_le(old(self)@, n as nat) {
                Some((v, rest)) => r == Some(v as u128) && v < pow256(n as nat) && v <= u128::MAX
                    && final(self)@ == rest,
                None => r is None && final(self)@ == old(self)@,
            },
    {
        if n > self.bytes.len() - self.pos {
            return None;
        }
        let ghost before = self@;
        let ghost front = before.subrange(0, n as int);
        let start: usize = self.pos;
        let end: usize = start + n;
        let mut k: usize = n;
        let mut v: u128 = 0;
        assert(front.subrange(n as int, n as int) =~= Seq::<u8>::empty());
        while k > 0
            invariant
                k <= n <= 16,
                end == start + n <= self.bytes@.len(),
                before == self.bytes@.skip(start as int),
                front == before.subrange(0, n as int),
                v == le_value(front.subrange(k as int, n as int)),
            decreases k,
        {
            let ghost rest = front.subrange(k as int, n as int);
            proof {
                assert(front.subrange(k - 1, n as int).drop_first() =~= rest);
                le_value_bound(rest);
                lemma_pow256_mono(rest.len(), 15);
                lemma_pow256_15();
            }
            k -= 1;
            v = v * 256 + self.bytes[start + k] as u128;
        }
        assert(front.subrange(0, n as int) =~= front);
        proof {
            le_value_bound(front);
        }
        self.pos = end;
        assert(self@ =~= before.skip(n as int));
        Some(v)
    }

    /// The next `n` bytes; None where too little is left.
    pub fn take(&mut self, n: usize) -> (r: Option<Vec<u8>>)
        requires
            old(self).wf(),
        ensures
            final(self).wf(),
            match take_bytes(old(self)@, n as nat) {
                Some((v, rest)) => r is Some && r->0@ == v && final(self)@ == rest,
                None => r is None && final(self)@ == old(self)@,
            },
    {
        if n > self.bytes.len() - self.pos {
            return None;
        }
        let ghost before = self@;
        let mut out: Vec<u8> = Vec::new();
        push_bytes(
            &mut out,
            vstd::slice::slice_subrange(self.bytes, self.pos, self.pos + n),
        );
        self.pos = self.pos + n;
        assert(out@ =~= before.subrange(0, n as int));
        assert(self@ =~= before.skip(n as int));
        Some(out)
    }
}

proof fn lemma_pow256_15()
    ensures
        pow256(15) == 0x1_00000000_00000000_00000000_000000,
        pow256(16) == 0x1_00000000_00000000_00000000_00000000,
        pow256(8) == 0x1_0000_0000_0000_0000,
        pow256(4) == 0x1_0000_0000,
        pow256(2) == 0x1_0000,
{
    lemma_pow256_values();
    reveal_with_fuel(pow256, 17);
}

} // verus!
