//! Typed little-endian field accessors over a record's bytes.
//!
//! Each accessor is the byte offset of a field inside a record. `get` returns
//! `None` when the record is too short to hold the field, so a truncated record
//! is an error for the caller to handle and never a panic. `put` writes the
//! field into a record that is long enough to hold it.
use vstd::arithmetic::div_mod::{lemma_div_denominator, lemma_fundamental_div_mod};
use vstd::prelude::*;

verus! {

/// `256^n`: the number of distinct values that `n` bytes can hold.
pub open spec fn byte_power(n: nat) -> nat
    decreases n,
{
    if n == 0 {
        1
    } else {
        256 * byte_power((n - 1) as nat)
    }
}

/// The unsigned number that `b` encodes, least significant byte first.
pub open spec fn le_value(b: Seq<u8>) -> nat
    decreases b.len(),
{
    if b.len() == 0 {
        0
    } else {
        b[0] as nat + 256 * le_value(b.drop_first())
    }
}

/// The `n` bytes that encode `v` modulo `256^n`, least significant byte first.
pub open spec fn le_bytes(v: nat, n: nat) -> Seq<u8> {
    Seq::new(n, |i: int| ((v / byte_power(i as nat)) % 256) as u8)
}

/// The bytes `rec[off .. off + len]`.
pub open spec fn window(rec: Seq<u8>, off: int, len: int) -> Seq<u8> {
    rec.subrange(off, off + len)
}

/// `rec` with the bytes from `off` on overwritten by `b`; its length is unchanged.
pub open spec fn splice(rec: Seq<u8>, off: int, b: Seq<u8>) -> Seq<u8> {
    rec.take(off) + b + rec.skip(off + b.len())
}

/// The two's-complement reading of a 64-bit pattern.
pub open spec fn signed64(u: nat) -> int {
    if u < 0x8000_0000_0000_0000 {
        u as int
    } else {
        u - 0x1_0000_0000_0000_0000
    }
}

/// The 64-bit pattern of a signed value in two's complement.
pub open spec fn unsigned64(v: int) -> nat {
    if v >= 0 {
        v as nat
    } else {
        (v + 0x1_0000_0000_0000_0000) as nat
    }
}

/// The field at `off` of width `len` fits in a record of `rec_len` bytes.
pub open spec fn fits(off: int, len: int, rec_len: int) -> bool {
    off + len <= rec_len
}

pub proof fn lemma_byte_power_facts(n: nat)
    ensures
        byte_power(n) > 0,
        n <= 7 ==> byte_power(n) <= 0x100_0000_0000_0000,
        byte_power(8) == 0x1_0000_0000_0000_0000,
        byte_power(2) == 0x1_0000,
        byte_power(4) == 0x1_0000_0000,
    decreases n,
{
    reveal_with_fuel(byte_power, 9);
    if n > 0 {
        lemma_byte_power_facts((n - 1) as nat);
    }
}

pub proof fn lemma_le_value_bound(b: Seq<u8>)
    ensures
        le_value(b) < byte_power(b.len()),
    decreases b.len(),
{
    if b.len() > 0 {
        lemma_le_value_bound(b.drop_first());
    }
}

/// Decoding the encoding of a value that fits gives the value back.
pub proof fn lemma_le_roundtrip(v: nat, n: nat)
    requires
        v < byte_power(n),
    ensures
        le_value(le_bytes(v, n)) == v,
    decreases n,
{
    if n == 0 {
    } else {
        let b = le_bytes(v, n);
        let q = v / 256;
        assert forall|i: int| 0 <= i < (n - 1) as int implies #[trigger] b.drop_first()[i]
            == le_bytes(q, (n - 1) as nat)[i] by {
            lemma_byte_power_facts(i as nat);
            lemma_div_denominator(v as int, 256, byte_power(i as nat) as int);
            assert(byte_power((i + 1) as nat) == 256 * byte_power(i as nat));
        }
        assert(b.drop_first() =~= le_bytes(q, (n - 1) as nat));
        lemma_fundamental_div_mod(v as int, 256);
        lemma_byte_power_facts((n - 1) as nat);
        assert(q < byte_power((n - 1) as nat));
        lemma_le_roundtrip(q, (n - 1) as nat);
        assert(byte_power(0) == 1);
        assert(v / 1 == v);
        assert(b[0] == (v % 256) as u8);
    }
}

/// Reading back a window that was just written gives what was written, and a
/// window that does not overlap the written bytes is left as it was.
pub proof fn lemma_splice_window(rec: Seq<u8>, off: int, b: Seq<u8>, off2: int, len2: int)
    requires
        0 <= off,
        off + b.len() <= rec.len(),
        0 <= off2,
        0 <= len2,
        off2 + len2 <= rec.len(),
    ensures
        splice(rec, off, b).len() == rec.len(),
        window(splice(rec, off, b), off, b.len() as int) == b,
        off2 + len2 <= off || off + b.len() <= off2 ==> window(splice(rec, off, b), off2, len2)
            == window(rec, off2, len2),
{
    assert(window(splice(rec, off, b), off, b.len() as int) =~= b);
    if off2 + len2 <= off || off + b.len() <= off2 {
        assert(window(splice(rec, off, b), off2, len2) =~= window(rec, off2, len2));
    }
}

/// Reads `n` bytes from `off` as an unsigned little-endian number.
fn read_le(rec: &[u8], off: usize, n: usize) -> (r: u64)
    requires
        n <= 8,
        off + n <= rec@.len(),
    ensures
        r == le_value(window(rec@, off as int, n as int)),
{
    let len = rec.len();
    let mut acc: u64 = 0;
    let mut i: usize = n;
    assert(window(rec@, off + n, 0) =~= Seq::<u8>::empty());
    while i > 0
        invariant
            i <= n <= 8,
            off + n <= rec@.len(),
            len == rec@.len(),
            acc == le_value(window(rec@, off + i, (n - i) as int)),
        decreases i,
    {
        proof {
            lemma_le_value_bound(window(rec@, off + i, (n - i) as int));
            lemma_byte_power_facts((n - i) as nat);
            assert(window(rec@, off + i - 1, (n - i + 1) as int).drop_first() =~= window(
                rec@,
                off + i,
                (n - i) as int,
            ));
        }
        let b = rec[off + i - 1];
        acc = acc * 256 + b as u64;
        i = i - 1;
    }
    acc
}

/// Writes the `n` low bytes of `v` at `off`, least significant first.
fn write_le(rec: &mut [u8], off: usize, n: usize, v: u64)
    requires
        n <= 8,
        off + n <= old(rec)@.len(),
    ensures
        final(rec)@ == splice(old(rec)@, off as int, le_bytes(v as nat, n as nat)),
{
    let ghost orig = rec@;
    let ghost bytes = le_bytes(v as nat, n as nat);
    let len = rec.len();
    let mut rest: u64 = v;
    let mut i: usize = 0;
    proof {
        lemma_byte_power_facts(0);
    }
    while i < n
        invariant
            i <= n <= 8,
            off + n <= orig.len(),
            rec@.len() == orig.len(),
            len == orig.len(),
            bytes == le_bytes(v as nat, n as nat),
            rest == v as nat / byte_power(i as nat),
            forall|j: int| 0 <= j < off ==> rec@[j] == orig[j],
            forall|j: int| off + i <= j < orig.len() ==> rec@[j] == orig[j],
            forall|j: int| 0 <= j < i ==> rec@[off + j] == bytes[j],
        decreases n - i,
    {
        rec[off + i] = (rest % 256) as u8;
        proof {
            lemma_byte_power_facts(i as nat);
            lemma_div_denominator(v as int, byte_power(i as nat) as int, 256);
            assert(byte_power((i + 1) as nat) == 256 * byte_power(i as nat));
            assert(byte_power(i as nat) * 256 == 256 * byte_power(i as nat)) by (nonlinear_arith);
        }
        rest = rest / 256;
        i = i + 1;
    }
    assert(rec@ =~= splice(orig, off as int, bytes));
}

/// An unsigned 16-bit field at a byte offset.
#[derive(Debug, Clone, Copy, PartialEq, Eq, Structural)]
pub struct U16(pub usize);

impl U16 {
    /// Width of the field in bytes.
    pub const LEN: usize = 2;

    /// The field's value in `rec`, or `None` if `rec` is too short.
    pub open spec fn read_in(self, rec: Seq<u8>) -> Option<u16> {
        if fits(self.0 as int, 2, rec.len() as int) {
            Some(le_value(window(rec, self.0 as int, 2)) as u16)
        } else {
            None
        }
    }

    /// `rec` after the field is set to `v`.
    pub open spec fn written_in(self, rec: Seq<u8>, v: u16) -> Seq<u8> {
        splice(rec, self.0 as int, le_bytes(v as nat, 2))
    }

    pub fn get(self, rec: &[u8]) -> (r: Option<u16>)
        ensures
            r == self.read_in(rec@),
    {
        if self.0 <= rec.len() && 2 <= rec.len() - self.0 {
            proof {
                lemma_le_value_bound(window(rec@, self.0 as int, 2));
                lemma_byte_power_facts(2);
            }
            let v = read_le(rec, self.0, 2);
            Some(v as u16)
        } else {
            None
        }
    }

    pub fn put(self, rec: &mut [u8], v: u16)
        requires
            fits(self.0 as int, 2, old(rec)@.len() as int),
        ensures
            final(rec)@ == self.written_in(old(rec)@, v),
    {
        write_le(rec, self.0, 2, v as u64);
    }

    /// A read of the field after a write of `v` gives `v`.
    pub proof fn lemma_put_get(self, rec: Seq<u8>, v: u16)
        requires
            fits(self.0 as int, 2, rec.len() as int),
        ensures
            self.read_in(self.written_in(rec, v)) == Some(v),
    {
        lemma_byte_power_facts(2);
        lemma_le_roundtrip(v as nat, 2);
        lemma_splice_window(rec, self.0 as int, le_bytes(v as nat, 2), 0, 0);
    }
}

/// An unsigned 32-bit field at a byte offset.
#[derive(Debug, Clone, Copy, PartialEq, Eq, Structural)]
pub struct U32(pub usize);

impl U32 {
    /// Width of the field in bytes.
    pub const LEN: usize = 4;

    /// The field's value in `rec`, or `None` if `rec` is too short.
    pub open spec fn read_in(self, rec: Seq<u8>) -> Option<u32> {
        if fits(self.0 as int, 4, rec.len() as int) {
            Some(le_value(window(rec, self.0 as int, 4)) as u32)
        } else {
            None
        }
    }

    /// `rec` after the field is set to `v`.
    pub open spec fn written_in(self, rec: Seq<u8>, v: u32) -> Seq<u8> {
        splice(rec, self.0 as int, le_bytes(v as nat, 4))
    }

    pub fn get(self, rec: &[u8]) -> (r: Option<u32>)
        ensures
            r == self.read_in(rec@),
    {
        if self.0 <= rec.len() && 4 <= rec.len() - self.0 {
            proof {
                lemma_le_value_bound(window(rec@, self.0 as int, 4));
                lemma_byte_power_facts(4);
            }
            let v = read_le(rec, self.0, 4);
            Some(v as u32)
        } else {
            None
        }
    }

    pub fn put(self, rec: &mut [u8], v: u32)
        requires
            fits(self.0 as int, 4, old(rec)@.len() as int),
        ensures
            final(rec)@ == self.written_in(old(rec)@, v),
    {
        write_le(rec, self.0, 4, v as u64);
    }

    /// A read of the field after a write of `v` gives `v`.
    pub proof fn lemma_put_get(self, rec: Seq<u8>, v: u32)
        requires
            fits(self.0 as int, 4, rec.len() as int),
        ensures
            self.read_in(self.written_in(rec, v)) == Some(v),
    {
        lemma_byte_power_facts(4);
        lemma_le_roundtrip(v as nat, 4);
        lemma_splice_window(rec, self.0 as int, le_bytes(v as nat, 4), 0, 0);
    }
}

/// An unsigned 64-bit field at a byte offset.
#[derive(Debug, Clone, Copy, PartialEq, Eq, Structural)]
pub struct U64(pub usize);

impl U64 {
    /// Width of the field in bytes.
    pub const LEN: usize = 8;

    /// The field's value in `rec`, or `None` if `rec` is too short.
    pub open spec fn read_in(self, rec: Seq<u8>) -> Option<u64> {
        if fits(self.0 as int, 8, rec.len() as int) {
            Some(le_value(window(rec, self.0 as int, 8)) as u64)
        } else {
            None
        }
    }

    /// `rec` after the field is set to `v`.
    pub open spec fn written_in(self, rec: Seq<u8>, v: u64) -> Seq<u8> {
        splice(rec, self.0 as int, le_bytes(v as nat, 8))
    }

    pub fn get(self, rec: &[u8]) -> (r: Option<u64>)
        ensures
            r == self.read_in(rec@),
    {
        if self.0 <= rec.len() && 8 <= rec.len() - self.0 {
            let v = read_le(rec, self.0, 8);
            Some(v)
        } else {
            None
        }
    }

    pub fn put(self, rec: &mut [u8], v: u64)
        requires
            fits(self.0 as int, 8, old(rec)@.len() as int),
        ensures
            final(rec)@ == self.written_in(old(rec)@, v),
    {
        write_le(rec, self.0, 8, v);
    }

    /// A read of the field after a write of `v` gives `v`.
    pub proof fn lemma_put_get(self, rec: Seq<u8>, v: u64)
        requires
            fits(self.0 as int, 8, rec.len() as int),
        ensures
            self.read_in(self.written_in(rec, v)) == Some(v),
    {
        lemma_byte_power_facts(8);
        lemma_le_roundtrip(v as nat, 8);
        lemma_splice_window(rec, self.0 as int, le_bytes(v as nat, 8), 0, 0);
    }
}

/// A signed 64-bit field (two's complement) at a byte offset.
#[derive(Debug, Clone, Copy, PartialEq, Eq, Structural)]
pub struct I64(pub usize);

proof fn lemma_signed_cast(u: u64)
    ensures
        (u as i64) as int == signed64(u as nat),
{
    assert(u < 0x8000_0000_0000_0000u64 ==> (u as i64) as int == u as int) by (bit_vector);
    assert(u >= 0x8000_0000_0000_0000u64 ==> (u as i64) as int == u as int - 0x1_0000_0000_0000_0000)
        by (bit_vector);
}

proof fn lemma_unsigned_cast(v: i64)
    ensures
        (v as u64) as nat == unsigned64(v as int),
        signed64(unsigned64(v as int)) == v,
{
    assert(v >= 0 ==> (v as u64) as int == v as int) by (bit_vector);
    assert(v < 0 ==> (v as u64) as int == v as int + 0x1_0000_0000_0000_0000) by (bit_vector);
}

impl I64 {
    /// Width of the field in bytes.
    pub const LEN: usize = 8;

    /// The field's value in `rec`, or `None` if `rec` is too short.
    pub open spec fn read_in(self, rec: Seq<u8>) -> Option<i64> {
        if fits(self.0 as int, 8, rec.len() as int) {
            Some(signed64(le_value(window(rec, self.0 as int, 8))) as i64)
        } else {
            None
        }
    }

    /// `rec` after the field is set to `v`.
    pub open spec fn written_in(self, rec: Seq<u8>, v: i64) -> Seq<u8> {
        splice(rec, self.0 as int, le_bytes(unsigned64(v as int), 8))
    }

    pub fn get(self, rec: &[u8]) -> (r: Option<i64>)
        ensures
            r == self.read_in(rec@),
    {
        if self.0 <= rec.len() && 8 <= rec.len() - self.0 {
            let u = read_le(rec, self.0, 8);
            proof {
                lemma_signed_cast(u);
            }
            Some(u as i64)
        } else {
            None
        }
    }

    pub fn put(self, rec: &mut [u8], v: i64)
        requires
            fits(self.0 as int, 8, old(rec)@.len() as int),
        ensures
            final(rec)@ == self.written_in(old(rec)@, v),
    {
        proof {
            lemma_unsigned_cast(v);
        }
        write_le(rec, self.0, 8, v as u64);
    }

    /// A read of the field after a write of `v` gives `v`.
    pub proof fn lemma_put_get(self, rec: Seq<u8>, v: i64)
        requires
            fits(self.0 as int, 8, rec.len() as int),
        ensures
            self.read_in(self.written_in(rec, v)) == Some(v),
    {
        lemma_byte_power_facts(8);
        lemma_unsigned_cast(v);
        lemma_le_roundtrip(unsigned64(v as int), 8);
        lemma_splice_window(rec, self.0 as int, le_bytes(unsigned64(v as int), 8), 0, 0);
    }
}

/// A field of `N` raw bytes at a byte offset.
#[derive(Debug, Clone, Copy, PartialEq, Eq)]
pub struct Bytes<const N: usize>(pub usize);

impl<const N: usize> Bytes<N> {

    /// The field's bytes in `rec`, or `None` if `rec` is too short.
    pub open spec fn read_in(self, rec: Seq<u8>) -> Option<Seq<u8>> {
        if fits(self.0 as int, N as int, rec.len() as int) {
            Some(window(rec, self.0 as int, N as int))
        } else {
            None
        }
    }

    /// `rec` after the field is set to `v`.
    pub open spec fn written_in(self, rec: Seq<u8>, v: Seq<u8>) -> Seq<u8> {
        splice(rec, self.0 as int, v)
    }

    pub fn get(self, rec: &[u8]) -> (r: Option<[u8; N]>)
        ensures
            r is Some <==> self.read_in(rec@) is Some,
            r matches Some(a) ==> Some(a@) == self.read_in(rec@),
    {
        if self.0 <= rec.len() && N <= rec.len() - self.0 {
            let mut a: [u8; N] = vstd::array::array_fill_for_copy_types::<u8, N>(0u8);
            let len = rec.len();
            let mut i: usize = 0;
            while i < N
                invariant
                    i <= N,
                    self.0 + N <= rec@.len(),
                    len == rec@.len(),
                    a@.len() == N,
                    forall|j: int| 0 <= j < i ==> a@[j] == rec@[self.0 + j],
                decreases N - i,
            {
                a[i] = rec[self.0 + i];
                i = i + 1;
            }
            assert(a@ =~= window(rec@, self.0 as int, N as int));
            Some(a)
        } else {
            None
        }
    }

    pub fn put(self, rec: &mut [u8], v: &[u8; N])
        requires
            fits(self.0 as int, N as int, old(rec)@.len() as int),
        ensures
            final(rec)@ == self.written_in(old(rec)@, v@),
    {
        let ghost orig = rec@;
        let len = rec.len();
        let mut i: usize = 0;
        while i < N
            invariant
                i <= N,
                len == orig.len(),
                v@.len() == N,
                self.0 + N <= orig.len(),
                rec@.len() == orig.len(),
                forall|j: int| 0 <= j < self.0 ==> rec@[j] == orig[j],
                forall|j: int| self.0 + i <= j < orig.len() ==> rec@[j] == orig[j],
                forall|j: int| 0 <= j < i ==> rec@[self.0 + j] == v@[j],
            decreases N - i,
        {
            rec[self.0 + i] = v[i];
            i = i + 1;
        }
        assert(rec@ =~= splice(orig, self.0 as int, v@));
    }

    /// A read of the field after a write of `v` gives `v`.
    pub proof fn lemma_put_get(self, rec: Seq<u8>, v: Seq<u8>)
        requires
            fits(self.0 as int, N as int, rec.len() as int),
            v.len() == N,
        ensures
            self.read_in(self.written_in(rec, v)) == Some(v),
    {
        lemma_splice_window(rec, self.0 as int, v, 0, 0);
    }
}

/// Writing one field leaves every field that does not overlap it unchanged.
pub proof fn lemma_put_keeps_disjoint(rec: Seq<u8>, off: int, b: Seq<u8>, off2: int, len2: int)
    requires
        0 <= off,
        off + b.len() <= rec.len(),
        0 <= off2,
        0 <= len2,
        off2 + len2 <= rec.len(),
        off2 + len2 <= off || off + b.len() <= off2,
    ensures
        window(splice(rec, off, b), off2, len2) == window(rec, off2, len2),
{
    lemma_splice_window(rec, off, b, off2, len2);
}

} // verus!
