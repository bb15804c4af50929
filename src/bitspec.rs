//! Fixed-width fields packed end to end in a line of bytes, most significant
//! bit first within each byte.
use vstd::arithmetic::div_mod::{lemma_div_denominator, lemma_fundamental_div_mod};
use vstd::arithmetic::power2::{lemma2_to64, lemma_pow2_unfold, pow2};
use vstd::bits::lemma_u64_shr_is_div;
use vstd::prelude::*;

verus! {

/// Bit `i` of a line; bit 0 is the most significant bit of byte 0.
pub open spec fn bit_of(line: Seq<u8>, i: int) -> bool {
    (line[i / 8] >> ((7 - i % 8) as u8)) & 1u8 == 1u8
}

/// The number held, most significant bit first, by the `len` bits of `line`
/// starting at bit `start`.
pub open spec fn bits_value(line: Seq<u8>, start: int, len: nat) -> nat
    decreases len,
{
    if len == 0 {
        0
    } else {
        2 * bits_value(line, start, (len - 1) as nat) + if bit_of(line, start + len - 1) {
            1nat
        } else {
            0nat
        }
    }
}

/// Number of bits needed to write every integer up to `steps`.
pub open spec fn bits_needed(steps: nat) -> nat
    decreases steps,
{
    if steps == 0 {
        0
    } else {
        1 + bits_needed(steps / 2)
    }
}

proof fn lemma_bits_value_frame(a: Seq<u8>, b: Seq<u8>, start: int, len: nat)
    requires
        forall|k: int| start <= k < start + len ==> bit_of(a, k) == bit_of(b, k),
    ensures
        bits_value(a, start, len) == bits_value(b, start, len),
    decreases len,
{
    if len > 0 {
        lemma_bits_value_frame(a, b, start, (len - 1) as nat);
        assert(bit_of(a, start + len - 1) == bit_of(b, start + len - 1));
    }
}

proof fn lemma_bits_needed_bound(steps: nat)
    ensures
        steps < pow2(bits_needed(steps)),
    decreases steps,
{
    if steps > 0 {
        lemma_bits_needed_bound(steps / 2);
        lemma_pow2_unfold(bits_needed(steps / 2) + 1);
    } else {
        lemma2_to64();
    }
}

proof fn lemma_bits_needed_le(steps: nat, n: nat)
    requires
        steps < pow2(n),
    ensures
        bits_needed(steps) <= n,
    decreases n,
{
    if steps > 0 {
        if n == 0 {
            lemma2_to64();
        } else {
            lemma_pow2_unfold(n);
            lemma_bits_needed_le(steps / 2, (n - 1) as nat);
        }
    }
}

/// Sets bit `i` of `line` to `b`, leaving every other bit as it was.
fn set_bit(line: &mut Vec<u8>, i: u32, b: bool)
    requires
        (i as int) < 8 * old(line)@.len(),
    ensures
        final(line)@.len() == old(line)@.len(),
        bit_of(final(line)@, i as int) == b,
        forall|k: int|
            0 <= k < 8 * old(line)@.len() && k != i ==> bit_of(final(line)@, k) == bit_of(
                old(line)@,
                k,
            ),
{
    let idx = (i / 8) as usize;
    let sh = (7 - i % 8) as u8;
    let byte = line[idx];
    let mask: u8 = 1u8 << sh;
    let nb = if b {
        byte | mask
    } else {
        byte & !mask
    };
    line.set(idx, nb);
    proof {
        assert(((nb >> sh) & 1u8 == 1u8) == b) by (bit_vector)
            requires
                sh < 8,
                mask == 1u8 << sh,
                nb == (if b {
                    byte | mask
                } else {
                    byte & !mask
                }),
        ;
        assert forall|k: int|
            0 <= k < 8 * old(line)@.len() && k != i implies bit_of(line@, k) == bit_of(
                old(line)@,
                k,
            ) by {
            if k / 8 == idx as int {
                let sh2 = (7 - k % 8) as u8;
                assert(sh2 != sh);
                assert((nb >> sh2) & 1u8 == (byte >> sh2) & 1u8) by (bit_vector)
                    requires
                        sh < 8,
                        sh2 < 8,
                        sh2 != sh,
                        mask == 1u8 << sh,
                        nb == (if b {
                            byte | mask
                        } else {
                            byte & !mask
                        }),
                ;
            }
        }
    }
}

/// Reads the `len` bits starting at bit `start`.
pub fn read_bits(line: &Vec<u8>, start: u32, len: u8) -> (q: u64)
    requires
        start as int + len as int <= u32::MAX,
        len <= 64,
        start + len <= 8 * line@.len(),
    ensures
        q as nat == bits_value(line@, start as int, len as nat),
{
    let mut q: u64 = 0;
    proof {
        lemma2_to64();
    }
    for j in 0..len
        invariant
            len <= 64,
            start as int + len as int <= u32::MAX,
            start + len <= 8 * line@.len(),
            q as nat == bits_value(line@, start as int, j as nat),
            q < pow2(j as nat),
            pow2(64) == 0x1_0000_0000_0000_0000,
    {
        let i = start + j as u32;
        let sh = (7 - i % 8) as u8;
        let byte = line[(i / 8) as usize];
        let bit = (byte >> sh) & 1u8;
        proof {
            lemma_pow2_unfold((j + 1) as nat);
            assert(bit <= 1) by (bit_vector)
                requires
                    bit == (byte >> sh) & 1u8,
            ;
            if j + 1 < 64 {
                vstd::arithmetic::power2::lemma_pow2_strictly_increases((j + 1) as nat, 64);
            }
        }
        q = q * 2 + bit as u64;
    }
    q
}

/// Writes the `len` low bits of `q` at bit `start`, most significant first.
pub fn write_bits(line: &mut Vec<u8>, start: u32, len: u8, q: u64)
    requires
        start as int + len as int <= u32::MAX,
        len <= 64,
        start + len <= 8 * old(line)@.len(),
        (q as nat) < pow2(len as nat),
    ensures
        final(line)@.len() == old(line)@.len(),
        bits_value(final(line)@, start as int, len as nat) == q,
        forall|k: int|
            0 <= k < 8 * old(line)@.len() && !(start <= k < start + len) ==> bit_of(
                final(line)@,
                k,
            ) == bit_of(old(line)@, k),
{
    proof {
        vstd::arithmetic::power2::lemma_pow2_pos(len as nat);
        vstd::arithmetic::div_mod::lemma_basic_div(q as int, pow2(len as nat) as int);
    }
    for j in 0..len
        invariant
            len <= 64,
            start as int + len as int <= u32::MAX,
            start + len <= 8 * old(line)@.len(),
            line@.len() == old(line)@.len(),
            (q as nat) < pow2(len as nat),
            bits_value(line@, start as int, j as nat) == q as nat / pow2((len - j) as nat),
            forall|k: int|
                0 <= k < 8 * old(line)@.len() && !(start <= k < start + j) ==> bit_of(line@, k)
                    == bit_of(old(line)@, k),
    {
        let shift = (len - 1 - j) as u64;
        let x = q >> shift;
        let bit = x & 1u64 == 1u64;
        let ghost before = line@;
        set_bit(line, start + j as u32, bit);
        proof {
            lemma_u64_shr_is_div(q, shift);
            lemma_bits_value_frame(line@, before, start as int, j as nat);
            let p = pow2(shift as nat);
            vstd::arithmetic::power2::lemma_pow2_pos(shift as nat);
            lemma_pow2_unfold((shift + 1) as nat);
            lemma_div_denominator(q as int, p as int, 2);
            assert((len - j) as nat == (shift + 1) as nat);
            assert(x & 1u64 == x % 2) by (bit_vector);
            lemma_fundamental_div_mod(x as int, 2);
            assert(bits_value(line@, start as int, (j + 1) as nat) == 2 * bits_value(
                line@,
                start as int,
                j as nat,
            ) + if bit_of(line@, start + j) {
                1nat
            } else {
                0nat
            });
        }
    }
    proof {
        lemma2_to64();
    }
}

/// A value range `[lo, hi]` and the smallest step worth keeping, all in
/// thousandths of the reading's unit.
#[derive(Clone, Copy, Debug, PartialEq, Eq, Structural)]
pub struct RangeWithRes {
    pub lo: i64,
    pub hi: i64,
    pub resolution: u32,
}

impl RangeWithRes {
    pub open spec fn wf(self) -> bool {
        self.lo <= self.hi && self.resolution > 0
    }

    /// Number of resolution steps between `lo` and `hi`, rounded up.
    pub open spec fn steps(self) -> nat {
        ((self.hi - self.lo + self.resolution - 1) / (self.resolution as int)) as nat
    }
}

/// The bit width a range needs and how to map values onto it.
#[derive(Clone, Copy, Debug, PartialEq, Eq, Structural)]
pub struct LengthWithOps {
    pub length: u8,
    pub lo: i64,
    pub hi: i64,
    pub resolution: u32,
}

/// `round((hi - lo) / resolution)`: the step count a value at the top of
/// the range is stored as.
pub open spec fn top_steps(lo: i64, hi: i64, resolution: u32) -> int {
    (hi - lo + resolution / 2) / (resolution as int)
}

impl LengthWithOps {
    pub fn from_range(range: RangeWithRes) -> (r: LengthWithOps)
        requires
            range.wf(),
        ensures
            r.length as nat == bits_needed(range.steps()),
            r.length <= 64,
            r.lo == range.lo,
            r.hi == range.hi,
            r.resolution == range.resolution,
            top_steps(r.lo, r.hi, r.resolution) < pow2(r.length as nat),
    {
        let span = (range.hi as i128 - range.lo as i128) as u128;
        let res = range.resolution as u128;
        let steps = (span + res - 1) / res;
        let mut s = steps;
        let mut w: u8 = 0;
        proof {
            lemma_bits_needed_bound(steps as nat);
            lemma2_to64();
            let x = (span + res - 1) as int;
            lemma_fundamental_div_mod(x, res as int);
            let m = x % (res as int);
            assert(steps <= span) by (nonlinear_arith)
                requires
                    x == res * steps + m,
                    0 <= m < res,
                    res >= 1,
                    span >= 0,
                    x == span + res - 1,
            ;
            lemma_bits_needed_le(steps as nat, 64);
            vstd::arithmetic::div_mod::lemma_div_is_ordered(
                (span + res / 2) as int,
                (span + res - 1) as int,
                res as int,
            );
        }
        while s > 0
            invariant
                w as nat + bits_needed(s as nat) == bits_needed(steps as nat),
                bits_needed(steps as nat) <= 64,
            decreases s,
        {
            s = s / 2;
            w = w + 1;
        }
        LengthWithOps { length: w, lo: range.lo, hi: range.hi, resolution: range.resolution }
    }
}

/// Where a value sits in a line and how it is quantized: `offset` and
/// `length` in bits; the range `[lo, hi]` and `resolution` in thousandths of
/// the unit. Values outside the range are stored as its nearest end.
#[derive(Clone, Copy, Debug, PartialEq, Eq, Structural)]
pub struct Field {
    pub offset: u32,
    pub length: u8,
    pub lo: i64,
    pub hi: i64,
    pub resolution: u32,
}

impl Field {
    /// The field can hold every value of its range.
    pub open spec fn wf(self) -> bool {
        &&& self.length <= 64
        &&& self.resolution > 0
        &&& self.offset as int + self.length as int <= u32::MAX
        &&& self.lo <= self.hi
        &&& top_steps(self.lo, self.hi, self.resolution) <= self.max_q()
    }

    /// Whether the field lies within a line of `n` bytes.
    pub open spec fn fits(self, n: nat) -> bool {
        self.offset + self.length <= 8 * n
    }

    pub open spec fn max_q(self) -> nat {
        (pow2(self.length as nat) - 1) as nat
    }

    /// `v` clamped to `[lo, hi]`.
    pub open spec fn clamp(self, v: int) -> int {
        if v < self.lo {
            self.lo as int
        } else if v > self.hi {
            self.hi as int
        } else {
            v
        }
    }

    /// `round((clamp(v) - lo) / resolution)`.
    pub open spec fn quantize(self, v: int) -> nat {
        ((self.clamp(v) - self.lo + self.resolution / 2) / (self.resolution as int)) as nat
    }

    pub open spec fn dequantize(self, q: nat) -> int {
        self.lo + q * self.resolution
    }

    /// Writes `value` (thousandths of the unit) into this field of `line`,
    /// leaving all other bits alone.
    pub fn encode(&self, value: i64, line: &mut Vec<u8>)
        requires
            self.wf(),
            self.fits(old(line)@.len()),
        ensures
            final(line)@.len() == old(line)@.len(),
            bits_value(final(line)@, self.offset as int, self.length as nat) == self.quantize(
                value as int,
            ),
            forall|k: int|
                0 <= k < 8 * old(line)@.len() && !(self.offset <= k < self.offset
                    + self.length) ==> bit_of(final(line)@, k) == bit_of(old(line)@, k),
    {
        let v = if value < self.lo {
            self.lo
        } else if value > self.hi {
            self.hi
        } else {
            value
        };
        let d = (v as i128 - self.lo as i128) as u128;
        let top = (self.hi as i128 - self.lo as i128) as u128;
        let res = self.resolution as u128;
        let q128 = (d + res / 2) / res;
        proof {
            lemma2_to64();
            vstd::arithmetic::power2::lemma_pow2_pos(self.length as nat);
            vstd::arithmetic::power2::lemma_pow2_strictly_increases(self.length as nat, 65);
            vstd::arithmetic::power2::lemma_pow2_unfold(65);
            vstd::arithmetic::div_mod::lemma_div_is_ordered(
                (d + res / 2) as int,
                (top + res / 2) as int,
                res as int,
            );
            if self.length < 64 {
                vstd::arithmetic::power2::lemma_pow2_strictly_increases(self.length as nat, 64);
            }
        }
        let q = q128 as u64;
        write_bits(line, self.offset, self.length, q);
    }

    /// Reads this field of `line` back, in thousandths of the unit.
    pub fn decode(&self, line: &Vec<u8>) -> (r: i128)
        requires
            self.wf(),
            self.fits(line@.len()),
        ensures
            r == self.dequantize(bits_value(line@, self.offset as int, self.length as nat)),
    {
        let q = read_bits(line, self.offset, self.length);
        proof {
            assert(q as int * self.resolution as int <= u64::MAX as int * u32::MAX as int)
                by (nonlinear_arith);
        }
        self.lo as i128 + q as i128 * self.resolution as i128
    }
}

/// A value written into a field reads back as its quantized value, and
/// the other fields of the line keep theirs.
pub proof fn lemma_field_round_trip(f: Field, g: Field, before: Seq<u8>, after: Seq<u8>, v: int)
    requires
        f.wf(),
        g.wf(),
        f.fits(before.len()),
        g.fits(before.len()),
        after.len() == before.len(),
        bits_value(after, f.offset as int, f.length as nat) == f.quantize(v),
        forall|k: int|
            0 <= k < 8 * before.len() && !(f.offset <= k < f.offset + f.length) ==> bit_of(
                after,
                k,
            ) == bit_of(before, k),
        g.offset + g.length <= f.offset || f.offset + f.length <= g.offset,
    ensures
        f.dequantize(bits_value(after, f.offset as int, f.length as nat)) == f.dequantize(
            f.quantize(v),
        ),
        bits_value(after, g.offset as int, g.length as nat) == bits_value(
            before,
            g.offset as int,
            g.length as nat,
        ),
{
    lemma_bits_value_frame(after, before, g.offset as int, g.length as nat);
}

/// Total width of a list of specs, in bits.
pub open spec fn total_bits(specs: Seq<LengthWithOps>) -> nat
    decreases specs.len(),
{
    if specs.len() == 0 {
        0
    } else {
        total_bits(specs.drop_last()) + specs.last().length as nat
    }
}

/// Lays the specs end to end: each field starts where the previous ends.
pub fn speclist_to_fields(specs: &Vec<LengthWithOps>) -> (r: Vec<Field>)
    requires
        total_bits(specs@) <= u32::MAX,
    ensures
        r@.len() == specs@.len(),
        forall|i: int|
            0 <= i < r@.len() ==> {
                &&& (#[trigger] r@[i]).offset == total_bits(specs@.subrange(0, i))
                &&& r@[i].length == specs@[i].length
                &&& r@[i].lo == specs@[i].lo
                &&& r@[i].hi == specs@[i].hi
                &&& r@[i].resolution == specs@[i].resolution
            },
{
    let mut r: Vec<Field> = Vec::new();
    let mut offset: u32 = 0;
    for i in 0..specs.len()
        invariant
            total_bits(specs@) <= u32::MAX,
            r@.len() == i,
            offset == total_bits(specs@.subrange(0, i as int)),
            forall|j: int|
                0 <= j < i ==> {
                    &&& (#[trigger] r@[j]).offset == total_bits(specs@.subrange(0, j))
                    &&& r@[j].length == specs@[j].length
                    &&& r@[j].lo == specs@[j].lo
                    &&& r@[j].hi == specs@[j].hi
                    &&& r@[j].resolution == specs@[j].resolution
                },
    {
        let s = specs[i];
        r.push(Field { offset, length: s.length, lo: s.lo, hi: s.hi, resolution: s.resolution });
        proof {
            assert(specs@.subrange(0, i + 1).drop_last() =~= specs@.subrange(0, i as int));
            lemma_total_bits_prefix(specs@, i + 1);
        }
        offset = offset + s.length as u32;
    }
    r
}

proof fn lemma_total_bits_prefix(s: Seq<LengthWithOps>, n: int)
    requires
        0 <= n <= s.len(),
    ensures
        total_bits(s.subrange(0, n)) <= total_bits(s),
    decreases s.len() - n,
{
    if n < s.len() {
        lemma_total_bits_prefix(s, n + 1);
        assert(s.subrange(0, n + 1).drop_last() =~= s.subrange(0, n));
    } else {
        assert(s.subrange(0, n) =~= s);
    }
}

/// A list of specs no longer than 64 bits each is at most 64 bits per spec.
pub proof fn lemma_total_bits_bound(s: Seq<LengthWithOps>)
    requires
        forall|i: int| 0 <= i < s.len() ==> (#[trigger] s[i]).length <= 64,
    ensures
        total_bits(s) <= 64 * s.len(),
    decreases s.len(),
{
    if s.len() > 0 {
        assert(s.last().length <= 64);
        lemma_total_bits_bound(s.drop_last());
    }
}

/// The fields of a list lie one after the other, within the total width.
pub proof fn lemma_fields_ordered(s: Seq<LengthWithOps>, i: int, j: int)
    requires
        0 <= i < j <= s.len(),
    ensures
        total_bits(s.subrange(0, i)) + s[i].length <= total_bits(s.subrange(0, j)),
    decreases j - i,
{
    assert(s.subrange(0, i + 1).drop_last() =~= s.subrange(0, i));
    if j > i + 1 {
        lemma_fields_ordered(s, i + 1, j);
        assert(s.subrange(0, i + 2).drop_last() =~= s.subrange(0, i + 1));
        lemma_fields_ordered_step(s, i + 1, j);
    }
}

proof fn lemma_fields_ordered_step(s: Seq<LengthWithOps>, i: int, j: int)
    requires
        0 <= i <= j <= s.len(),
    ensures
        total_bits(s.subrange(0, i)) <= total_bits(s.subrange(0, j)),
    decreases j - i,
{
    if j > i {
        lemma_fields_ordered_step(s, i, j - 1);
        assert(s.subrange(0, j).drop_last() =~= s.subrange(0, j - 1));
    }
}

} // verus!
