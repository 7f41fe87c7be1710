//! A cursor over one 16-bit word that hands out consecutive bit fields,
//! most significant first.

use vstd::arithmetic::div_mod::{lemma_div_denominator, lemma_mod_breakdown, lemma_small_mod};
use vstd::arithmetic::power2::{lemma2_to64, lemma_pow2_adds, lemma_pow2_pos, lemma_pow2_strictly_increases, pow2};
use vstd::bits::{low_bits_mask, lemma_u32_low_bits_mask_is_mod, lemma_u32_shl_is_mul, lemma_u32_shr_is_div};
use vstd::prelude::*;

verus! {

/// The `width` bits of `word` whose lowest bit sits at position `low`, as an
/// unsigned number. Position 0 is the least significant bit.
pub open spec fn bit_field(word: u16, low: nat, width: nat) -> u16 {
    ((word as nat / pow2(low)) % pow2(width)) as u16
}

/// Sum of the first `count` widths.
pub open spec fn widths_total(widths: Seq<nat>, count: nat) -> nat
    decreases count,
{
    if count == 0 || count > widths.len() {
        0
    } else {
        widths_total(widths, (count - 1) as nat) + widths[count - 1]
    }
}

/// What successive reads of the given widths return from a reader that
/// still holds `remaining` unread bits of `word`.
pub open spec fn read_sequence(word: u16, remaining: nat, widths: Seq<nat>) -> Seq<u16>
    decreases widths.len(),
{
    if widths.len() == 0 {
        Seq::empty()
    } else {
        let rest = (remaining - widths[0]) as nat;
        seq![bit_field(word, rest, widths[0])] + read_sequence(word, rest, widths.drop_first())
    }
}

/// A bit field is always below two to the power of its width.
pub proof fn lemma_bit_field_bound(word: u16, low: nat, width: nat)
    ensures
        (bit_field(word, low, width) as nat) < pow2(width),
        bit_field(word, low, width) as nat == (word as nat / pow2(low)) % pow2(width),
{
    lemma_pow2_pos(low);
    lemma_pow2_pos(width);
    let shifted = word as nat / pow2(low);
    assert(shifted <= word as nat) by (nonlinear_arith)
        requires
            shifted == word as nat / pow2(low),
            pow2(low) > 0,
    ;
    assert(shifted % pow2(width) <= shifted) by (nonlinear_arith)
        requires
            pow2(width) > 0,
    ;
    assert(shifted % pow2(width) < pow2(width)) by (nonlinear_arith)
        requires
            pow2(width) > 0,
    ;
}

/// Two adjacent fields make up the field that spans both: the upper one
/// supplies the high bits, the lower one the low bits.
pub proof fn lemma_adjacent_fields_join(word: u16, low: nat, lower: nat, upper: nat)
    ensures
        bit_field(word, low, lower + upper) as nat == bit_field(word, low + lower, upper) as nat
            * pow2(lower) + bit_field(word, low, lower) as nat,
{
    lemma_pow2_pos(low);
    lemma_pow2_pos(lower);
    lemma_pow2_pos(upper);
    lemma_pow2_adds(lower, upper);
    lemma_pow2_adds(low, lower);
    lemma_bit_field_bound(word, low, lower + upper);
    lemma_bit_field_bound(word, low + lower, upper);
    lemma_bit_field_bound(word, low, lower);
    let shifted = word as nat / pow2(low);
    lemma_mod_breakdown(shifted as int, pow2(lower) as int, pow2(upper) as int);
    lemma_div_denominator(word as int, pow2(low) as int, pow2(lower) as int);
    assert(shifted / pow2(lower) == word as nat / pow2(low + lower));
    assert(pow2(lower) * ((shifted / pow2(lower)) % pow2(upper)) == ((shifted / pow2(lower))
        % pow2(upper)) * pow2(lower)) by (nonlinear_arith);
}

/// A field that starts at the least significant bit is the remainder of the
/// word modulo two to the power of its width: the low-order bits.
pub proof fn lemma_lowest_field_is_remainder(word: u16, width: nat)
    ensures
        bit_field(word, 0, width) as nat == word as nat % pow2(width),
{
    lemma2_to64();
    lemma_bit_field_bound(word, 0, width);
}

/// The field that spans the whole word is the word.
pub proof fn lemma_whole_word_field(word: u16)
    ensures
        bit_field(word, 0, 16) == word,
{
    lemma2_to64();
    lemma_small_mod(word as nat, pow2(16));
}

/// Reading fields of the given widths in order, from a fresh reader, returns
/// for each width the slice of the word that lies directly below the slices
/// read before it, starting from the most significant bit.
pub proof fn lemma_reads_return_consecutive_slices(word: u16, widths: Seq<nat>, i: int)
    requires
        widths_total(widths, widths.len()) <= 16,
        0 <= i < widths.len(),
    ensures
        read_sequence(word, 16, widths).len() == widths.len(),
        widths_total(widths, (i + 1) as nat) <= 16,
        read_sequence(word, 16, widths)[i] == bit_field(
            word,
            (16 - widths_total(widths, (i + 1) as nat)) as nat,
            widths[i],
        ),
{
    lemma_read_sequence_from(word, 16, widths, i);
}

/// The same statement for a reader that has `remaining` bits left.
pub proof fn lemma_read_sequence_from(word: u16, remaining: nat, widths: Seq<nat>, i: int)
    requires
        widths_total(widths, widths.len()) <= remaining,
        0 <= i < widths.len(),
    ensures
        read_sequence(word, remaining, widths).len() == widths.len(),
        widths_total(widths, (i + 1) as nat) <= remaining,
        read_sequence(word, remaining, widths)[i] == bit_field(
            word,
            (remaining - widths_total(widths, (i + 1) as nat)) as nat,
            widths[i],
        ),
    decreases widths.len(),
{
    lemma_read_sequence_len(word, remaining, widths);
    lemma_widths_total_monotone(widths, (i + 1) as nat, widths.len());
    let tail = widths.drop_first();
    let rest = (remaining - widths[0]) as nat;
    lemma_widths_total_monotone(widths, 1, widths.len());
    assert(widths_total(widths, 1) == widths_total(widths, 0) + widths[0]);
    if i > 0 {
        lemma_widths_total_drop_first(widths, widths.len());
        lemma_widths_total_drop_first(widths, (i + 1) as nat);
        lemma_read_sequence_from(word, rest, tail, i - 1);
    }
}

proof fn lemma_read_sequence_len(word: u16, remaining: nat, widths: Seq<nat>)
    ensures
        read_sequence(word, remaining, widths).len() == widths.len(),
    decreases widths.len(),
{
    if widths.len() > 0 {
        lemma_read_sequence_len(word, (remaining - widths[0]) as nat, widths.drop_first());
    }
}

proof fn lemma_widths_total_monotone(widths: Seq<nat>, a: nat, b: nat)
    requires
        a <= b <= widths.len(),
    ensures
        widths_total(widths, a) <= widths_total(widths, b),
    decreases b,
{
    if a < b {
        lemma_widths_total_monotone(widths, a, (b - 1) as nat);
    }
}

proof fn lemma_widths_total_drop_first(widths: Seq<nat>, count: nat)
    requires
        1 <= count <= widths.len(),
    ensures
        widths_total(widths, count) == widths[0] + widths_total(
            widths.drop_first(),
            (count - 1) as nat,
        ),
    decreases count,
{
    if count > 1 {
        lemma_widths_total_drop_first(widths, (count - 1) as nat);
    } else {
        assert(widths_total(widths, 0) == 0);
    }
}

/// Shifting and masking in 32 bits computes a bit field.
proof fn lemma_shift_mask_is_bit_field(word: u16, low: u16, width: u16)
    requires
        low <= 16,
        width <= 16,
    ensures
        (1u32 << (width as u32)) >= 1,
        (((word as u32) >> (low as u32)) & ((1u32 << (width as u32)) - 1) as u32) as u16
            == bit_field(word, low as nat, width as nat),
{
    lemma2_to64();
    lemma_pow2_pos(width as nat);
    if width < 16 {
        lemma_pow2_strictly_increases(width as nat, 16);
    }
    lemma_u32_shr_is_div(word as u32, low as u32);
    lemma_u32_shl_is_mul(1u32, width as u32);
    let shifted: u32 = (word as u32) >> (low as u32);
    assert(((1u32 << (width as u32)) - 1) as u32 == low_bits_mask(width as nat) as u32);
    lemma_u32_low_bits_mask_is_mod(shifted, width as nat);
    lemma_bit_field_bound(word, low as nat, width as nat);
}

/// A reader over one instruction word.
pub struct BitReader {
    val: u16,
    idx: u16,
}

impl BitReader {
    #[verifier::type_invariant]
    spec fn in_range(self) -> bool {
        self.idx <= 16
    }

    /// The word that is being read.
    pub closed spec fn word(self) -> u16 {
        self.val
    }

    /// How many bits have not been read yet.
    pub closed spec fn remaining(self) -> nat {
        self.idx as nat
    }

    /// A reader positioned before the most significant bit of `val`.
    pub fn new(val: u16) -> (reader: Self)
        ensures
            reader.word() == val,
            reader.remaining() == 16,
    {
        Self { val, idx: 16 }
    }

    /// Returns the next `bits` bits as an unsigned number and moves past them.
    pub fn read(&mut self, bits: u16) -> (out: u16)
        requires
            bits <= old(self).remaining(),
        ensures
            final(self).word() == old(self).word(),
            final(self).remaining() == old(self).remaining() - bits,
            out == bit_field(old(self).word(), final(self).remaining(), bits as nat),
            (out as nat) < pow2(bits as nat),
    {
        proof {
            use_type_invariant(&*self);
        }
        let low: u16 = self.idx - bits;
        self.idx = low;
        proof {
            lemma_shift_mask_is_bit_field(self.val, low, bits);
            lemma_bit_field_bound(self.val, low as nat, bits as nat);
        }
        let shifted: u32 = (self.val as u32) >> (low as u32);
        let mask: u32 = (1u32 << (bits as u32)) - 1;
        (shifted & mask) as u16
    }

    /// Returns all the bits that are left, as an unsigned number.
    pub fn read_to_end(&mut self) -> (out: u16)
        ensures
            final(self).word() == old(self).word(),
            final(self).remaining() == 0,
            out == bit_field(old(self).word(), 0, old(self).remaining()),
            (out as nat) < pow2(old(self).remaining()),
    {
        proof {
            use_type_invariant(&*self);
        }
        let bits: u16 = self.idx;
        self.read(bits)
    }

    /// Moves past the next `bits` bits.
    pub fn skip(&mut self, bits: u16)
        requires
            bits <= old(self).remaining(),
        ensures
            final(self).word() == old(self).word(),
            final(self).remaining() == old(self).remaining() - bits,
    {
        proof {
            use_type_invariant(&*self);
        }
        self.idx = self.idx - bits;
    }
}

} // verus!
