//! The generator of default exposure sequences.
//!
//! From a step in EV, a number of images and an order it writes the text of
//! the bracket that a camera would shoot: offsets in tenths of a stop, each
//! written over the denominator 10.

use crate::options::BracketOrder;
use crate::rational::{lemma_product_bound, ExposureValue, Rational};
use crate::sequence::{
    is_clean_token, join, lemma_fraction_is_clean, lemma_parse_of_joined, parse_sequence,
};
use crate::text::{
    is_numeral, lemma_parse_negated, lemma_parse_rendered_int, parse_int, push_int, render_int,
    render_nat,
};
use vstd::arithmetic::div_mod::{lemma_div_is_ordered, lemma_div_nonincreasing, lemma_div_pos_is_pos};
use vstd::arithmetic::mul::{
    lemma_mul_inequality, lemma_mul_nonnegative, lemma_mul_unary_negation,
};
use vstd::prelude::*;

verus! {

/// What the generator starts from.
#[derive(Debug, Clone, Copy)]
pub struct ExposureSettings {
    /// The step between two exposures, in EV.
    pub ev_step: ExposureValue,
    /// The number of images of the bracket.
    pub num_images: u32,
    /// The order of the offsets.
    pub bracket_order: BracketOrder,
}

impl Default for ExposureSettings {
    /// One stop, three images, zero first.
    fn default() -> (settings: ExposureSettings)
        ensures
            settings.ev_step@ == (Rational { num: 1, den: 1 }),
            settings.num_images == 3,
            settings.bracket_order == BracketOrder::ZeroMinusPlus,
    {
        ExposureSettings {
            ev_step: ExposureValue::from_integer(1),
            num_images: 3,
            bracket_order: BracketOrder::ZeroMinusPlus,
        }
    }
}

/// The integer nearest to `numer / denom`, for a positive `denom`; a half
/// goes away from zero.
pub open spec fn round_half_away(numer: int, denom: int) -> int {
    if numer >= 0 {
        (2 * numer + denom) / (2 * denom)
    } else {
        -((-2 * numer + denom) / (2 * denom))
    }
}

/// `x`, or the nearest 32-bit signed integer where it is none.
pub open spec fn clamp_i32(x: int) -> int {
    if x < i32::MIN {
        i32::MIN as int
    } else if x > i32::MAX {
        i32::MAX as int
    } else {
        x
    }
}

/// The offset of `index` steps in tenths of a stop, rounded to the nearest
/// tenth.
pub open spec fn offset_tenths(step: Rational, index: int) -> int {
    clamp_i32(round_half_away(index * 10 * step.num, step.den))
}

/// The text of an offset of `tenths` tenths of a stop.
pub open spec fn tenths_token(tenths: int) -> Seq<char> {
    render_int(tenths) + seq!['/', '1', '0']
}

/// The text of the offset below zero that mirrors `tenths`.
pub open spec fn minus_token(tenths: int) -> Seq<char> {
    seq!['-'] + tenths_token(tenths)
}

/// Zero first, then for each step from 1 to `pairs` the offset below zero
/// and the offset above it.
pub open spec fn zero_minus_plus_tokens(step: Rational, pairs: nat) -> Seq<Seq<char>>
    decreases pairs,
{
    if pairs == 0 {
        seq![tenths_token(0)]
    } else {
        zero_minus_plus_tokens(step, (pairs - 1) as nat).push(
            minus_token(offset_tenths(step, pairs as int)),
        ).push(tenths_token(offset_tenths(step, pairs as int)))
    }
}

/// The number of steps at position `i` of `count` offsets in ascending
/// order: the positions run from the lowest offset to the highest.
pub open spec fn ascending_index(step: Rational, count: int, i: int) -> int {
    if step.num >= 0 {
        i - (count - 1) / 2
    } else {
        (count - 1 - i) - (count - 1) / 2
    }
}

/// The offsets of `count` images, `(count - 1) / 2` of them below zero, in
/// ascending order.
pub open spec fn minus_zero_plus_offset(step: Rational, count: int, i: int) -> int {
    offset_tenths(step, ascending_index(step, count, i))
}

/// The texts of the offsets in ascending order.
pub open spec fn minus_zero_plus_tokens(step: Rational, count: nat) -> Seq<Seq<char>> {
    Seq::new(count, |i: int| tenths_token(minus_zero_plus_offset(step, count as int, i)))
}

/// The text of the generated sequence: nothing for no image, else the
/// offsets in the given order with a comma and a space between each two.
pub open spec fn generated_sequence(step: Rational, num_images: nat, order: BracketOrder) -> Seq<
    char,
> {
    if num_images == 0 {
        Seq::empty()
    } else {
        match order {
            BracketOrder::ZeroMinusPlus => join(
                zero_minus_plus_tokens(step, ((num_images - 1) / 2) as nat),
            ),
            BracketOrder::MinusZeroPlus => join(minus_zero_plus_tokens(step, num_images)),
        }
    }
}

/// A quotient of a natural number by a positive one lies between zero and
/// the number.
proof fn lemma_quotient_bounds(a: int, b: int)
    requires
        a >= 0,
        b > 0,
    ensures
        0 <= a / b <= a,
{
    lemma_div_pos_is_pos(a, b);
    lemma_div_nonincreasing(a, b);
}

/// The offset of `index` steps, in tenths of a stop.
fn offset_tenths_of(step: &ExposureValue, index: i64) -> (tenths: i32)
    requires
        -0x1_0000_0000 <= index <= 0x1_0000_0000,
    ensures
        tenths == offset_tenths(step@, index as int),
{
    let num: i128 = step.numer() as i128;
    let den: i128 = step.denom() as i128;
    let steps: i128 = (index as i128) * 10;
    proof {
        lemma_product_bound(steps as int, num as int, 0x10_0000_0000, 0x8000_0000);
    }
    let scaled: i128 = steps * num;
    let rounded: i128 = if scaled >= 0 {
        proof {
            lemma_quotient_bounds(2 * scaled + den, 2 * den);
        }
        (2 * scaled + den) / (2 * den)
    } else {
        proof {
            lemma_quotient_bounds(-2 * scaled + den, 2 * den);
        }
        -((-2 * scaled + den) / (2 * den))
    };
    if rounded < -0x8000_0000 {
        i32::MIN
    } else if rounded > 0x7fff_ffff {
        i32::MAX
    } else {
        rounded as i32
    }
}

/// Appends the text of an offset.
fn push_tenths(out: &mut String, tenths: i32)
    ensures
        final(out)@ == old(out)@ + tenths_token(tenths as int),
{
    push_int(out, tenths);
    out.push('/');
    out.push('1');
    out.push('0');
    proof {
        assert(out@ =~= old(out)@ + tenths_token(tenths as int));
    }
}

/// The text of the sequence with zero first.
fn generate_zero_minus_plus(ev_step: &ExposureValue, num_images: u32) -> (text: String)
    requires
        num_images > 0,
    ensures
        text@ == join(zero_minus_plus_tokens(ev_step@, ((num_images - 1) / 2) as nat)),
{
    let pairs: u32 = (num_images - 1) / 2;
    let mut text = String::new();
    push_tenths(&mut text, 0);
    assert(text@ =~= tenths_token(0));
    let mut k: u32 = 0;
    while k < pairs
        invariant
            k <= pairs,
            text@ == join(zero_minus_plus_tokens(ev_step@, k as nat)),
        decreases pairs - k,
    {
        k += 1;
        let tenths = offset_tenths_of(ev_step, k as i64);
        let ghost before = zero_minus_plus_tokens(ev_step@, (k - 1) as nat);
        let ghost middle = before.push(minus_token(tenths as int));
        let ghost after = middle.push(tenths_token(tenths as int));
        text.push(',');
        text.push(' ');
        text.push('-');
        push_tenths(&mut text, tenths);
        text.push(',');
        text.push(' ');
        push_tenths(&mut text, tenths);
        proof {
            lemma_zero_minus_plus_count(ev_step@, (k - 1) as nat);
            assert(middle.drop_last() =~= before);
            assert(after.drop_last() =~= middle);
            assert(join(middle) == join(before) + seq![',', ' '] + minus_token(tenths as int));
            assert(join(after) == join(middle) + seq![',', ' '] + tenths_token(tenths as int));
            assert(text@ =~= join(after));
        }
    }
    text
}

/// The sequence with zero first holds one offset and two more for each pair.
pub proof fn lemma_zero_minus_plus_count(step: Rational, pairs: nat)
    ensures
        zero_minus_plus_tokens(step, pairs).len() == 2 * pairs + 1,
    decreases pairs,
{
    if pairs > 0 {
        lemma_zero_minus_plus_count(step, (pairs - 1) as nat);
    }
}

/// The text of the sequence in ascending order.
fn generate_minus_zero_plus(ev_step: &ExposureValue, num_images: u32) -> (text: String)
    requires
        num_images > 0,
    ensures
        text@ == join(minus_zero_plus_tokens(ev_step@, num_images as nat)),
{
    let ghost tokens = minus_zero_plus_tokens(ev_step@, num_images as nat);
    let below: i64 = ((num_images - 1) / 2) as i64;
    let rising = ev_step.numer() >= 0;
    let mut text = String::new();
    let mut i: u32 = 0;
    while i < num_images
        invariant
            i <= num_images,
            below == (num_images - 1) / 2,
            rising == (ev_step@.num >= 0),
            tokens == minus_zero_plus_tokens(ev_step@, num_images as nat),
            text@ == join(tokens.take(i as int)),
        decreases num_images - i,
    {
        let index: i64 = if rising {
            i as i64 - below
        } else {
            (num_images as i64 - 1 - i as i64) - below
        };
        let tenths = offset_tenths_of(ev_step, index);
        if i > 0 {
            text.push(',');
            text.push(' ');
        }
        push_tenths(&mut text, tenths);
        proof {
            let next = tokens.take(i + 1);
            assert(next.drop_last() =~= tokens.take(i as int));
            assert(next.last() == tenths_token(tenths as int));
            assert(text@ =~= join(next));
        }
        i += 1;
    }
    proof {
        assert(tokens.take(i as int) =~= tokens);
    }
    text
}

/// Writes the default sequence for a bracket of `num_images` images, `ev_step`
/// apart.
///
/// `ZeroMinusPlus` lists zero, then for each step up to `(num_images - 1) / 2`
/// the offset below zero and the one above. `MinusZeroPlus` lists the offsets
/// of all images in ascending order. The text is empty for no image.
pub fn generate_exposure_sequence(
    ev_step: &ExposureValue,
    num_images: u32,
    order: &BracketOrder,
) -> (text: String)
    ensures
        text@ == generated_sequence(ev_step@, num_images as nat, *order),
{
    if num_images == 0 {
        return String::new();
    }
    match order {
        BracketOrder::ZeroMinusPlus => generate_zero_minus_plus(ev_step, num_images),
        BracketOrder::MinusZeroPlus => generate_minus_zero_plus(ev_step, num_images),
    }
}

/// Rounding keeps the order of two fractions with one positive denominator.
proof fn lemma_round_keeps_order(a: int, b: int, denom: int)
    requires
        a <= b,
        denom > 0,
    ensures
        round_half_away(a, denom) <= round_half_away(b, denom),
{
    if a >= 0 {
        lemma_div_is_ordered(2 * a + denom, 2 * b + denom, 2 * denom);
    } else if b < 0 {
        lemma_div_is_ordered(-2 * b + denom, -2 * a + denom, 2 * denom);
    } else {
        lemma_quotient_bounds(-2 * a + denom, 2 * denom);
        lemma_quotient_bounds(2 * b + denom, 2 * denom);
    }
}

/// More steps of a step that is not negative give no lower product, and
/// fewer steps of a negative one give no lower product.
proof fn lemma_scaled_order(low: int, high: int, num: int)
    requires
        low <= high,
    ensures
        num >= 0 ==> low * 10 * num <= high * 10 * num,
        num < 0 ==> high * 10 * num <= low * 10 * num,
{
    if num >= 0 {
        lemma_mul_inequality(low * 10, high * 10, num);
    } else {
        lemma_mul_inequality(low * 10, high * 10, -num);
        lemma_mul_unary_negation(low * 10, num);
        lemma_mul_unary_negation(high * 10, num);
    }
}

/// `MinusZeroPlus` lists its offsets in ascending order: an offset is never
/// above one that comes later.
pub proof fn lemma_minus_zero_plus_ascends(step: Rational, count: int, i: int, j: int)
    requires
        step.den > 0,
        i <= j,
    ensures
        minus_zero_plus_offset(step, count, i) <= minus_zero_plus_offset(step, count, j),
{
    let low = ascending_index(step, count, i);
    let high = ascending_index(step, count, j);
    if step.num >= 0 {
        lemma_scaled_order(low, high, step.num);
    } else {
        lemma_scaled_order(high, low, step.num);
    }
    lemma_round_keeps_order(low * 10 * step.num, high * 10 * step.num, step.den);
}

/// `MinusZeroPlus` lists the offset of every image: for each number of
/// steps from `(count - 1) / 2` below zero upwards there is a position that
/// holds its offset.
pub proof fn lemma_minus_zero_plus_is_complete(step: Rational, count: int, image: int)
    requires
        0 <= image < count,
    ensures
        exists|i: int|
            0 <= i < count && #[trigger] ascending_index(step, count, i) == image - (count - 1)
                / 2,
{
    if step.num >= 0 {
        assert(ascending_index(step, count, image) == image - (count - 1) / 2);
    } else {
        assert(ascending_index(step, count, count - 1 - image) == image - (count - 1) / 2);
    }
}

/// The offset of `tenths` tenths of a stop as a number.
pub open spec fn tenths_value(tenths: int) -> Rational {
    Rational { num: tenths, den: 10 }
}

/// The numbers of the sequence with zero first.
pub open spec fn zero_minus_plus_values(step: Rational, pairs: nat) -> Seq<Rational>
    decreases pairs,
{
    if pairs == 0 {
        seq![tenths_value(0)]
    } else {
        zero_minus_plus_values(step, (pairs - 1) as nat).push(
            tenths_value(-offset_tenths(step, pairs as int)),
        ).push(tenths_value(offset_tenths(step, pairs as int)))
    }
}

/// The numbers of the sequence in ascending order.
pub open spec fn minus_zero_plus_values(step: Rational, count: nat) -> Seq<Rational> {
    Seq::new(count, |i: int| tenths_value(minus_zero_plus_offset(step, count as int, i)))
}

/// The numbers that a generated sequence stands for.
pub open spec fn generated_values(step: Rational, num_images: nat, order: BracketOrder) -> Seq<
    Rational,
> {
    if num_images == 0 {
        Seq::empty()
    } else {
        match order {
            BracketOrder::ZeroMinusPlus => zero_minus_plus_values(
                step,
                ((num_images - 1) / 2) as nat,
            ),
            BracketOrder::MinusZeroPlus => minus_zero_plus_values(step, num_images),
        }
    }
}

/// The text `10` is the numeral of ten.
proof fn lemma_ten()
    ensures
        render_int(10) == seq!['1', '0'],
        parse_int(seq!['1', '0']) == Some(10int),
        is_numeral(seq!['1', '0']),
{
    reveal_with_fuel(render_nat, 3);
    assert(render_int(10) =~= seq!['1', '0']);
    lemma_parse_rendered_int(10);
}

/// The text of an offset is a clean token that stands for the offset.
proof fn lemma_tenths_token_is_clean(tenths: int)
    requires
        i32::MIN <= tenths <= i32::MAX,
    ensures
        is_clean_token(tenths_token(tenths), tenths_value(tenths)),
{
    lemma_ten();
    lemma_parse_rendered_int(tenths);
    lemma_fraction_is_clean(render_int(tenths), seq!['1', '0'], tenths, 10);
    assert(tenths_token(tenths) =~= render_int(tenths) + seq!['/'] + seq!['1', '0']);
}

/// The text of the offset below zero that mirrors an offset not below zero
/// is a clean token that stands for the mirrored offset.
proof fn lemma_minus_token_is_clean(tenths: int)
    requires
        0 <= tenths <= i32::MAX,
    ensures
        is_clean_token(minus_token(tenths), tenths_value(-tenths)),
{
    lemma_ten();
    lemma_parse_negated(tenths as nat);
    let above = seq!['-'] + render_nat(tenths as nat);
    lemma_fraction_is_clean(above, seq!['1', '0'], -tenths, 10);
    assert(minus_token(tenths) =~= above + seq!['/'] + seq!['1', '0']);
}

/// An offset is a 32-bit integer, and is not below zero where neither the
/// step nor the number of steps is.
proof fn lemma_offset_range(step: Rational, index: int)
    requires
        step.den > 0,
    ensures
        i32::MIN <= offset_tenths(step, index) <= i32::MAX,
        step.num >= 0 && index >= 0 ==> offset_tenths(step, index) >= 0,
{
    if step.num >= 0 && index >= 0 {
        lemma_mul_nonnegative(index * 10, step.num);
        lemma_quotient_bounds(2 * (index * 10 * step.num) + step.den, 2 * step.den);
    }
}

/// The texts of the sequence with zero first are clean tokens that stand
/// for its numbers.
proof fn lemma_zero_minus_plus_is_clean(step: Rational, pairs: nat)
    requires
        step.den > 0,
        step.num >= 0,
    ensures
        zero_minus_plus_tokens(step, pairs).len() == zero_minus_plus_values(step, pairs).len(),
        forall|i: int|
            0 <= i < zero_minus_plus_tokens(step, pairs).len() ==> is_clean_token(
                #[trigger] zero_minus_plus_tokens(step, pairs)[i],
                zero_minus_plus_values(step, pairs)[i],
            ),
    decreases pairs,
{
    let tokens = zero_minus_plus_tokens(step, pairs);
    let values = zero_minus_plus_values(step, pairs);
    if pairs == 0 {
        lemma_tenths_token_is_clean(0);
    } else {
        let tenths = offset_tenths(step, pairs as int);
        lemma_zero_minus_plus_is_clean(step, (pairs - 1) as nat);
        lemma_offset_range(step, pairs as int);
        lemma_minus_token_is_clean(tenths);
        lemma_tenths_token_is_clean(tenths);
        let before = zero_minus_plus_tokens(step, (pairs - 1) as nat);
        assert forall|i: int| 0 <= i < tokens.len() implies is_clean_token(
            #[trigger] tokens[i],
            values[i],
        ) by {
            if i < before.len() {
                assert(tokens[i] == before[i]);
                assert(values[i] == zero_minus_plus_values(step, (pairs - 1) as nat)[i]);
            }
        }
    }
}

/// What the generator writes, the parser reads: the text generated for a
/// step that is not negative stands for its offsets, each over 10, in the
/// order in which it lists them. In ascending order this holds of a negative
/// step too.
pub proof fn lemma_generated_sequence_is_read(step: Rational, num_images: nat, order: BracketOrder)
    requires
        step.den > 0,
        order == BracketOrder::ZeroMinusPlus ==> step.num >= 0,
    ensures
        parse_sequence(generated_sequence(step, num_images, order)) == generated_values(
            step,
            num_images,
            order,
        ),
{
    if num_images == 0 {
        lemma_parse_of_joined(Seq::empty(), Seq::empty());
        assert(join(Seq::empty()) =~= Seq::<char>::empty());
    } else {
        match order {
            BracketOrder::ZeroMinusPlus => {
                let pairs = ((num_images - 1) / 2) as nat;
                lemma_zero_minus_plus_is_clean(step, pairs);
                lemma_parse_of_joined(
                    zero_minus_plus_tokens(step, pairs),
                    zero_minus_plus_values(step, pairs),
                );
            },
            BracketOrder::MinusZeroPlus => {
                let tokens = minus_zero_plus_tokens(step, num_images);
                let values = minus_zero_plus_values(step, num_images);
                assert forall|i: int| 0 <= i < tokens.len() implies is_clean_token(
                    #[trigger] tokens[i],
                    values[i],
                ) by {
                    lemma_offset_range(step, ascending_index(step, num_images as int, i));
                    lemma_tenths_token_is_clean(
                        minus_zero_plus_offset(step, num_images as int, i),
                    );
                }
                lemma_parse_of_joined(tokens, values);
            },
        }
    }
}

} // verus!
