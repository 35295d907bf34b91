//! Linear-prediction coefficients and the excitation blocks they shape.
use vstd::prelude::*;
use super::{rounded_div, rounded_quotient, abs};
use crate::acoustic::{clamp, clamp_i64, ORDER};

verus! {

/// The initial engine's Q16 product: the low-by-low partial product is discarded,
/// the cross terms rounded, and the sign applied last.
pub open spec fn multiply_high_spec(left: i32, right: i32) -> i32 {
    let l = abs(left as int) as i64;
    let r = abs(right as int) as i64;
    let left_high = (l >> 16) as i16 as i64;
    let right_high = (r >> 16) as i16 as i64;
    let cross = ((l & 65535) * right_high + left_high * (r & 65535)) as i64;
    let magnitude = (left_high * right_high + (((cross + 32768) as i64) >> 16)) as i32;
    let sign: i32 = if (left >= 0) == (right >= 0) {
        1i32
    } else {
        -1i32
    };
    magnitude.wrapping_mul(sign)
}

// The initial multiply discards the low-by-low product. A normal Q16 multiply
// changes the predictor, even when it is rounded in the same direction.
pub fn multiply_high(left: i32, right: i32) -> (result: i32)
    ensures
        result == multiply_high_spec(left, right),
{
    let sign: i32 = if (left >= 0) == (right >= 0) {
        1
    } else {
        -1
    };
    let l: i64 = if left < 0 { -(left as i64) } else { left as i64 };
    let r: i64 = if right < 0 { -(right as i64) } else { right as i64 };
    let left_high: i64 = ((l >> 16) as i16) as i64;
    let right_high: i64 = ((r >> 16) as i16) as i64;
    assert(0 <= l & 65535 <= 65535 && 0 <= r & 65535 <= 65535) by (bit_vector);
    assert(-32768 <= left_high <= 32767 && -32768 <= right_high <= 32767);
    assert(-0x1_0000_0000 <= (l & 65535) * right_high <= 0x1_0000_0000) by (nonlinear_arith)
        requires
            0 <= l & 65535 <= 65535,
            -32768 <= right_high <= 32767;
    assert(-0x1_0000_0000 <= left_high * (r & 65535) <= 0x1_0000_0000) by (nonlinear_arith)
        requires
            0 <= r & 65535 <= 65535,
            -32768 <= left_high <= 32767;
    assert(-0x4000_0000 <= left_high * right_high <= 0x4000_0000) by (nonlinear_arith)
        requires
            -32768 <= left_high <= 32767,
            -32768 <= right_high <= 32767;
    let cross: i64 = (l & 65535) * right_high + left_high * (r & 65535);
    let rounded: i64 = cross + 32768;
    let shifted: i64 = rounded >> 16;
    assert(-0x3_0000 <= rounded >> 16 <= 0x3_0000) by (bit_vector)
        requires
            -0x3_0000_0000 <= rounded <= 0x3_0000_0000;
    ((left_high * right_high + shifted) as i32).wrapping_mul(sign)
}

/// The cosine of an LSP frequency, interpolated from the table and negated.
pub open spec fn lsp_cosine(frequency: i32, cosine: [i32; 129]) -> i32 {
    let phase = (frequency & 65535) << 7;
    let index = phase >> 16;
    let fraction = (phase >> 1) & 32767;
    let start = cosine[index as int];
    let end = cosine[index + 1];
    (-((start + (((end - start) * fraction) as i32 >> 15)) as i16 as i32)) as i32
}

fn lsp_cosine_exec(frequency: i32, cosine: &[i32; 129]) -> (result: i32)
    requires
        forall|i: int| 0 <= i < 129 ==> -32768 <= #[trigger] cosine[i] <= 32768,
    ensures
        result == lsp_cosine(frequency, *cosine),
{
    let phase: i32 = (frequency & 65535) << 7;
    assert(0 <= (frequency & 65535) << 7 <= 0x800000 && 0 <= ((frequency & 65535) << 7) >> 16 < 128
        && 0 <= (((frequency & 65535) << 7) >> 1) & 32767 <= 32767) by (bit_vector);
    let index: usize = (phase >> 16) as usize;
    let fraction: i32 = (phase >> 1) & 32767;
    let start: i32 = cosine[index];
    let end: i32 = cosine[index + 1];
    assert(-0x8000_0000 < (end - start) * fraction < 0x8000_0000) by (nonlinear_arith)
        requires
            -65536 <= end - start <= 65536,
            0 <= fraction <= 32767;
    let product: i32 = (end - start) * fraction;
    assert(-0x10000 <= product >> 15 <= 0x10000) by (bit_vector)
        requires
            -0x8000_0000 < product < 0x8000_0000;
    -(((start + (product >> 15)) as i16) as i32)
}

/// One pass of the lattice from section `k` on: each section adds its previous
/// output and the cosine-weighted delayed value, then shifts its delays.
pub open spec fn lattice_sections(
    cosines: Seq<i32>,
    k: int,
    half: int,
    even_delay: Seq<i32>,
    odd_delay: Seq<i32>,
    even_previous: Seq<i32>,
    odd_previous: Seq<i32>,
    even: i32,
    odd: i32,
) -> (Seq<i32>, Seq<i32>, Seq<i32>, Seq<i32>, i32, i32)
    decreases half - k,
{
    if k < 0 || k >= half {
        (even_delay, odd_delay, even_previous, odd_previous, even, odd)
    } else {
        let next_even = even_previous[k].wrapping_add(even).wrapping_add(
            multiply_high_spec(cosines[2 * k].wrapping_shl(16), even_delay[k]).wrapping_shl(2),
        );
        let next_odd = odd_previous[k].wrapping_add(odd).wrapping_add(
            multiply_high_spec(cosines[2 * k + 1].wrapping_shl(16), odd_delay[k]).wrapping_shl(2),
        );
        lattice_sections(
            cosines,
            k + 1,
            half,
            even_delay.update(k, even),
            odd_delay.update(k, odd),
            even_previous.update(k, even_delay[k]),
            odd_previous.update(k, odd_delay[k]),
            next_even,
            next_odd,
        )
    }
}

/// The lattice's impulse response from `step` on: each step feeds the impulse
/// (then silence) through the sections, and step `n > 0` gives coefficient `n - 1`.
pub open spec fn lattice_response(
    cosines: Seq<i32>,
    half: int,
    order: int,
    step: int,
    even_delay: Seq<i32>,
    odd_delay: Seq<i32>,
    even_previous: Seq<i32>,
    odd_previous: Seq<i32>,
    previous: i32,
    impulse: i32,
    output: Seq<i16>,
) -> Seq<i16>
    decreases order + 1 - step,
{
    if step < 0 || step > order {
        output
    } else {
        let (ed, od, ep, op, even, odd) = lattice_sections(
            cosines,
            0,
            half,
            even_delay,
            odd_delay,
            even_previous,
            odd_previous,
            impulse.wrapping_add(previous),
            impulse.wrapping_sub(previous),
        );
        let written = if step > 0 {
            output.update(step - 1, ((even as i64 + odd as i64) as i64 >> 15i64) as i16)
        } else {
            output
        };
        lattice_response(cosines, half, order, step + 1, ed, od, ep, op, impulse, 0, written)
    }
}

/// The direct-form coefficients of an LSP vector at a predictor order.
pub open spec fn lsp_coefficients(spectrum: Seq<i32>, order: int, cosine: [i32; 129]) -> Seq<i16> {
    let zeros: Seq<i32> = Seq::new(5, |i: int| 0i32);
    lattice_response(
        Seq::new(10, |k: int| lsp_cosine(spectrum[k], cosine)),
        order / 2,
        order,
        0,
        zeros,
        zeros,
        zeros,
        zeros,
        0,
        0x2000000,
        Seq::new(10, |i: int| 0i16),
    )
}

/// Converts an LSP vector into `order` direct-form predictor coefficients with
/// the engine's lattice of sum and difference polynomials; coefficients past the
/// order are zero.
pub fn coefficients_with_order(spectrum: &[i32; 10], order: usize, cosine: &[i32; 129]) -> (output:
    [i16; 10])
    requires
        order <= ORDER,
        forall|i: int| 0 <= i < 129 ==> -32768 <= #[trigger] cosine[i] <= 32768,
    ensures
        output@ == lsp_coefficients(spectrum@, order as int, *cosine),
        forall|i: int| order <= i < ORDER ==> #[trigger] output[i] == 0,
{
    let mut cosines: [i32; 10] = [0i32; 10];
    let mut k: usize = 0;
    while k < ORDER
        invariant
            k <= ORDER,
            forall|i: int| 0 <= i < 129 ==> -32768 <= #[trigger] cosine[i] <= 32768,
            forall|i: int| 0 <= i < k ==> cosines[i] == lsp_cosine(spectrum[i], *cosine),
        decreases ORDER - k,
    {
        cosines[k] = lsp_cosine_exec(spectrum[k], cosine);
        k += 1;
    }
    assert(cosines@ =~= Seq::new(10, |k: int| lsp_cosine(spectrum[k], *cosine)));
    let ghost cos = cosines@;
    let mut even_delay: [i32; 5] = [0i32; 5];
    let mut odd_delay: [i32; 5] = [0i32; 5];
    let mut even_previous: [i32; 5] = [0i32; 5];
    let mut odd_previous: [i32; 5] = [0i32; 5];
    let mut even: [i32; 6] = [0i32; 6];
    let mut odd: [i32; 6] = [0i32; 6];
    let mut previous: i32 = 0;
    let mut impulse: i32 = 0x2000000;
    let mut output: [i16; 10] = [0i16; 10];
    let half = order / 2;
    let ghost zeros: Seq<i32> = Seq::new(5, |i: int| 0i32);
    assert(even_delay@ =~= zeros && output@ =~= Seq::new(10, |i: int| 0i16));
    let ghost total = lsp_coefficients(spectrum@, order as int, *cosine);
    let mut step: usize = 0;
    while step <= order
        invariant
            order <= ORDER,
            half == order / 2,
            cosines@ == cos,
            step <= order + 1,
            lattice_response(cos, half as int, order as int, step as int, even_delay@, odd_delay@, even_previous@, odd_previous@, previous, impulse, output@) == total,
            forall|i: int| order <= i < ORDER ==> #[trigger] output[i] == 0,
        decreases order + 1 - step,
    {
        even[0] = impulse.wrapping_add(previous);
        odd[0] = impulse.wrapping_sub(previous);
        let ghost sections = lattice_sections(cos, 0, half as int, even_delay@, odd_delay@, even_previous@, odd_previous@, even[0], odd[0]);
        previous = impulse;
        let mut k: usize = 0;
        while k < half
            invariant
                half <= 5,
                k <= half,
                cosines@ == cos,
                lattice_sections(cos, k as int, half as int, even_delay@, odd_delay@, even_previous@, odd_previous@, even[k as int], odd[k as int]) == sections,
            decreases half - k,
        {
            let product = multiply_high(cosines[2 * k].wrapping_shl(16), even_delay[k]);
            even[k + 1] = even_previous[k].wrapping_add(even[k]).wrapping_add(
                product.wrapping_shl(2),
            );
            even_previous[k] = even_delay[k];
            let product = multiply_high(cosines[2 * k + 1].wrapping_shl(16), odd_delay[k]);
            odd[k + 1] = odd_previous[k].wrapping_add(odd[k]).wrapping_add(product.wrapping_shl(2));
            odd_previous[k] = odd_delay[k];
            even_delay[k] = even[k];
            odd_delay[k] = odd[k];
            k += 1;
        }
        if step > 0 {
            output[step - 1] = ((even[half] as i64 + odd[half] as i64) >> 15) as i16;
        }
        impulse = 0;
        step += 1;
    }
    output
}

/// The engine's square-root approximation: normalize to an even power of two,
/// apply one corrected linear step, and scale back by half the shift. Arithmetic
/// wraps, as in the engine's release build.
pub open spec fn sqrt_normalized(value: i64, shift: i32) -> i64 {
    let adjusted: i32 = if shift & 1 != 0 {
        (shift + 1) as i32
    } else {
        shift
    };
    let v: i64 = if adjusted > 0 {
        value >> adjusted
    } else {
        value << -adjusted
    };
    let correction = 0x28ai64.wrapping_sub(v.wrapping_mul(0x4767) >> 16);
    let v = v.wrapping_add(correction.wrapping_mul(v) >> 16);
    let result = v.wrapping_add(0x44e0i64);
    if adjusted > 0 {
        result << (adjusted / 2)
    } else {
        result >> (-adjusted / 2)
    }
}

/// The shift that normalizes `value`: 15 less the number of zero bits above its
/// highest set bit below bit 31, stopping at -15.
pub open spec fn sqrt_shift(value: i64, steps: nat) -> i32
    decreases 30 - steps,
{
    if steps >= 30 {
        -15i32
    } else if value & (0x4000_0000i64 >> steps) != 0 {
        (15 - steps) as i32
    } else {
        sqrt_shift(value, steps + 1)
    }
}

/// Approximate square root, as the engine computes it.
pub open spec fn approximate_sqrt_spec(value: i64) -> i64 {
    sqrt_normalized(value, sqrt_shift(value, 0))
}

pub fn approximate_sqrt(value: i64) -> (result: i64)
    ensures
        result == approximate_sqrt_spec(value),
{
    let mut shift: i32 = 15;
    let mut mask: i64 = 0x40000000;
    let mut steps: u32 = 0;
    assert(0x4000_0000i64 >> 0u32 == 0x4000_0000i64) by (bit_vector);
    while value & mask == 0
        invariant_except_break
            steps < 30,
        invariant
            steps <= 30,
            shift == 15 - steps,
            mask == 0x4000_0000i64 >> steps,
            sqrt_shift(value, 0) == sqrt_shift(value, steps as nat),
        ensures
            sqrt_shift(value, 0) == shift,
            -15 <= shift <= 15,
        decreases 30 - steps,
    {
        assert((0x4000_0000i64 >> steps) >> 1u32 == 0x4000_0000i64 >> ((steps + 1) as u32)) by (bit_vector)
            requires
                steps < 30;
        shift -= 1;
        mask >>= 1;
        steps += 1;
        if mask <= 1 {
            assert(steps == 30) by {
                assert(steps < 30 ==> 0x4000_0000i64 >> steps > 1) by (bit_vector);
            }
            assert(sqrt_shift(value, 30) == -15);
            break;
        }
        assert(steps < 30) by {
            assert(0x4000_0000i64 >> 30u32 == 1) by (bit_vector);
        }
    }
    let adjusted: i32 = if shift & 1 != 0 {
        shift + 1
    } else {
        shift
    };
    assert(-14 <= adjusted <= 16) by (bit_vector)
        requires
            -15 <= shift <= 15,
            adjusted == if shift & 1 != 0 { (shift + 1) as i32 } else { shift };
    let v: i64 = if adjusted > 0 {
        value >> adjusted
    } else {
        value << -adjusted
    };
    let correction: i64 = 0x28ai64.wrapping_sub(v.wrapping_mul(0x4767) >> 16);
    let v: i64 = v.wrapping_add(correction.wrapping_mul(v) >> 16);
    let result: i64 = v.wrapping_add(0x44e0i64);
    if adjusted > 0 {
        result << (adjusted / 2)
    } else {
        result >> (-adjusted / 2)
    }
}

/// The predictor's output for a history: the sum of the Q16 products of the first
/// `count` taps, accumulated with wrapping.
pub open spec fn prediction(history: Seq<i32>, coefficients: Seq<i16>, count: nat) -> i32
    decreases count,
{
    if count == 0 {
        0
    } else {
        let k = count - 1;
        prediction(history, coefficients, k as nat).wrapping_add(
            ((history[k] as i64 * coefficients[k] as i64) as i64 >> 16) as i32,
        )
    }
}

/// The inverse-filter residual of one sample, in Q7.
pub open spec fn residual(sample: i16, history: Seq<i32>, coefficients: Seq<i16>) -> i32 {
    ((sample as i32) << 7).wrapping_sub(prediction(history, coefficients, 10))
}

/// The filter history after `count` samples: the newest residual, scaled, first.
pub open spec fn filter_history(source: Seq<i16>, coefficients: Seq<i16>, count: nat) -> Seq<i32>
    decreases count,
{
    if count == 0 {
        Seq::new(10, |i: int| 0i32)
    } else {
        let history = filter_history(source, coefficients, (count - 1) as nat);
        seq![residual(source[count - 1], history, coefficients).wrapping_shl(5)]
            + history.take(9)
    }
}

/// The filtered output sample at `index`.
pub open spec fn filtered(source: Seq<i16>, coefficients: Seq<i16>, index: int) -> i32 {
    residual(source[index], filter_history(source, coefficients, index as nat), coefficients) >> 7
}

proof fn lemma_history_len(source: Seq<i16>, coefficients: Seq<i16>, count: nat)
    ensures
        filter_history(source, coefficients, count).len() == 10,
    decreases count,
{
    if count > 0 {
        lemma_history_len(source, coefficients, (count - 1) as nat);
    }
}

fn predict(history: &[i32; 10], coefficients: &[i16; 10]) -> (result: i32)
    ensures
        result == prediction(history@, coefficients@, 10),
{
    let mut sum: i32 = 0;
    let mut k: usize = 0;
    while k < 10
        invariant
            k <= 10,
            sum == prediction(history@, coefficients@, k as nat),
        decreases 10 - k,
    {
        let h: i64 = history[k] as i64;
        let c: i64 = coefficients[k] as i64;
        assert(-0x4000_0000_0000 <= h * c <= 0x4000_0000_0000) by (nonlinear_arith)
            requires
                -0x8000_0000 <= h < 0x8000_0000,
                -0x8000 <= c < 0x8000;
        sum = sum.wrapping_add(((h * c) >> 16) as i32);
        k += 1;
    }
    sum
}

/// Inverse-filters a source through the predictor, yielding Q0 residuals.
pub fn filter(source: &Vec<i16>, coefficients: &[i16; 10]) -> (result: Vec<i32>)
    ensures
        result@.len() == source@.len(),
        forall|i: int|
            0 <= i < source@.len() ==> #[trigger] result@[i] == filtered(source@, coefficients@, i),
{
    let mut history: [i32; 10] = [0i32; 10];
    let mut result: Vec<i32> = Vec::new();
    let mut index: usize = 0;
    proof {
        assert(history@ =~= filter_history(source@, coefficients@, 0));
    }
    while index < source.len()
        invariant
            index <= source@.len(),
            result@.len() == index,
            history@ == filter_history(source@, coefficients@, index as nat),
            forall|i: int|
                0 <= i < index ==> #[trigger] result@[i] == filtered(source@, coefficients@, i),
        decreases source@.len() - index,
    {
        proof {
            lemma_history_len(source@, coefficients@, index as nat);
        }
        let prediction = predict(&history, coefficients);
        let residual = ((source[index] as i32) << 7).wrapping_sub(prediction);
        let updated: [i32; 10] = [
            residual.wrapping_shl(5),
            history[0],
            history[1],
            history[2],
            history[3],
            history[4],
            history[5],
            history[6],
            history[7],
            history[8],
        ];
        proof {
            assert(updated@ =~= filter_history(source@, coefficients@, (index + 1) as nat));
        }
        history = updated;
        result.push(residual >> 7);
        index += 1;
    }
    result
}

/// Energy of a block: the sum of each value's square over 64, accumulated with
/// wrapping 32-bit arithmetic.
pub open spec fn block_energy(block: Seq<i32>, count: nat) -> i32
    decreases count,
{
    if count == 0 {
        0
    } else {
        let v = block[count - 1];
        block_energy(block, (count - 1) as nat).wrapping_add(((v * v) as i64 >> 6) as i32)
    }
}

/// The square-root length factor of a block, exact for the engine's block sizes.
pub open spec fn length_factor(length: nat) -> i64 {
    if length == 55 {
        59
    } else if length == 60 {
        62
    } else if length == 120 {
        88
    } else if length == 240 {
        124
    } else {
        (approximate_sqrt_spec(length as i64) << 11) >> 16
    }
}

/// The normalization gain that brings a block of the given energy to `target`.
pub open spec fn normalization_gain(length: nat, energy: i32, target: i32) -> i32 {
    let energy = if energy == 0 {
        1i32
    } else {
        energy
    };
    let energy = if energy > 0x3fff0001 {
        0x3fff0001i32
    } else {
        energy
    };
    rounded_quotient(
        (target as i64).wrapping_mul(length_factor(length)) as int,
        (approximate_sqrt_spec(energy as i64) >> 8) as int,
    ) as i64 as i32
}

/// One normalized sample: the value times the gain, over 64, clamped to 16 bits.
pub open spec fn normalized(value: i32, gain: i32) -> i32 {
    clamp((value.wrapping_mul(gain) >> 6) as int, -32768, 32767) as i32
}

pub fn normalize(block: &mut Vec<i32>, target: i32)
    requires
        old(block)@.len() < 0x8000_0000,
    ensures
        final(block)@ == normalize_seq(old(block)@, target),
{
    let length = block.len();
    let factor: i64 = if length == 55 {
        59
    } else if length == 60 {
        62
    } else if length == 120 {
        88
    } else if length == 240 {
        124
    } else {
        (approximate_sqrt(length as i64) << 11) >> 16
    };
    let mut energy: i32 = 0;
    let mut index: usize = 0;
    while index < length
        invariant
            length == block@.len(),
            index <= length,
            energy == block_energy(block@, index as nat),
        decreases length - index,
    {
        let v: i64 = block[index] as i64;
        assert(0 <= v * v <= 0x4000_0000_0000_0000) by (nonlinear_arith)
            requires
                -0x8000_0000 <= v < 0x8000_0000;
        energy = energy.wrapping_add(((v * v) >> 6) as i32);
        index += 1;
    }
    if energy == 0 {
        energy = 1;
    }
    if energy > 0x3fff0001 {
        energy = 0x3fff0001;
    }
    let root: i64 = approximate_sqrt(energy as i64) >> 8;
    let numerator: i64 = (target as i64).wrapping_mul(factor);
    let gain: i32 = rounded_div(numerator, root) as i32;
    let ghost initial = block@;
    let mut index: usize = 0;
    while index < length
        invariant
            length == block@.len() == initial.len(),
            index <= length,
            forall|i: int| 0 <= i < index ==> #[trigger] block@[i] == normalized(initial[i], gain),
            forall|i: int| index <= i < length ==> #[trigger] block@[i] == initial[i],
        decreases length - index,
    {
        let value = block[index];
        let scaled = clamp_i64((value.wrapping_mul(gain) >> 6) as i64, -32768, 32767) as i32;
        block.set(index, scaled);
        index += 1;
    }
    proof {
        assert(block@ =~= normalize_seq(initial, target));
    }
}

/// A block brought to the target level.
pub open spec fn normalize_seq(block: Seq<i32>, target: i32) -> Seq<i32> {
    let gain = normalization_gain(block.len(), block_energy(block, block.len()), target);
    Seq::new(block.len(), |i: int| normalized(block[i], gain))
}

/// The inverse-filtered block.
pub open spec fn filter_seq(source: Seq<i16>, coefficients: Seq<i16>) -> Seq<i32> {
    Seq::new(source.len(), |i: int| filtered(source, coefficients, i))
}

/// One sample scaled by an amplitude gain: times twice the gain over 4096,
/// clamped to the symmetric 16-bit range.
pub open spec fn scaled(value: i32, gain: i32) -> i32 {
    clamp(((value as i64).wrapping_mul(((gain as i64) * 2) as i64) >> 12) as int, -32767, 32767) as i32
}

/// A block scaled by an amplitude gain.
pub open spec fn scale_seq(block: Seq<i32>, gain: i32) -> Seq<i32> {
    Seq::new(block.len(), |i: int| scaled(block[i], gain))
}

pub fn scale(block: &mut Vec<i32>, amplitude: usize, gains: &[i32; 91])
    requires
        amplitude < 91,
    ensures
        final(block)@ == scale_seq(old(block)@, gains[amplitude as int]),
{
    let factor: i64 = gains[amplitude] as i64 * 2;
    let ghost initial = block@;
    let length = block.len();
    let mut index: usize = 0;
    while index < length
        invariant
            length == block@.len() == initial.len(),
            index <= length,
            factor == gains[amplitude as int] as i64 * 2,
            forall|i: int|
                0 <= i < index ==> #[trigger] block@[i] == scaled(
                    initial[i],
                    gains[amplitude as int],
                ),
            forall|i: int| index <= i < length ==> #[trigger] block@[i] == initial[i],
        decreases length - index,
    {
        let value = block[index];
        let scaled_value = clamp_i64((value as i64).wrapping_mul(factor) >> 12, -32767, 32767) as i32;
        block.set(index, scaled_value);
        index += 1;
    }
    proof {
        assert(block@ =~= scale_seq(initial, gains[amplitude as int]));
    }
}

/// The gain of a linear ramp after `count` steps, accumulated with wrapping.
pub open spec fn ramp_gain(start: i64, step: i64, count: nat) -> i64
    decreases count,
{
    if count == 0 {
        start
    } else {
        ramp_gain(start, step, (count - 1) as nat).wrapping_add(step)
    }
}

/// One sample under a Q16 gain.
pub open spec fn windowed(value: i32, gain: i64) -> i32 {
    ((value as i64).wrapping_mul(gain) >> 16) as i32
}

/// A block with a linear gain ramp applied to `from..to`.
pub open spec fn window_seq(block: Seq<i32>, from: int, to: int, start: i64, step: i64) -> Seq<i32> {
    Seq::new(
        block.len(),
        |i: int|
            if from <= i < to {
                windowed(block[i], ramp_gain(start, step, (i - from) as nat))
            } else {
                block[i]
            },
    )
}

pub fn window(block: &mut Vec<i32>, from: usize, to: usize, start: i64, step: i64)
    requires
        from <= to <= old(block)@.len(),
    ensures
        final(block)@ == window_seq(old(block)@, from as int, to as int, start, step),
{
    let ghost initial = block@;
    let mut gain: i64 = start;
    let mut index: usize = from;
    while index < to
        invariant
            from <= index <= to <= block@.len(),
            block@.len() == initial.len(),
            gain == ramp_gain(start, step, (index - from) as nat),
            forall|i: int|
                from <= i < index ==> #[trigger] block@[i] == windowed(
                    initial[i],
                    ramp_gain(start, step, (i - from) as nat),
                ),
            forall|i: int| 0 <= i < from || index <= i < block@.len() ==> #[trigger] block@[i] == initial[i],
        decreases to - index,
    {
        let value = block[index];
        block.set(index, ((value as i64).wrapping_mul(gain) >> 16) as i32);
        gain = gain.wrapping_add(step);
        index += 1;
    }
    proof {
        assert(block@ =~= window_seq(initial, from as int, to as int, start, step));
    }
}

/// The pulse source: the table followed by silence, cut to `length`.
pub open spec fn pulse_source(table: Seq<i16>, length: nat) -> Seq<i16> {
    Seq::new(length, |i: int| if i < table.len() { table[i] } else { 0i16 })
}

/// A voiced excitation block: the filtered pulse, normalized, scaled and faded out
/// over its second half.
pub open spec fn excitation_block(
    table: Seq<i16>,
    coefficients: Seq<i16>,
    gain: i32,
    length: nat,
    target: i32,
) -> Seq<i32> {
    let block = scale_seq(normalize_seq(filter_seq(pulse_source(table, length), coefficients), target), gain);
    if length > 0 {
        let half = length / 2;
        let step = rounded_quotient(-65536, half as int) as i64;
        window_seq(block, half as int, length as int, -(step * (half - 1)) as i64, step)
    } else {
        block
    }
}

#[verifier::rlimit(40)]
pub fn excitation(
    table: &[i16],
    coefficients: &[i16; 10],
    amplitude: usize,
    length: usize,
    target: i32,
    gains: &[i32; 91],
) -> (block: Vec<i32>)
    requires
        amplitude < 91,
        length < 0x8000_0000,
    ensures
        block@ == excitation_block(table@, coefficients@, gains[amplitude as int], length as nat, target),
{
    let mut source: Vec<i16> = Vec::new();
    let mut index: usize = 0;
    while index < length
        invariant
            index <= length,
            source@ =~= pulse_source(table@, length as nat).take(index as int),
        decreases length - index,
    {
        if index < table.len() {
            source.push(table[index]);
        } else {
            source.push(0);
        }
        index += 1;
    }
    assert(source@ =~= pulse_source(table@, length as nat));
    let mut block = filter(&source, coefficients);
    assert(block@ =~= filter_seq(source@, coefficients@));
    normalize(&mut block, target);
    scale(&mut block, amplitude, gains);
    if length > 0 {
        let half = length / 2;
        let step = rounded_div(-65536, half as i64);
        assert(-65536 <= step <= 65536) by {
            assert(rounded_quotient(-65536, half as int) <= 0);
            assert(rounded_quotient(-65536, half as int) >= -65536) by (nonlinear_arith)
                requires
                    half >= 0,
                    rounded_quotient(-65536, half as int) == if half == 0 { 0 } else { -((65536 + (half as int) / 2) / (half as int)) };
        }
        assert(-0x1_0000_0000_0000 <= step * (half as i64 - 1) <= 0x1_0000_0000_0000) by (nonlinear_arith)
            requires
                -65536 <= step <= 65536,
                0 <= half < 0x8000_0000;
        window(&mut block, half, length, -(step * (half as i64 - 1)), step);
    }
    block
}

/// The noise source: a `length`-sample window of the table chosen by `index`, wrapping.
pub open spec fn noise_source(table: Seq<i16>, index: nat, length: nat) -> Seq<i16> {
    Seq::new(length, |i: int| table[(length * index + i) % (table.len() as int)])
}

/// An unvoiced excitation block: the filtered noise, normalized and scaled, with a
/// fade-in and cross-fade over the samples beyond 55.
pub open spec fn noise_block(
    table: Seq<i16>,
    index: nat,
    coefficients: Seq<i16>,
    gain: i32,
    length: nat,
    target: i32,
) -> Seq<i32> {
    let block = scale_seq(normalize_seq(filter_seq(noise_source(table, index, length), coefficients), target), gain);
    if length > 55 {
        let overlap = (length - 55) as nat;
        let step = rounded_quotient(65536, overlap as int) as i64;
        window_seq(window_seq(block, 0, overlap as int, 0, step), 55, length as int, (step * (overlap - 1)) as i64, (-step) as i64)
    } else {
        block
    }
}

pub fn noise(
    table: &[i16],
    index: usize,
    coefficients: &[i16; 10],
    amplitude: usize,
    length: usize,
    target: i32,
    gains: &[i32; 91],
) -> (block: Vec<i32>)
    requires
        table@.len() > 0,
        amplitude < 91,
        length < 0x8000_0000,
        length * index + length <= usize::MAX,
    ensures
        block@ == noise_block(table@, index as nat, coefficients@, gains[amplitude as int], length as nat, target),
{
    let mut source: Vec<i16> = Vec::new();
    let mut i: usize = 0;
    assert(length * index <= length * index + length);
    let base = length * index;
    while i < length
        invariant
            i <= length,
            table@.len() > 0,
            base == length * index,
            base + length <= usize::MAX,
            source@ =~= noise_source(table@, index as nat, length as nat).take(i as int),
        decreases length - i,
    {
        source.push(table[(base + i) % table.len()]);
        i += 1;
    }
    assert(source@ =~= noise_source(table@, index as nat, length as nat));
    let mut block = filter(&source, coefficients);
    assert(block@ =~= filter_seq(source@, coefficients@));
    normalize(&mut block, target);
    scale(&mut block, amplitude, gains);
    if length > 55 {
        let overlap = length - 55;
        let step = rounded_div(65536, overlap as i64);
        assert(0 <= step <= 65536) by {
            assert(rounded_quotient(65536, overlap as int) == (65536 + (overlap as int) / 2) / (overlap as int));
            assert(0 <= (65536 + (overlap as int) / 2) / (overlap as int) <= 65536) by (nonlinear_arith)
                requires
                    overlap >= 1;
        }
        window(&mut block, 0, overlap, 0, step);
        assert(-0x1_0000_0000_0000 <= step * (overlap as i64 - 1) <= 0x1_0000_0000_0000) by (nonlinear_arith)
            requires
                0 <= step <= 65536,
                0 <= overlap < 0x8000_0000;
        window(&mut block, 55, length, step * (overlap as i64 - 1), -step);
    }
    block
}

/// One LSP frequency warped by the spectral scale `shift` (Q10): for a scale above
/// 100, stretched and capped halfway to the top; otherwise frequencies below
/// 0x7000 are scaled about the first frequency's pivot, bounded below by twice
/// the frequency less the full range; the result is truncated to 16 bits.
pub open spec fn shifted_frequency(value: i32, pivot: i64, shift: i32, source: i32) -> i32 {
    let unsigned = (value & 65535) as i64;
    let shifted: i64 = if source > 100 {
        let half = (unsigned >> 1) + 32768;
        let scaled = ((shift as i64) * unsigned) as i64 >> 10;
        if half < scaled {
            half as i64
        } else {
            scaled
        }
    } else if unsigned < 0x7000 {
        let scaled = ((((unsigned - pivot) * shift) as i64 >> 10) + pivot) as i64;
        let floor = ((unsigned << 1) - 65536) as i64;
        if scaled > floor {
            scaled
        } else {
            floor
        }
    } else {
        value as i64
    };
    shifted as i16 as i32
}

/// A spectrum warped by the spectral scale; a scale of exactly 1024 leaves it unchanged.
pub open spec fn shift_spectrum_spec(spectrum: Seq<i32>, shift: i32, source: i32) -> Seq<i32> {
    if shift == 1024 {
        spectrum
    } else {
        let pivot = ((spectrum[0] & 65535) >> 2) as i64;
        Seq::new(spectrum.len(), |i: int| shifted_frequency(spectrum[i], pivot, shift, source))
    }
}

pub fn shift_spectrum(spectrum: &mut [i32; 10], shift: i32, source: i32)
    ensures
        final(spectrum)@ == shift_spectrum_spec(old(spectrum)@, shift, source),
{
    if shift == 1024 {
        return;
    }
    let ghost initial = spectrum@;
    let first = spectrum[0];
    assert(0 <= (first & 65535) >> 2 < 0x4000) by (bit_vector);
    let pivot: i64 = ((first & 65535) >> 2) as i64;
    let wide_shift: i64 = shift as i64;
    let mut k: usize = 0;
    while k < 10
        invariant
            k <= 10,
            pivot == ((initial[0] & 65535) >> 2) as i64,
            0 <= pivot < 0x4000,
            wide_shift == shift as i64,
            forall|i: int| 0 <= i < k ==> #[trigger] spectrum@[i] == shifted_frequency(initial[i], pivot, shift, source),
            forall|i: int| k <= i < 10 ==> #[trigger] spectrum@[i] == initial[i],
        decreases 10 - k,
    {
        let value = spectrum[k];
        assert(0 <= value & 65535 <= 65535) by (bit_vector);
        let unsigned: i64 = (value & 65535) as i64;
        assert(0 <= unsigned >> 1 <= 65535 && 0 <= unsigned << 1 <= 0x2_0000) by (bit_vector)
            requires
                0 <= unsigned <= 65535;
        let shifted: i64 = if source > 100 {
            let half = (unsigned >> 1) + 32768;
            assert(-0x8000_0000_0000 <= wide_shift * unsigned <= 0x8000_0000_0000) by (nonlinear_arith)
                requires
                    0 <= unsigned <= 65535,
                    -0x8000_0000 <= wide_shift < 0x8000_0000;
            let scaled = (wide_shift * unsigned) >> 10;
            if half < scaled { half } else { scaled }
        } else if unsigned < 0x7000 {
            assert(-0x8000_0000_0000 <= (unsigned - pivot) * wide_shift <= 0x8000_0000_0000) by (nonlinear_arith)
                requires
                    -0x4000 <= unsigned - pivot <= 0x7000,
                    -0x8000_0000 <= wide_shift < 0x8000_0000;
            let product: i64 = (unsigned - pivot) * wide_shift;
            assert(-0x1_0000_0000_0000 <= product >> 10 <= 0x1_0000_0000_0000) by (bit_vector)
                requires
                    -0x8000_0000_0000 <= product <= 0x8000_0000_0000;
            let scaled = (product >> 10) + pivot;
            let floor = (unsigned << 1) - 65536;
            if scaled > floor { scaled } else { floor }
        } else {
            value as i64
        };
        spectrum[k] = (shifted as i16) as i32;
        k += 1;
    }
    proof {
        assert(spectrum@ =~= shift_spectrum_spec(initial, shift, source));
    }
}

} // verus!
