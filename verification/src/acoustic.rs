//! Acoustic frames, units and fixed-point synthesis tables.
use vstd::prelude::*;

verus! {

/// Order of the linear predictor.
pub const ORDER: usize = 10;

/// One stored analysis frame.
#[derive(Clone, Copy, Debug)]
pub struct Frame {
    pub voiced: bool,
    pub amplitude: i32,
    /// Index into the shared LSP vectors.
    pub spectrum: usize,
    /// Whether this frame supplies excitation, independently of its LSP values.
    pub excitable: bool,
}

/// A stored acoustic unit: its first frame and up to four segment boundaries.
#[derive(Clone, Copy, Debug)]
pub struct Unit {
    pub start: usize,
    pub boundaries: [u8; 4],
}

/// The engine's acoustic inventory and fixed-point synthesis tables.
pub struct AcousticData {
    pub frames: Vec<Frame>,
    /// Expanded LSP vectors, shared between frames.
    pub spectra: Vec<[i32; 10]>,
    /// Units keyed by left, center and right phoneme.
    pub units: Vec<Vec<Vec<Option<Unit>>>>,
    pub coarse_pitch: [i16; 50],
    pub fine_pitch: [i16; 128],
    pub pulse: [i16; 35],
    pub impulse: [i16; 8],
    pub noise: [i16; 360],
    pub ring_sine: [i16; 256],
    /// Linear gains of the logarithmic amplitude steps.
    pub amplitude: [i32; 91],
    /// Interpolated cosine table for LSP decoding, in Q15.
    pub cosine: [i32; 129],
}

/// A unit fits the frame inventory when every boundary lies within it.
pub open spec fn unit_fits(unit: Unit, frame_count: nat) -> bool {
    forall|k: int| 0 <= k < 4 ==> unit.start + #[trigger] unit.boundaries[k] <= frame_count
}

impl AcousticData {
    /// The stored unit of a phoneme triple, if any.
    pub open spec fn unit_of(&self, left: int, center: int, right: int) -> Option<Unit> {
        if 0 <= left < self.units@.len() && 0 <= center < self.units@[left]@.len() && 0 <= right
            < self.units@[left]@[center]@.len() {
            self.units@[left]@[center]@[right]
        } else {
            None
        }
    }

    /// Well-formed data: at least one frame, every frame's spectrum is stored,
    /// every unit lies within the frames, the cosine table is in Q15 and frame
    /// amplitudes fit 16 bits.
    pub open spec fn wf(&self) -> bool {
        &&& 1 <= self.frames@.len() < 0x8000_0000
        &&& forall|i: int|
            0 <= i < self.frames@.len() ==> #[trigger] self.frames@[i].spectrum
                < self.spectra@.len()
        &&& forall|l: int, c: int, r: int| #[trigger]
            self.unit_of(l, c, r) matches Some(u) ==> unit_fits(u, self.frames@.len())
        &&& forall|i: int| 0 <= i < 129 ==> -32768 <= #[trigger] self.cosine[i] <= 32768
        &&& forall|i: int|
            0 <= i < self.frames@.len() ==> -32768 <= #[trigger] self.frames@[i].amplitude <= 32767
    }

    /// The unit stored for a left, center and right phoneme.
    pub fn unit(&self, left: usize, center: usize, right: usize) -> (result: Option<Unit>)
        ensures
            result == self.unit_of(left as int, center as int, right as int),
    {
        if left < self.units.len() && center < self.units[left].len() && right
            < self.units[left][center].len() {
            self.units[left][center][right]
        } else {
            None
        }
    }

    /// The pitch period, in samples, of a pitch code scaled by `scale / 65536`.
    pub open spec fn period_of(&self, pitch: i32, scale: i32) -> int {
        if pitch <= 0 {
            0
        } else {
            let coarse = clamp((pitch >> 7) - 28, 0, 49);
            let fine = pitch & 127;
            let value = (self.coarse_pitch[coarse] * self.fine_pitch[fine as int]) as i64 >> 16;
            let value = (value * scale) as i64 >> 16;
            clamp(((value * 16098) as i64 >> 16) as int, 0, 239)
        }
    }

    /// The pitch period, in samples, of a pitch code; zero for a nonpositive code.
    pub fn period(&self, pitch: i32, scale: i32) -> (result: usize)
        ensures
            result == self.period_of(pitch, scale),
            result <= 239,
    {
        if pitch <= 0 {
            return 0;
        }
        assert(0 <= pitch >> 7 <= 0x1000000 && 0 <= pitch & 127 < 128) by (bit_vector)
            requires
                pitch > 0;
        let coarse = clamp_i64(((pitch >> 7) - 28) as i64, 0, 49) as usize;
        let fine = (pitch & 127) as usize;
        let c: i16 = self.coarse_pitch[coarse];
        let f: i16 = self.fine_pitch[fine];
        assert(-0x4000_0000 <= c as i64 * f as i64 <= 0x4000_0000) by (nonlinear_arith)
            requires
                -32768 <= c <= 32767,
                -32768 <= f <= 32767;
        let product: i64 = c as i64 * f as i64;
        let value: i64 = product >> 16;
        assert(-32768 <= product >> 16 <= 32768) by (bit_vector)
            requires
                -0x4000_0000 <= product <= 0x4000_0000;
        assert(-0x8000_0000_0000 <= value * scale as i64 <= 0x8000_0000_0000) by (nonlinear_arith)
            requires
                -32768 <= value <= 32768,
                i32::MIN <= scale <= i32::MAX;
        let product: i64 = value * scale as i64;
        let value: i64 = product >> 16;
        assert(-0x1_0000_0000 <= product >> 16 <= 0x1_0000_0000) by (bit_vector)
            requires
                -0x8000_0000_0000 <= product <= 0x8000_0000_0000;
        assert(-0x1_0000_0000_0000 <= value * 16098 <= 0x1_0000_0000_0000) by (nonlinear_arith)
            requires
                -0x1_0000_0000 <= value <= 0x1_0000_0000;
        clamp_i64((value * 16098) >> 16, 0, 239) as usize
    }

    /// The LSP vector of a frame.
    pub fn spectrum(&self, frame: Frame) -> (result: [i32; 10])
        requires
            frame.spectrum < self.spectra@.len(),
        ensures
            result == self.spectra@[frame.spectrum as int],
    {
        self.spectra[frame.spectrum]
    }
}

/// `value` limited to `low..=high`.
pub open spec fn clamp(value: int, low: int, high: int) -> int {
    if value < low {
        low
    } else if value > high {
        high
    } else {
        value
    }
}

/// `value` limited to `low..=high`.
pub fn clamp_i64(value: i64, low: i64, high: i64) -> (result: i64)
    requires
        low <= high,
    ensures
        result == clamp(value as int, low as int, high as int),
{
    if value < low {
        low
    } else if value > high {
        high
    } else {
        value
    }
}

/// `value` limited to `low..=high`.
pub fn clamp_i32(value: i32, low: i32, high: i32) -> (result: i32)
    requires
        low <= high,
    ensures
        result == clamp(value as int, low as int, high as int),
{
    if value < low {
        low
    } else if value > high {
        high
    } else {
        value
    }
}

} // verus!

verus! {

impl AcousticData {
    /// Whether a unit fits the frame inventory.
    fn fits(unit: Unit, frame_count: usize) -> (result: bool)
        ensures
            result == unit_fits(unit, frame_count as nat),
    {
        let mut k: usize = 0;
        while k < 4
            invariant
                k <= 4,
                forall|j: int| 0 <= j < k ==> unit.start + #[trigger] unit.boundaries[j] <= frame_count,
            decreases 4 - k,
        {
            if unit.start > frame_count || (unit.boundaries[k] as usize) > frame_count - unit.start {
                assert(unit.start + unit.boundaries[k as int] > frame_count);
                return false;
            }
            k += 1;
        }
        true
    }

    /// Whether every stored unit fits the frame inventory.
    fn units_fit(&self) -> (result: bool)
        ensures
            result == forall|l: int, c: int, r: int| #[trigger]
                self.unit_of(l, c, r) matches Some(u) ==> unit_fits(u, self.frames@.len()),
    {
        let frame_count = self.frames.len();
        let mut l: usize = 0;
        while l < self.units.len()
            invariant
                frame_count == self.frames@.len(),
                l <= self.units@.len(),
                forall|a: int, b: int, d: int|
                    0 <= a < l ==> (#[trigger] self.unit_of(a, b, d) matches Some(u) ==> unit_fits(
                        u,
                        self.frames@.len(),
                    )),
            decreases self.units@.len() - l,
        {
            let mut c: usize = 0;
            while c < self.units[l].len()
                invariant
                    frame_count == self.frames@.len(),
                    l < self.units@.len(),
                    c <= self.units@[l as int]@.len(),
                    forall|a: int, b: int, d: int|
                        (0 <= a < l || (a == l && 0 <= b < c)) ==> (#[trigger] self.unit_of(a, b, d) matches Some(u)
                            ==> unit_fits(u, self.frames@.len())),
                decreases self.units@[l as int]@.len() - c,
            {
                let mut r: usize = 0;
                while r < self.units[l][c].len()
                    invariant
                        frame_count == self.frames@.len(),
                        l < self.units@.len(),
                        c < self.units@[l as int]@.len(),
                        r <= self.units@[l as int]@[c as int]@.len(),
                        forall|a: int, b: int, d: int|
                            (0 <= a < l || (a == l && 0 <= b < c) || (a == l && b == c && 0 <= d < r))
                                ==> (#[trigger] self.unit_of(a, b, d) matches Some(u) ==> unit_fits(
                                u,
                                self.frames@.len(),
                            )),
                    decreases self.units@[l as int]@[c as int]@.len() - r,
                {
                    if let Some(u) = self.units[l][c][r] {
                        if !Self::fits(u, frame_count) {
                            assert(self.unit_of(l as int, c as int, r as int) == Some(u));
                            return false;
                        }
                    }
                    r += 1;
                }
                c += 1;
            }
            l += 1;
        }
        true
    }

    /// Checks the data's well-formedness.
    pub fn is_valid(&self) -> (result: bool)
        ensures
            result == self.wf(),
    {
        let frame_count = self.frames.len();
        if frame_count < 1 || frame_count >= 0x8000_0000 {
            return false;
        }
        let mut i: usize = 0;
        while i < frame_count
            invariant
                frame_count == self.frames@.len(),
                i <= frame_count,
                forall|j: int| 0 <= j < i ==> #[trigger] self.frames@[j].spectrum < self.spectra@.len()
                    && -32768 <= self.frames@[j].amplitude <= 32767,
            decreases frame_count - i,
        {
            let frame = self.frames[i];
            if frame.spectrum >= self.spectra.len() || frame.amplitude < -32768 || frame.amplitude > 32767 {
                assert(!(self.frames@[i as int].spectrum < self.spectra@.len()) || !(-32768
                    <= self.frames@[i as int].amplitude <= 32767));
                return false;
            }
            i += 1;
        }
        let mut k: usize = 0;
        while k < 129
            invariant
                k <= 129,
                forall|j: int| 0 <= j < k ==> -32768 <= #[trigger] self.cosine[j] <= 32768,
            decreases 129 - k,
        {
            if self.cosine[k] < -32768 || self.cosine[k] > 32768 {
                assert(!(-32768 <= self.cosine[k as int] <= 32768));
                return false;
            }
            k += 1;
        }
        assert(forall|j: int| 0 <= j < self.frames@.len() ==> #[trigger] self.frames@[j].spectrum < self.spectra@.len());
        assert(forall|j: int| 0 <= j < self.frames@.len() ==> -32768 <= #[trigger] self.frames@[j].amplitude <= 32767) by {
            assert forall|j: int| 0 <= j < self.frames@.len() implies -32768 <= #[trigger] self.frames@[j].amplitude <= 32767 by {
                assert(self.frames@[j].spectrum < self.spectra@.len());
            }
        }
        self.units_fit()
    }
}

} // verus!
