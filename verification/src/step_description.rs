use vstd::arithmetic::div_mod::{
    lemma_div_is_ordered, lemma_div_nonincreasing, lemma_multiply_divide_le,
};
use vstd::prelude::*;

verus! {

/// Static geometry and tonal parameters of the calibration target: how many
/// patches it holds, how they are laid out, and which nominal tone each
/// patch carries.  Immutable once constructed; shared read-only by every
/// downstream stage.
#[derive(Clone, Copy, Debug)]
pub struct StepDescription {
    /// Total number of patches on the target.
    pub count: u32,
    /// Patches per row.
    pub columns: u32,
    /// Nominal rendered width of the patch area, in pixels.
    pub width: u32,
    /// Rendered height of the patch area: `rows * square_size`.
    pub height: u32,
    /// Full-scale tone value (white).
    pub max_tone: u32,
    /// Tone increment used when rendering the target: `ceil(max_tone / count)`.
    pub interval: u32,
    /// Nominal pixel edge length of one patch: `ceil(width / columns)`.
    pub square_size: u32,
    /// Number of patch rows: `ceil(count / columns)`.
    pub rows: u32,
    /// Tone step between consecutive target tones: `floor(max_tone / (count - 1))`.
    pub expected_interval: u16,
}

impl StepDescription {
    /// The derived fields carry their defining formulas, and every parameter
    /// stays within the limits of the 16-bit tone pipeline.
    pub open spec fn wf(self) -> bool {
        &&& 2 <= self.count <= 0x10000
        &&& 1 <= self.columns <= 0x10000
        &&& 1 <= self.width <= 0xFFFF
        &&& self.count - 1 <= self.max_tone <= 0xFFFF
        &&& self.interval == (self.max_tone + self.count - 1) as int / self.count as int
        &&& self.square_size == (self.width + self.columns - 1) as int / self.columns as int
        &&& self.rows == (self.count + self.columns - 1) as int / self.columns as int
        &&& self.height == self.rows * self.square_size
        &&& self.expected_interval == self.max_tone as int / (self.count - 1) as int
    }

    /// The sequence of nominal target tones: entry `i` is `i * expected_interval`.
    /// Strictly increasing, starts at `0`, and ends no higher than `max_tone`.
    pub open spec fn target_tones(self) -> Seq<u16> {
        Seq::new(self.count as nat, |i: int| (i * self.expected_interval) as u16)
    }

    /// Ceiling division `(a + b - 1) / b` never exceeds `a` for positive `a`, `b`.
    proof fn lemma_ceil_div_le(a: int, b: int)
        requires
            1 <= a,
            1 <= b,
        ensures
            (a + b - 1) / b <= a,
            0 <= (a + b - 1) / b,
    {
        assert(a + b - 1 <= b * a) by (nonlinear_arith)
            requires
                1 <= a,
                1 <= b,
        ;
        lemma_multiply_divide_le(a + b - 1, b, a);
        lemma_div_is_ordered(0, a + b - 1, b);
    }

    pub fn new(count: u32, columns: u32, width: u32, max_tone: u32) -> (r: StepDescription)
        requires
            2 <= count <= 0x10000,
            1 <= columns <= 0x10000,
            1 <= width <= 0xFFFF,
            count - 1 <= max_tone <= 0xFFFF,
        ensures
            r.count == count,
            r.columns == columns,
            r.width == width,
            r.max_tone == max_tone,
            r.wf(),
    {
        let interval = (max_tone + count - 1) / count;
        proof {
            Self::lemma_ceil_div_le(width as int, columns as int);
            Self::lemma_ceil_div_le(count as int, columns as int);
        }
        let square_size = (width + columns - 1) / columns;
        let rows = (count + columns - 1) / columns;
        assert(rows * square_size <= 0x10000 * 0xFFFF) by (nonlinear_arith)
            requires
                0 <= rows <= 0x10000,
                0 <= square_size <= 0xFFFF,
        ;
        let height = rows * square_size;
        proof {
            lemma_div_nonincreasing(max_tone as int, (count - 1) as int);
        }
        let expected_interval = (max_tone / (count - 1)) as u16;

        StepDescription {
            count,
            columns,
            width,
            height,
            max_tone,
            interval,
            square_size,
            rows,
            expected_interval,
        }
    }

    /// The nominal target tones, one per patch: `i * expected_interval` for
    /// `i` in `0..count`.
    pub fn input_values(&self) -> (r: Vec<u16>)
        requires
            self.wf(),
        ensures
            r@ == self.target_tones(),
            r@.len() == self.count,
            forall|i: int|
                0 <= i < self.count ==> r@[i] == i * self.expected_interval,
            forall|i: int|
                0 <= i && i + 1 < self.count ==> r@[i] < #[trigger] r@[i + 1],
    {
        let step: u32 = self.expected_interval as u32;
        let mut r: Vec<u16> = Vec::new();
        let mut i: u32 = 0;
        proof {
            // Each target tone i * step stays at or below max_tone.
            assert forall|j: int| 0 <= j < self.count implies
                0 <= #[trigger] (j * self.expected_interval) <= self.max_tone by {
                Self::lemma_target_in_range(*self, j);
            }
        }
        while i < self.count
            invariant
                self.wf(),
                i <= self.count,
                step == self.expected_interval,
                r@.len() == i,
                forall|j: int| 0 <= j < i ==> #[trigger] r@[j] == j * self.expected_interval,
                forall|j: int|
                    0 <= j < self.count
                        ==> 0 <= #[trigger] (j * self.expected_interval) <= self.max_tone,
            decreases self.count - i,
        {
            let tone: u32 = i * step;
            assert(tone == i * self.expected_interval);
            r.push(tone as u16);
            i = i + 1;
        }
        proof {
            assert(r@ =~= self.target_tones());
            assert forall|j: int| 0 <= j && j + 1 < self.count implies
                r@[j] < #[trigger] r@[j + 1] by {
                assert(1 <= self.expected_interval) by {
                    lemma_div_is_ordered(
                        (self.count - 1) as int,
                        self.max_tone as int,
                        (self.count - 1) as int,
                    );
                    vstd::arithmetic::div_mod::lemma_div_by_self((self.count - 1) as int);
                }
                assert(j * self.expected_interval + self.expected_interval
                    == (j + 1) * self.expected_interval) by (nonlinear_arith);
                assert(r@[j] == j * self.expected_interval);
                assert(r@[j + 1] == (j + 1) * self.expected_interval);
            }
        }
        r
    }

    /// Every target tone `i * expected_interval` lies in `[0, max_tone]`.
    proof fn lemma_target_in_range(self, i: int)
        requires
            self.wf(),
            0 <= i < self.count,
        ensures
            0 <= i * self.expected_interval <= self.max_tone,
    {
        let step = self.expected_interval as int;
        let c = (self.count - 1) as int;
        assert(0 <= i * step) by (nonlinear_arith)
            requires
                0 <= i,
                0 <= step,
        ;
        assert(i * step <= c * step) by (nonlinear_arith)
            requires
                i <= c,
                0 <= step,
        ;
        assert(c * step <= self.max_tone) by {
            vstd::arithmetic::div_mod::lemma_fundamental_div_mod(self.max_tone as int, c);
            assert(self.max_tone as int == c * (self.max_tone as int / c)
                + self.max_tone as int % c);
            vstd::arithmetic::div_mod::lemma_mod_bound(self.max_tone as int, c);
        }
    }
}

} // verus!
