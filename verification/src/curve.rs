use crate::raster::Raster16;
use vstd::arithmetic::div_mod::{lemma_div_is_ordered, lemma_fundamental_div_mod_converse};
use vstd::prelude::*;

verus! {

/// Adjacent calibration points carry strictly increasing target tones.
pub open spec fn strictly_increasing(s: Seq<(u16, u16)>) -> bool {
    forall|i: int| 0 <= i && i + 1 < s.len() ==> (#[trigger] s[i]).0 < s[i + 1].0
}

/// Adjacent order extends to any pair of indices.
pub proof fn lemma_increasing_global(s: Seq<(u16, u16)>, i: int, j: int)
    requires
        strictly_increasing(s),
        0 <= i < j < s.len(),
    ensures
        s[i].0 < s[j].0,
    decreases j - i,
{
    if i + 1 < j {
        lemma_increasing_global(s, i + 1, j);
    }
}

/// Linear interpolation between points `p` and `q` at `x`, rounded half-up:
/// the weighted average `(y_p * (x_q - x) + y_q * (x - x_p)) / (x_q - x_p)`
/// with the half unit added before flooring.
pub open spec fn interp(p: (u16, u16), q: (u16, u16), x: u16) -> int {
    (2 * (p.1 as int) * (q.0 - x) + 2 * (x - p.0) * (q.1 as int) + (q.0 - p.0)) / (2 * (q.0
        - p.0))
}

/// The index of the segment holding `x`: the greatest `i` with `x_i <= x`.
pub open spec fn segment_index(s: Seq<(u16, u16)>, x: u16) -> int
    decreases s.len(),
{
    if s.len() <= 1 {
        0
    } else if s.last().0 <= x {
        s.len() - 1
    } else {
        segment_index(s.drop_last(), x)
    }
}

/// Clamped evaluation of the curve at `x`: arguments at or below the first
/// key give the first point's value, at or above the last key the last
/// point's value, and in between the rounded linear interpolation of the
/// two surrounding points.
pub open spec fn eval_spec(s: Seq<(u16, u16)>, x: u16) -> int {
    if x <= s[0].0 {
        s[0].1 as int
    } else if x >= s.last().0 {
        s.last().1 as int
    } else {
        interp(s[segment_index(s, x)], s[segment_index(s, x) + 1], x)
    }
}

/// For `x` strictly inside the key range, the segment index brackets `x`.
proof fn lemma_segment_index_props(s: Seq<(u16, u16)>, x: u16)
    requires
        strictly_increasing(s),
        s.len() >= 1,
        s[0].0 <= x,
        x < s.last().0,
    ensures
        0 <= segment_index(s, x) < s.len() - 1,
        s[segment_index(s, x)].0 <= x,
        x < s[segment_index(s, x) + 1].0,
    decreases s.len(),
{
    let rest = s.drop_last();
    assert forall|k: int| 0 <= k && k + 1 < rest.len() implies (#[trigger] rest[k]).0 < rest[k
        + 1].0 by {
        assert(rest[k] == s[k] && rest[k + 1] == s[k + 1]);
    }
    if x < rest.last().0 {
        lemma_segment_index_props(rest, x);
        let i = segment_index(rest, x);
        assert(rest[i] == s[i] && rest[i + 1] == s[i + 1]);
    } else {
        assert(segment_index(s, x) == rest.len() - 1);
        assert(s[rest.len() - 1] == rest.last());
    }
}

/// The bracketing index is unique, so a found bracket is the segment index.
proof fn lemma_segment_index_unique(s: Seq<(u16, u16)>, x: u16, i: int)
    requires
        strictly_increasing(s),
        0 <= i,
        i + 1 < s.len(),
        s[i].0 <= x,
        x < s[i + 1].0,
    ensures
        segment_index(s, x) == i,
{
    if i > 0 {
        lemma_increasing_global(s, 0, i);
    }
    assert(s[0].0 <= x);
    if i + 1 < s.len() - 1 {
        lemma_increasing_global(s, i + 1, s.len() - 1);
    }
    assert(x < s.last().0);
    lemma_segment_index_props(s, x);
    let i2 = segment_index(s, x);
    if i2 < i {
        // x < s[i2 + 1].0 <= s[i].0 <= x is impossible.
        if i2 + 1 < i {
            lemma_increasing_global(s, i2 + 1, i);
        }
        assert(false);
    }
    if i2 > i {
        // x < s[i + 1].0 <= s[i2].0 <= x is impossible.
        if i + 1 < i2 {
            lemma_increasing_global(s, i + 1, i2);
        }
        assert(false);
    }
}

/// The rounded interpolation lies between the two points' values, and hits
/// `p`'s value exactly at `p`'s key.
proof fn lemma_interp_range(p: (u16, u16), q: (u16, u16), x: u16)
    requires
        p.0 <= x,
        x < q.0,
    ensures
        p.1 <= q.1 ==> p.1 <= interp(p, q, x) <= q.1,
        q.1 <= p.1 ==> q.1 <= interp(p, q, x) <= p.1,
        x == p.0 ==> interp(p, q, x) == p.1,
{
    let d = q.0 - p.0 as int;
    let t = x - p.0 as int;
    let u = q.0 - x as int;
    let num = 2 * (p.1 as int) * u + 2 * t * (q.1 as int) + d;
    let lo: int = if p.1 <= q.1 {
        p.1 as int
    } else {
        q.1 as int
    };
    let hi: int = if p.1 <= q.1 {
        q.1 as int
    } else {
        p.1 as int
    };
    assert(2 * lo * d + d <= num && num <= 2 * hi * d + d) by (nonlinear_arith)
        requires
            lo <= p.1 as int <= hi,
            lo <= q.1 as int <= hi,
            0 <= t,
            0 <= u,
            t + u == d,
            num == 2 * (p.1 as int) * u + 2 * t * (q.1 as int) + d,
    ;
    assert(2 * lo * d + d == lo * (2 * d) + d && 2 * hi * d + d == hi * (2 * d) + d)
        by (nonlinear_arith);
    lemma_fundamental_div_mod_converse(lo * (2 * d) + d, 2 * d, lo, d);
    lemma_fundamental_div_mod_converse(hi * (2 * d) + d, 2 * d, hi, d);
    lemma_div_is_ordered(2 * lo * d + d, num, 2 * d);
    lemma_div_is_ordered(num, 2 * hi * d + d, 2 * d);
    if x == p.0 {
        assert(num == (p.1 as int) * (2 * d) + d) by (nonlinear_arith)
            requires
                t == 0,
                u == d,
                num == 2 * (p.1 as int) * u + 2 * t * (q.1 as int) + d,
        ;
        lemma_fundamental_div_mod_converse(num, 2 * d, p.1 as int, d);
    }
}

/// Between two points on the diagonal, the rounded interpolation is the
/// identity.
proof fn lemma_interp_identity(p: (u16, u16), q: (u16, u16), x: u16)
    requires
        p.0 <= x,
        x < q.0,
        p.1 == p.0,
        q.1 == q.0,
    ensures
        interp(p, q, x) == x,
{
    let d = q.0 - p.0 as int;
    let num = 2 * (p.1 as int) * (q.0 - x) + 2 * (x - p.0) * (q.1 as int) + d;
    assert(num == (x as int) * (2 * d) + d) by (nonlinear_arith)
        requires
            num == 2 * (p.0 as int) * (q.0 - x) + 2 * (x - p.0) * (q.0 as int) + d,
            d == q.0 - p.0 as int,
    ;
    lemma_fundamental_div_mod_converse(num, 2 * d, x as int, d);
}

/// A continuous, clamped interpolation function through the calibration
/// points: the single artifact an analyze run hands to any number of later
/// apply runs.  Immutable once constructed.
#[derive(Clone, Debug)]
pub struct ToneCurve {
    points: Vec<(u16, u16)>,
}

impl View for ToneCurve {
    type V = Seq<(u16, u16)>;

    closed spec fn view(&self) -> Seq<(u16, u16)> {
        self.points@
    }
}

impl ToneCurve {
    /// At least one point, keys strictly increasing.
    pub open spec fn wf(self) -> bool {
        self@.len() >= 1 && strictly_increasing(self@)
    }

    /// Fits a curve through the calibration points: accepts exactly a
    /// nonempty sequence whose keys increase strictly.
    pub fn new(points: Vec<(u16, u16)>) -> (r: Option<ToneCurve>)
        ensures
            match r {
                Some(c) => c@ == points@ && c.wf(),
                None => points@.len() == 0 || !strictly_increasing(points@),
            },
    {
        if points.len() == 0 {
            return None;
        }
        let mut i: usize = 0;
        while i < points.len() - 1
            invariant
                points@.len() >= 1,
                i + 1 <= points@.len(),
                forall|k: int| 0 <= k < i ==> (#[trigger] points@[k]).0 < points@[k + 1].0,
            decreases points@.len() - i,
        {
            if points[i].0 >= points[i + 1].0 {
                proof {
                    assert(!strictly_increasing(points@));
                }
                return None;
            }
            i = i + 1;
        }
        Some(ToneCurve { points })
    }

    /// The calibration points, in key order.
    pub fn points(&self) -> (r: &Vec<(u16, u16)>)
        ensures
            r@ == self@,
    {
        &self.points
    }

    /// Evaluates the curve at `x`: the boundary value outside the key range,
    /// the rounded linear interpolation of the surrounding points inside it.
    pub fn evaluate_clamped(&self, x: u16) -> (y: u16)
        requires
            self.wf(),
        ensures
            y == eval_spec(self@, x),
    {
        let n: usize = self.points.len();
        let first: (u16, u16) = self.points[0];
        if x <= first.0 {
            return first.1;
        }
        let last: (u16, u16) = self.points[n - 1];
        if x >= last.0 {
            return last.1;
        }
        let mut i: usize = 0;
        while self.points[i + 1].0 <= x
            invariant
                self.wf(),
                n == self@.len(),
                2 <= n,
                0 <= i < n - 1,
                self@[i as int].0 <= x,
                x < self@[n - 1].0,
            decreases n - i,
        {
            i = i + 1;
            proof {
                // The scan cannot reach the last point: its key lies
                // strictly above x, while every visited key lies at or
                // below x.
                if i == n - 1 {
                    assert(false);
                }
            }
        }
        let p: (u16, u16) = self.points[i];
        let q: (u16, u16) = self.points[i + 1];
        proof {
            lemma_segment_index_unique(self@, x, i as int);
            lemma_interp_range(p, q, x);
        }
        let d: u64 = (q.0 - p.0) as u64;
        let u: u64 = (q.0 - x) as u64;
        let t: u64 = (x - p.0) as u64;
        assert(2 * (p.1 as u64) * u + 2 * t * (q.1 as u64) + d < 0x1_0000_0000_0000)
            by (nonlinear_arith)
            requires
                p.1 as u64 <= 0xFFFF,
                q.1 as u64 <= 0xFFFF,
                u <= 0xFFFF,
                t <= 0xFFFF,
                d <= 0xFFFF,
        ;
        let num: u64 = 2 * (p.1 as u64) * u + 2 * t * (q.1 as u64) + d;
        let y64: u64 = num / (2 * d);
        y64 as u16
    }
}

/// Applies the curve pointwise to a 16-bit raster: every pixel `p` becomes
/// the clamped, rounded curve value at `p`.  Defined and non-failing for
/// every 16-bit input because evaluation is always clamped.
pub fn apply(image: &Raster16, curve: &ToneCurve) -> (out: Raster16)
    requires
        image.wf(),
        curve.wf(),
    ensures
        out.wf(),
        out.width == image.width,
        out.height == image.height,
        forall|i: int|
            0 <= i < image.pixels@.len() ==> out.pixels@[i] == eval_spec(
                curve@,
                image.pixels@[i],
            ),
{
    let mut pixels: Vec<u16> = Vec::new();
    let mut i: usize = 0;
    while i < image.pixels.len()
        invariant
            curve.wf(),
            i <= image.pixels@.len(),
            pixels@.len() == i,
            forall|k: int|
                0 <= k < i ==> #[trigger] pixels@[k] == eval_spec(curve@, image.pixels@[k]),
        decreases image.pixels@.len() - i,
    {
        let y: u16 = curve.evaluate_clamped(image.pixels[i]);
        pixels.push(y);
        i = i + 1;
    }
    Raster16::from_pixels(image.width, image.height, pixels)
}

/// Exact passthrough: the curve hits every calibration point exactly.
pub proof fn lemma_curve_passthrough(s: Seq<(u16, u16)>, i: int)
    requires
        s.len() >= 1,
        strictly_increasing(s),
        0 <= i < s.len(),
    ensures
        eval_spec(s, s[i].0) == s[i].1,
{
    let x = s[i].0;
    if i == 0 {
    } else if i == s.len() - 1 {
        lemma_increasing_global(s, 0, i);
    } else {
        lemma_increasing_global(s, 0, i);
        lemma_increasing_global(s, i, s.len() - 1);
        lemma_segment_index_unique(s, x, i);
        lemma_interp_range(s[i], s[i + 1], x);
    }
}

/// Clamped evaluation: arguments below the first key give the first point's
/// value, arguments above the last key the last point's value.
pub proof fn lemma_clamped_ends(s: Seq<(u16, u16)>, x: u16)
    requires
        s.len() >= 1,
        strictly_increasing(s),
    ensures
        x <= s[0].0 ==> eval_spec(s, x) == s[0].1,
        x >= s.last().0 ==> eval_spec(s, x) == s.last().1,
{
    if x >= s.last().0 && x <= s[0].0 {
        if s.len() > 1 {
            lemma_increasing_global(s, 0, s.len() - 1);
        }
    }
}

/// A curve whose points all lie on the diagonal evaluates to the identity
/// everywhere on its key range.
pub proof fn lemma_eval_identity(s: Seq<(u16, u16)>, x: u16)
    requires
        s.len() >= 1,
        strictly_increasing(s),
        forall|j: int| 0 <= j < s.len() ==> (#[trigger] s[j]).1 == s[j].0,
        s[0].0 <= x <= s.last().0,
    ensures
        eval_spec(s, x) == x,
{
    if x <= s[0].0 {
    } else if x >= s.last().0 {
    } else {
        lemma_segment_index_props(s, x);
        let i = segment_index(s, x);
        lemma_interp_identity(s[i], s[i + 1], x);
    }
}

} // verus!
