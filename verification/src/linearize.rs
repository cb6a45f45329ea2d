use crate::error::AnalyzeError;
use vstd::prelude::*;

verus! {

/// The index of the first table entry whose observed output lies strictly
/// above `needle`, scanning forward.
pub open spec fn first_above(h: Seq<(u16, u16)>, needle: u16) -> Option<int>
    decreases h.len(),
{
    if h.len() == 0 {
        None
    } else if h[0].1 > needle {
        Some(0int)
    } else {
        match first_above(h.drop_first(), needle) {
            Some(i) => Some(i + 1),
            None => None,
        }
    }
}

/// The index of the last table entry whose observed output lies strictly
/// below `needle` (the first one met when scanning backward).
pub open spec fn last_below(h: Seq<(u16, u16)>, needle: u16) -> Option<int>
    decreases h.len(),
{
    if h.len() == 0 {
        None
    } else if h.last().1 < needle {
        Some(h.len() - 1)
    } else {
        last_below(h.drop_last(), needle)
    }
}

/// The lower bound for `needle`: the target tone of the entry just before the
/// first one that overshoots, or `0` when the very first entry overshoots.
/// An entry whose output equals `needle` exactly is not "above", so the scan
/// passes it and the matching entry's own target tone becomes the bound.
pub open spec fn lower_bound(h: Seq<(u16, u16)>, needle: u16) -> Option<u16> {
    match first_above(h, needle) {
        None => None,
        Some(i) => if i == 0 {
            Some(0u16)
        } else {
            Some(h[i - 1].0)
        },
    }
}

/// The upper bound for `needle`: the target tone of the entry just after the
/// last one that undershoots, or full scale when the last entry undershoots.
pub open spec fn upper_bound(h: Seq<(u16, u16)>, needle: u16) -> Option<u16> {
    match last_below(h, needle) {
        None => None,
        Some(i) => if i == h.len() - 1 {
            Some(0xFFFFu16)
        } else {
            Some(h[i + 1].0)
        },
    }
}

/// The inverted tone for `needle`: the midpoint of the two bounds, whichever
/// bound exists when only one does, nothing when neither does.
pub open spec fn inverted(h: Seq<(u16, u16)>, needle: u16) -> Option<u16> {
    match (lower_bound(h, needle), upper_bound(h, needle)) {
        (None, None) => None,
        (Some(l), None) => Some(l),
        (None, Some(u)) => Some(u),
        (Some(l), Some(u)) => Some((((l as int) + (u as int)) / 2) as u16),
    }
}

/// What `first_above` finds: the least index that overshoots, if any.
proof fn lemma_first_above_props(h: Seq<(u16, u16)>, needle: u16)
    ensures
        match first_above(h, needle) {
            None => forall|j: int| 0 <= j < h.len() ==> (#[trigger] h[j]).1 <= needle,
            Some(i) => {
                &&& 0 <= i < h.len()
                &&& h[i].1 > needle
                &&& forall|j: int| 0 <= j < i ==> (#[trigger] h[j]).1 <= needle
            },
        },
    decreases h.len(),
{
    if h.len() == 0 {
    } else if h[0].1 > needle {
    } else {
        let rest = h.drop_first();
        lemma_first_above_props(rest, needle);
        match first_above(rest, needle) {
            None => {
                assert forall|j: int| 0 <= j < h.len() implies (#[trigger] h[j]).1 <= needle by {
                    if j > 0 {
                        assert(rest[j - 1] == h[j]);
                    }
                }
            },
            Some(i2) => {
                assert(rest[i2] == h[i2 + 1]);
                assert forall|j: int| 0 <= j < i2 + 1 implies (#[trigger] h[j]).1 <= needle by {
                    if j > 0 {
                        assert(rest[j - 1] == h[j]);
                    }
                }
            },
        }
    }
}

/// What `last_below` finds: the greatest index that undershoots, if any.
proof fn lemma_last_below_props(h: Seq<(u16, u16)>, needle: u16)
    ensures
        match last_below(h, needle) {
            None => forall|j: int| 0 <= j < h.len() ==> (#[trigger] h[j]).1 >= needle,
            Some(i) => {
                &&& 0 <= i < h.len()
                &&& h[i].1 < needle
                &&& forall|j: int| i < j < h.len() ==> (#[trigger] h[j]).1 >= needle
            },
        },
    decreases h.len(),
{
    if h.len() == 0 {
    } else if h.last().1 < needle {
    } else {
        let rest = h.drop_last();
        lemma_last_below_props(rest, needle);
        match last_below(rest, needle) {
            None => {
                assert forall|j: int| 0 <= j < h.len() implies (#[trigger] h[j]).1 >= needle by {
                    if j < h.len() - 1 {
                        assert(rest[j] == h[j]);
                    }
                }
            },
            Some(i2) => {
                assert(rest[i2] == h[i2]);
                assert forall|j: int| i2 < j < h.len() implies (#[trigger] h[j]).1 >= needle by {
                    if j < h.len() - 1 {
                        assert(rest[j] == h[j]);
                    }
                }
            },
        }
    }
}

/// A witnessed least overshooting index is what `first_above` returns.
proof fn lemma_first_above_exact(h: Seq<(u16, u16)>, needle: u16, i: int)
    requires
        0 <= i < h.len(),
        h[i].1 > needle,
        forall|j: int| 0 <= j < i ==> (#[trigger] h[j]).1 <= needle,
    ensures
        first_above(h, needle) == Some(i),
{
    lemma_first_above_props(h, needle);
    match first_above(h, needle) {
        None => {
            assert(h[i].1 <= needle);
        },
        Some(i2) => {
            if i2 < i {
                assert(h[i2].1 <= needle);
            }
            if i2 > i {
                assert(h[i].1 <= needle);
            }
        },
    }
}

/// When no entry overshoots, `first_above` finds nothing.
proof fn lemma_first_above_none(h: Seq<(u16, u16)>, needle: u16)
    requires
        forall|j: int| 0 <= j < h.len() ==> (#[trigger] h[j]).1 <= needle,
    ensures
        first_above(h, needle) is None,
{
    lemma_first_above_props(h, needle);
    match first_above(h, needle) {
        None => {},
        Some(i2) => {
            assert(h[i2].1 <= needle);
        },
    }
}

/// A witnessed greatest undershooting index is what `last_below` returns.
proof fn lemma_last_below_exact(h: Seq<(u16, u16)>, needle: u16, i: int)
    requires
        0 <= i < h.len(),
        h[i].1 < needle,
        forall|j: int| i < j < h.len() ==> (#[trigger] h[j]).1 >= needle,
    ensures
        last_below(h, needle) == Some(i),
{
    lemma_last_below_props(h, needle);
    match last_below(h, needle) {
        None => {
            assert(h[i].1 >= needle);
        },
        Some(i2) => {
            if i2 < i {
                assert(h[i].1 >= needle);
            }
            if i2 > i {
                assert(h[i2].1 >= needle);
            }
        },
    }
}

/// When no entry undershoots, `last_below` finds nothing.
proof fn lemma_last_below_none(h: Seq<(u16, u16)>, needle: u16)
    requires
        forall|j: int| 0 <= j < h.len() ==> (#[trigger] h[j]).1 >= needle,
    ensures
        last_below(h, needle) is None,
{
    lemma_last_below_props(h, needle);
    match last_below(h, needle) {
        None => {},
        Some(i2) => {
            assert(h[i2].1 >= needle);
        },
    }
}

/// Searches the `(target tone, observed output)` table for the input tone
/// that would have produced output `needle`.
///
/// A forward scan finds the first entry whose output lies strictly above
/// `needle` and takes the previous entry's target tone as the lower bound
/// (or `0` when the first entry already overshoots); a backward scan finds
/// the first entry whose output lies strictly below `needle` and takes the
/// entry just after it as the upper bound (or full scale when the last
/// entry undershoots).  The result is the midpoint of the bounds, or the
/// one bound that exists; when neither exists every output equals `needle`
/// and the search fails with `ToneOutOfRange`.  Because each direction is
/// resolved independently, local non-monotonicity in the observed data is
/// tolerated; a response that clips at either extreme clusters many needles
/// onto the same bounds (a documented limitation, kept as is).
pub fn find_closest_matching_input_density(haystack: &Vec<(u16, u16)>, needle: u16) -> (r: Result<
    u16,
    AnalyzeError,
>)
    ensures
        match r {
            Ok(v) => inverted(haystack@, needle) == Some(v),
            Err(e) => {
                &&& e == AnalyzeError::ToneOutOfRange
                &&& inverted(haystack@, needle) is None
            },
        },
{
    let ghost h = haystack@;
    let n: usize = haystack.len();

    let mut lower_bound_density: Option<u16> = None;
    let mut i: usize = 0;
    while i < n
        invariant_except_break
            h == haystack@,
            n == h.len(),
            i <= n,
            lower_bound_density is None,
            forall|j: int| 0 <= j < i ==> (#[trigger] h[j]).1 <= needle,
            i == n ==> first_above(h, needle) is None,
        ensures
            h == haystack@,
            n == h.len(),
            lower_bound_density == lower_bound(h, needle),
        decreases n - i,
    {
        if haystack[i].1 > needle {
            if i == 0 {
                lower_bound_density = Some(0);
            } else {
                lower_bound_density = Some(haystack[i - 1].0);
            }
            proof {
                lemma_first_above_exact(h, needle, i as int);
            }
            break ;
        }
        i = i + 1;
        proof {
            if i == n {
                lemma_first_above_none(h, needle);
            }
        }
    }

    let mut upper_bound_density: Option<u16> = None;
    let mut k: usize = n;
    while k > 0
        invariant_except_break
            h == haystack@,
            n == h.len(),
            k <= n,
            upper_bound_density is None,
            forall|j: int| k <= j < n ==> (#[trigger] h[j]).1 >= needle,
            k == 0 ==> last_below(h, needle) is None,
        ensures
            h == haystack@,
            n == h.len(),
            upper_bound_density == upper_bound(h, needle),
        decreases k,
    {
        let idx: usize = k - 1;
        if haystack[idx].1 < needle {
            if idx == n - 1 {
                upper_bound_density = Some(0xFFFF);
            } else {
                upper_bound_density = Some(haystack[idx + 1].0);
            }
            proof {
                lemma_last_below_exact(h, needle, idx as int);
            }
            break ;
        }
        k = k - 1;
        proof {
            if k == 0 {
                lemma_last_below_none(h, needle);
            }
        }
    }

    match (lower_bound_density, upper_bound_density) {
        (None, None) => Err(AnalyzeError::ToneOutOfRange),
        (Some(l), None) => Ok(l),
        (None, Some(u)) => Ok(u),
        (Some(l), Some(u)) => Ok((((l as u32) + (u as u32)) / 2) as u16),
    }
}

/// The lookup table pairing each target tone with the observed output at the
/// same patch index; extra entries of the longer sequence are dropped.
pub open spec fn table_of(inputs: Seq<u16>, samples: Seq<u16>) -> Seq<(u16, u16)> {
    Seq::new(
        vstd::math::min(inputs.len() as int, samples.len() as int) as nat,
        |i: int| (inputs[i], samples[i]),
    )
}

/// Builds the lookup table and inverts every target tone through it: entry
/// `i` of the result is `(target_i, inverted target_i)`.  Fails with
/// `ToneOutOfRange` as soon as one target tone has no usable bound.
pub fn linearize_inputs(input_values: &Vec<u16>, normalized_samples: &Vec<u16>) -> (r: Result<
    Vec<(u16, u16)>,
    AnalyzeError,
>)
    ensures
        match r {
            Ok(points) => {
                &&& points@.len() == input_values@.len()
                &&& forall|i: int|
                    0 <= i < points@.len() ==> (#[trigger] points@[i]).0 == input_values@[i]
                &&& forall|i: int|
                    0 <= i < points@.len() ==> inverted(
                        table_of(input_values@, normalized_samples@),
                        input_values@[i],
                    ) == Some((#[trigger] points@[i]).1)
            },
            Err(e) => {
                &&& e == AnalyzeError::ToneOutOfRange
                &&& exists|i: int|
                    0 <= i < input_values@.len() && inverted(
                        table_of(input_values@, normalized_samples@),
                        #[trigger] input_values@[i],
                    ) is None
            },
        },
{
    let m: usize = if input_values.len() <= normalized_samples.len() {
        input_values.len()
    } else {
        normalized_samples.len()
    };
    let mut table: Vec<(u16, u16)> = Vec::new();
    let mut i: usize = 0;
    while i < m
        invariant
            m <= input_values@.len(),
            m <= normalized_samples@.len(),
            i <= m,
            table@.len() == i,
            forall|k: int|
                0 <= k < i ==> #[trigger] table@[k] == (input_values@[k], normalized_samples@[k]),
        decreases m - i,
    {
        table.push((input_values[i], normalized_samples[i]));
        i = i + 1;
    }
    proof {
        assert(table@ =~= table_of(input_values@, normalized_samples@));
    }

    let mut points: Vec<(u16, u16)> = Vec::new();
    let mut j: usize = 0;
    while j < input_values.len()
        invariant
            table@ == table_of(input_values@, normalized_samples@),
            j <= input_values@.len(),
            points@.len() == j,
            forall|k: int| 0 <= k < j ==> (#[trigger] points@[k]).0 == input_values@[k],
            forall|k: int|
                0 <= k < j ==> inverted(table@, input_values@[k]) == Some(
                    (#[trigger] points@[k]).1,
                ),
        decreases input_values@.len() - j,
    {
        let e: u16 = input_values[j];
        match find_closest_matching_input_density(&table, e) {
            Ok(c) => {
                points.push((e, c));
            },
            Err(err) => {
                return Err(err);
            },
        }
        j = j + 1;
    }
    Ok(points)
}

/// When the observed outputs equal the target tones entry for entry, the
/// bracket search hands every target tone back unchanged: the calibration
/// is the identity.
pub proof fn lemma_invert_identity(t: Seq<(u16, u16)>, i: int)
    requires
        t.len() >= 2,
        forall|j: int| 0 <= j < t.len() ==> (#[trigger] t[j]).1 == t[j].0,
        forall|j: int, k: int| 0 <= j < k < t.len() ==> (#[trigger] t[j]).0 < (#[trigger] t[k]).0,
        0 <= i < t.len(),
    ensures
        inverted(t, t[i].0) == Some(t[i].0),
{
    let needle = t[i].0;
    let n = t.len() as int;

    if i < n - 1 {
        assert(t[i + 1].1 > needle);
        assert forall|j: int| 0 <= j < i + 1 implies (#[trigger] t[j]).1 <= needle by {
            if j < i {
                assert(t[j].0 < t[i].0);
            }
        }
        lemma_first_above_exact(t, needle, i + 1);
        assert(lower_bound(t, needle) == Some(t[i].0));
    } else {
        assert forall|j: int| 0 <= j < n implies (#[trigger] t[j]).1 <= needle by {
            if j < i {
                assert(t[j].0 < t[i].0);
            }
        }
        lemma_first_above_none(t, needle);
        assert(lower_bound(t, needle) is None);
    }

    if i > 0 {
        assert(t[i - 1].1 < needle);
        assert forall|j: int| i - 1 < j < n implies (#[trigger] t[j]).1 >= needle by {
            if j > i {
                assert(t[i].0 < t[j].0);
            }
        }
        lemma_last_below_exact(t, needle, i - 1);
        assert(upper_bound(t, needle) == Some(t[i].0));
    } else {
        assert forall|j: int| 0 <= j < n implies (#[trigger] t[j]).1 >= needle by {
            if j > i {
                assert(t[i].0 < t[j].0);
            }
        }
        lemma_last_below_none(t, needle);
        assert(upper_bound(t, needle) is None);
    }

    if 0 < i < n - 1 {
        assert(((t[i].0 as int) + (t[i].0 as int)) / 2 == t[i].0 as int);
    }
}

} // verus!
