//! Plain-value parts of the point cloud: colours and the ping span of a batch.
use vstd::prelude::*;

verus! {

/// An 8-bit RGB colour.
#[derive(Debug, Clone, Copy, PartialEq, Eq)]
pub struct LutColor {
    pub r: u8,
    pub g: u8,
    pub b: u8,
}

/// The smallest ping number, or `u32::MAX` when there is none.
pub open spec fn min_ping(s: Seq<u32>) -> u32
    decreases s.len(),
{
    if s.len() == 0 {
        u32::MAX
    } else {
        let m = min_ping(s.drop_last());
        if s.last() < m {
            s.last()
        } else {
            m
        }
    }
}

/// The largest ping number, or `0` when there is none.
pub open spec fn max_ping(s: Seq<u32>) -> u32
    decreases s.len(),
{
    if s.len() == 0 {
        0
    } else {
        let m = max_ping(s.drop_last());
        if s.last() > m {
            s.last()
        } else {
            m
        }
    }
}

/// The first and last ping of a batch of points, given the points' ping
/// numbers in order: `(u32::MAX, 0)` for an empty batch.
pub fn ping_bounds(pings: &[u32]) -> (r: (u32, u32))
    ensures
        r.0 == min_ping(pings@),
        r.1 == max_ping(pings@),
{
    let mut start = u32::MAX;
    let mut end = u32::MIN;
    let mut i: usize = 0;
    while i < pings.len()
        invariant
            i <= pings@.len(),
            start == min_ping(pings@.take(i as int)),
            end == max_ping(pings@.take(i as int)),
        decreases pings@.len() - i,
    {
        let p = pings[i];
        proof {
            assert(pings@.take(i as int + 1).drop_last() =~= pings@.take(i as int));
        }
        if p < start {
            start = p;
        }
        if p > end {
            end = p;
        }
        i += 1;
    }
    assert(pings@.take(pings@.len() as int) =~= pings@);
    (start, end)
}

/// The bounds found are attained and bound every ping: the first ping is the
/// least and the last ping the greatest of a non-empty batch.
pub proof fn law_ping_bounds_are_extremes(s: Seq<u32>)
    ensures
        forall|i: int| 0 <= i < s.len() ==> min_ping(s) <= #[trigger] s[i] <= max_ping(s),
        s.len() > 0 ==> s.contains(min_ping(s)) && s.contains(max_ping(s)),
    decreases s.len(),
{
    if s.len() > 0 {
        let t = s.drop_last();
        law_ping_bounds_are_extremes(t);
        assert forall|i: int| 0 <= i < s.len() implies min_ping(s) <= #[trigger] s[i] <= max_ping(
            s,
        ) by {
            if i < t.len() {
                assert(s[i] == t[i]);
            }
        }
        if t.len() > 0 {
            let a = choose|k: int| 0 <= k < t.len() && t[k] == min_ping(t);
            let b = choose|k: int| 0 <= k < t.len() && t[k] == max_ping(t);
            assert(s[a] == t[a]);
            assert(s[b] == t[b]);
        }
        assert(s[s.len() - 1] == s.last());
    }
}

} // verus!
