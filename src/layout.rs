use vstd::prelude::*;

use crate::geometry::Rect;

verus! {

/// Squared distance between the origins of two rectangles.
pub open spec fn origin_dist2(a: Rect, b: Rect) -> int {
    (a.x - b.x) * (a.x - b.x) + (a.y - b.y) * (a.y - b.y)
}

/// Index of the first rectangle of `s` whose origin is nearest to that of `a`.
pub open spec fn nearest_index(s: Seq<Rect>, a: Rect) -> int
    decreases s.len(),
{
    if s.len() <= 1 {
        0
    } else {
        let k = nearest_index(s.drop_last(), a);
        if origin_dist2(s.last(), a) < origin_dist2(s[k], a) {
            s.len() - 1
        } else {
            k
        }
    }
}

proof fn lemma_nearest_index(s: Seq<Rect>, a: Rect)
    requires
        s.len() >= 1,
    ensures
        0 <= nearest_index(s, a) < s.len(),
        forall|j: int|
            0 <= j < s.len() ==> origin_dist2(s[nearest_index(s, a)], a) <= origin_dist2(
                #[trigger] s[j],
                a,
            ),
    decreases s.len(),
{
    if s.len() > 1 {
        lemma_nearest_index(s.drop_last(), a);
        assert forall|j: int| 0 <= j < s.len() implies origin_dist2(s[nearest_index(s, a)], a)
            <= origin_dist2(#[trigger] s[j], a) by {
            if j < s.len() - 1 {
                assert(s.drop_last()[j] == s[j]);
            }
        }
    }
}

/// The arrangement of the displays in the global coordinate space.
#[derive(Clone, Debug)]
pub struct DisplayConfiguration {
    /// The rectangle of each display.
    pub sizes: Vec<Rect>,
    /// The bounding box of all displays.
    pub area: Rect,
}

pub open spec fn screen_for(sizes: Seq<Rect>, area: Rect, r: Rect) -> Rect {
    if sizes.len() == 0 {
        area
    } else {
        sizes[nearest_index(sizes, r)]
    }
}

fn dist2(a: &Rect, b: &Rect) -> (r: i128)
    ensures
        r == origin_dist2(*a, *b),
{
    let dx = a.x as i128 - b.x as i128;
    let dy = a.y as i128 - b.y as i128;
    assert(dx * dx <= 0x1_0000_0000 * 0x1_0000_0000) by (nonlinear_arith)
        requires
            -0x1_0000_0000 <= dx <= 0x1_0000_0000,
    ;
    assert(dy * dy <= 0x1_0000_0000 * 0x1_0000_0000) by (nonlinear_arith)
        requires
            -0x1_0000_0000 <= dy <= 0x1_0000_0000,
    ;
    assert(dx * dx >= 0) by (nonlinear_arith);
    assert(dy * dy >= 0) by (nonlinear_arith);
    dx * dx + dy * dy
}

impl DisplayConfiguration {
    /// The rectangle of the display whose origin is nearest to that of `area`
    /// (the first such display on a tie), or the whole area when there is no display.
    pub fn fill_screen(&self, area: &Rect) -> (r: Rect)
        ensures
            r == screen_for(self.sizes@, self.area, *area),
            self.sizes@.len() > 0 ==> (exists|k: int|
                0 <= k < self.sizes@.len() && r == #[trigger] self.sizes@[k]),
            forall|j: int|
                0 <= j < self.sizes@.len() ==> origin_dist2(r, *area) <= origin_dist2(
                    #[trigger] self.sizes@[j],
                    *area,
                ),
    {
        let n = self.sizes.len();
        if n == 0 {
            return self.area;
        }
        let mut best: usize = 0;
        let mut best_d = dist2(&self.sizes[0], area);
        let mut i: usize = 1;
        while i < n
            invariant
                1 <= i <= n,
                n == self.sizes@.len(),
                best == nearest_index(self.sizes@.subrange(0, i as int), *area),
                best < i,
                best_d == origin_dist2(self.sizes@[best as int], *area),
            decreases n - i,
        {
            let d = dist2(&self.sizes[i], area);
            let ghost p = self.sizes@.subrange(0, i + 1);
            assert(p.drop_last() =~= self.sizes@.subrange(0, i as int));
            proof {
                lemma_nearest_index(self.sizes@.subrange(0, i as int), *area);
            }
            assert(p[best as int] == self.sizes@[best as int]);
            if d < best_d {
                best = i;
                best_d = d;
            }
            i += 1;
        }
        assert(self.sizes@.subrange(0, n as int) =~= self.sizes@);
        proof {
            lemma_nearest_index(self.sizes@, *area);
        }
        self.sizes[best]
    }
}

} // verus!
