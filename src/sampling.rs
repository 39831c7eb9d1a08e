use vstd::prelude::*;

verus! {

/// The exact fraction `num / den` of an angle, with `den > 0`.
#[derive(Clone, Copy, Debug, PartialEq, Eq, Structural)]
pub struct Ratio {
    pub num: i128,
    pub den: i128,
}

/// The fraction of the half-angle at which sample `i` of `n` lies on an arc:
/// straight ahead for a single sample, else evenly from `-1` to `1`.
pub open spec fn arc_ratio(n: int, i: int) -> Ratio {
    if n <= 1 {
        Ratio { num: 0, den: 1 }
    } else {
        Ratio { num: (2 * i - (n - 1)) as i128, den: (n - 1) as i128 }
    }
}

/// The fraction of a full turn at which sample `i` of `n` lies on a circle.
pub open spec fn circle_ratio(n: int, i: int) -> Ratio {
    Ratio { num: i as i128, den: n as i128 }
}

/// The directions of `n` samples spread over an arc, each as a fraction of
/// the arc's half-angle, in order from one end to the other.
pub fn arc_angles(n: usize) -> (r: Vec<Ratio>)
    ensures
        r@.len() == n,
        forall|i: int| 0 <= i < n ==> #[trigger] r@[i] == arc_ratio(n as int, i),
{
    let mut r: Vec<Ratio> = Vec::new();
    let mut i: usize = 0;
    while i < n
        invariant
            i <= n,
            r@.len() == i,
            forall|j: int| 0 <= j < i ==> #[trigger] r@[j] == arc_ratio(n as int, j),
        decreases n - i,
    {
        let q = if n <= 1 {
            Ratio { num: 0, den: 1 }
        } else {
            Ratio { num: 2 * (i as i128) - (n as i128 - 1), den: n as i128 - 1 }
        };
        r.push(q);
        i = i + 1;
    }
    r
}

/// The directions of `n` samples spread evenly round a full circle, each as
/// a fraction of a turn, starting straight ahead.
pub fn circle_angles(n: usize) -> (r: Vec<Ratio>)
    ensures
        r@.len() == n,
        forall|i: int| 0 <= i < n ==> #[trigger] r@[i] == circle_ratio(n as int, i),
{
    let mut r: Vec<Ratio> = Vec::new();
    let mut i: usize = 0;
    while i < n
        invariant
            i <= n,
            r@.len() == i,
            forall|j: int| 0 <= j < i ==> #[trigger] r@[j] == circle_ratio(n as int, j),
        decreases n - i,
    {
        r.push(Ratio { num: i as i128, den: n as i128 });
        i = i + 1;
    }
    r
}

/// An arc of one sample looks straight ahead; an arc of `k > 1` samples is
/// symmetric about straight ahead and reaches exactly both ends of the
/// half-angle, at fractions `-1` and `1`.
pub proof fn lemma_arc_shape(k: usize)
    requires
        k >= 1,
    ensures
        k == 1 ==> arc_ratio(k as int, 0).num == 0,
        k > 1 ==> arc_ratio(k as int, 0).num == -arc_ratio(k as int, 0).den,
        k > 1 ==> arc_ratio(k as int, k - 1).num == arc_ratio(k as int, k - 1).den,
        k > 1 ==> arc_ratio(k as int, 0).den > 0,
        forall|i: int|
            0 <= i < k ==> (#[trigger] arc_ratio(k as int, i)).num == -arc_ratio(k as int, k - 1 - i).num
                && arc_ratio(k as int, i).den == arc_ratio(k as int, k - 1 - i).den,
{
}

/// A circle of `k` samples starts straight ahead and steps by exactly one
/// `k`-th of a turn from each sample to the next.
pub proof fn lemma_circle_spacing(k: usize)
    requires
        k >= 1,
    ensures
        circle_ratio(k as int, 0).num == 0,
        forall|i: int|
            0 <= i < k - 1 ==> (#[trigger] circle_ratio(k as int, i + 1)).num - circle_ratio(k as int, i).num == 1
                && circle_ratio(k as int, i + 1).den == k && circle_ratio(k as int, i).den == k,
{
}

} // verus!
