use vstd::prelude::*;

verus! {

/// Point `i` lies strictly below both of its neighbours.
pub open spec fn is_valley(s: Seq<i64>, i: int) -> bool {
    s[i] < s[i - 1] && s[i] < s[i + 1]
}

/// `s` with the five points `i - 2..=i + 2` levelled to the height of point `i`.
pub open spec fn level_around(s: Seq<i64>, i: int) -> Seq<i64> {
    Seq::new(s.len(), |j: int| if i - 2 <= j <= i + 2 { s[i] } else { s[j] })
}

/// The heights after the points `1..k` have been visited in order, each valley
/// being levelled with its two neighbours on either side as soon as it is met;
/// `None` once a valley is met whose surroundings leave the terrain (at point 1
/// or at the last point but one).
pub open spec fn valley_pass(s: Seq<i64>, k: int) -> Option<Seq<i64>>
    decreases k,
{
    if k <= 1 {
        Some(s)
    } else {
        match valley_pass(s, k - 1) {
            None => None,
            Some(t) => {
                let i = k - 1;
                if is_valley(t, i) {
                    if 2 <= i && i + 2 < t.len() {
                        Some(level_around(t, i))
                    } else {
                        None
                    }
                } else {
                    Some(t)
                }
            },
        }
    }
}

/// The heights after every inner point (`1..len - 1`) has been visited.
pub open spec fn flattened_valleys(s: Seq<i64>) -> Option<Seq<i64>> {
    if s.len() == 0 {
        None
    } else {
        valley_pass(s, s.len() - 1)
    }
}

/// A pass that failed stays failed.
proof fn lemma_valley_pass_failure_stays(s: Seq<i64>, k: int, m: int)
    requires
        k <= m,
        valley_pass(s, k) is None,
    ensures
        valley_pass(s, m) is None,
    decreases m - k,
{
    if k < m {
        lemma_valley_pass_failure_stays(s, k, m - 1);
    }
}

/// Flattens the valleys of a terrain profile: the inner points are visited from
/// left to right, and a point lower than both of its neighbours (in the profile
/// as flattened so far) gives its height to the two points on either side.
/// Heights are given by their order keys.
///
/// `None` where the terrain generator indexes outside the profile: an empty
/// profile, or a valley at the second or at the last point but one.
pub fn flatten_valleys(heights: Vec<i64>) -> (r: Option<Vec<i64>>)
    ensures
        match r {
            Some(v) => flattened_valleys(heights@) == Some(v@),
            None => flattened_valleys(heights@) is None,
        },
{
    let ghost initial = heights@;
    let n: usize = heights.len();
    if n == 0 {
        return None;
    }
    let mut ys = heights;
    let mut i: usize = 1;
    while i < n - 1
        invariant
            n == initial.len(),
            n >= 1,
            1 <= i <= n - 1 || (n == 1 && i == 1),
            initial == heights@,
            valley_pass(initial, i as int) == Some(ys@),
            ys@.len() == n,
        decreases n - 1 - i,
    {
        let prev: i64 = ys[i - 1];
        let curr: i64 = ys[i];
        let next: i64 = ys[i + 1];
        if curr < prev && curr < next {
            if i < 2 || i + 2 >= n {
                proof {
                    assert(valley_pass(initial, i + 1) is None);
                    lemma_valley_pass_failure_stays(initial, i + 1, n - 1);
                }
                return None;
            }
            let ghost before = ys@;
            ys.set(i - 2, curr);
            ys.set(i - 1, curr);
            ys.set(i + 1, curr);
            ys.set(i + 2, curr);
            assert(ys@ =~= level_around(before, i as int));
        }
        i = i + 1;
    }
    Some(ys)
}

/// Every height that occurs in `t` also occurs in `s`.
pub open spec fn heights_drawn_from(t: Seq<i64>, s: Seq<i64>) -> bool {
    forall|j: int| 0 <= j < t.len() ==> s.contains(#[trigger] t[j])
}

/// Every height of a profile occurs in that profile.
proof fn lemma_drawn_from_itself(t: Seq<i64>, s: Seq<i64>)
    requires
        t == s,
    ensures
        heights_drawn_from(t, s),
{
    assert forall|j: int| 0 <= j < t.len() implies s.contains(#[trigger] t[j]) by {
        assert(s[j] == t[j]);
    }
}

/// Every partial pass only copies heights.
proof fn lemma_pass_copies_heights(s: Seq<i64>, k: int)
    requires
        valley_pass(s, k) is Some,
    ensures
        valley_pass(s, k)->0.len() == s.len(),
        heights_drawn_from(valley_pass(s, k)->0, s),
    decreases k,
{
    if k <= 1 {
        lemma_drawn_from_itself(s, s);
        assert(valley_pass(s, k) == Some(s));
    } else {
        lemma_pass_copies_heights(s, k - 1);
        let t = valley_pass(s, k - 1)->0;
        let i = k - 1;
        if is_valley(t, i) && 2 <= i && i + 2 < t.len() {
            let u = level_around(t, i);
            assert forall|j: int| 0 <= j < u.len() implies s.contains(#[trigger] u[j]) by {
                let src = if i - 2 <= j <= i + 2 { i } else { j };
                assert(u[j] == t[src]);
                assert(s.contains(t[src]));
            }
            assert(heights_drawn_from(u, s));
            assert(valley_pass(s, k) == Some(u));
        } else {
            assert(valley_pass(s, k) == Some(t));
        }
    }
}

/// Flattening valleys only copies heights: the profile keeps its length, and
/// every height in it was already in the profile before.
pub proof fn lemma_flattening_copies_heights(s: Seq<i64>)
    requires
        flattened_valleys(s) is Some,
    ensures
        flattened_valleys(s)->0.len() == s.len(),
        heights_drawn_from(flattened_valleys(s)->0, s),
{
    lemma_pass_copies_heights(s, s.len() - 1);
}

/// How visiting point `k` changes the profile `t` reached after visiting the
/// points before it, judged on `t` itself (the profile as flattened so far,
/// not the input):
/// - a point not strictly below both of its current neighbours changes nothing;
/// - a point strictly below both, with two points on each side, gives its
///   current height to those four points and changes nothing else;
/// - a point strictly below both without that room ends the pass with `None`.
pub proof fn lemma_visiting_a_point(s: Seq<i64>, k: int)
    requires
        1 <= k,
        k + 1 < s.len(),
        valley_pass(s, k) is Some,
    ensures
        valley_pass(s, k)->0.len() == s.len(),
        valley_pass(s, k)->0[k] >= valley_pass(s, k)->0[k - 1] || valley_pass(s, k)->0[k]
            >= valley_pass(s, k)->0[k + 1] ==> valley_pass(s, k + 1) == valley_pass(s, k),
        valley_pass(s, k)->0[k] < valley_pass(s, k)->0[k - 1] && valley_pass(s, k)->0[k]
            < valley_pass(s, k)->0[k + 1] && 2 <= k && k + 2 < s.len() ==> {
            &&& valley_pass(s, k + 1) is Some
            &&& valley_pass(s, k + 1)->0.len() == s.len()
            &&& forall|j: int|
                0 <= j < s.len() ==> #[trigger] valley_pass(s, k + 1)->0[j] == (if k - 2 <= j <= k
                    + 2 {
                    valley_pass(s, k)->0[k]
                } else {
                    valley_pass(s, k)->0[j]
                })
        },
        valley_pass(s, k)->0[k] < valley_pass(s, k)->0[k - 1] && valley_pass(s, k)->0[k]
            < valley_pass(s, k)->0[k + 1] && !(2 <= k && k + 2 < s.len()) ==> valley_pass(
            s,
            k + 1,
        ) is None,
{
    lemma_pass_copies_heights(s, k);
}

/// Once a valley has been levelled, the two points after it are not valleys
/// when their turn comes: they hold the valley's height, as their left
/// neighbours do.
pub proof fn lemma_levelled_valley_shadows_next_points(s: Seq<i64>, k: int)
    requires
        2 <= k,
        k + 4 < s.len(),
        valley_pass(s, k) is Some,
        valley_pass(s, k)->0[k] < valley_pass(s, k)->0[k - 1],
        valley_pass(s, k)->0[k] < valley_pass(s, k)->0[k + 1],
    ensures
        valley_pass(s, k + 2) == valley_pass(s, k + 1),
        valley_pass(s, k + 3) == valley_pass(s, k + 1),
{
    lemma_visiting_a_point(s, k);
    lemma_visiting_a_point(s, k + 1);
    lemma_visiting_a_point(s, k + 2);
}

} // verus!
