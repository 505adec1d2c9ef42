use vstd::prelude::*;

verus! {

/// Left-to-right scan over the first `n` degrees: a later position takes
/// over only when its degree is strictly greater.
pub open spec fn scan_peak(d: Seq<int>, n: nat) -> int
    decreases n,
{
    if n <= 1 {
        0
    } else {
        let j = scan_peak(d, (n - 1) as nat);
        if d[n - 1] > d[j] {
            n - 1
        } else {
            j
        }
    }
}

/// The peak position of a path whose vertex degrees are `d`.
pub open spec fn peak_of(d: Seq<int>) -> int {
    scan_peak(d, d.len())
}

/// `j` holds a maximal degree, and no earlier position holds one as large.
pub open spec fn is_leftmost_max(d: Seq<int>, j: int) -> bool {
    &&& 0 <= j < d.len()
    &&& forall|i: int| 0 <= i < d.len() ==> d[i] <= d[j]
    &&& forall|i: int| 0 <= i < j ==> d[i] < d[j]
}

proof fn lemma_scan_peak(d: Seq<int>, n: nat)
    requires
        1 <= n <= d.len(),
    ensures
        0 <= scan_peak(d, n) < n,
        forall|i: int| 0 <= i < n ==> #[trigger] d[i] <= d[scan_peak(d, n)],
        forall|i: int| 0 <= i < scan_peak(d, n) ==> #[trigger] d[i] < d[scan_peak(d, n)],
    decreases n,
{
    if n > 1 {
        lemma_scan_peak(d, (n - 1) as nat);
    }
}

/// The peak of a non-empty path is the leftmost position of its largest
/// degree, and no other position is: with distinct degrees it is the position
/// of the unique maximum, and with a repeated maximum its first occurrence.
pub proof fn lemma_peak_is_leftmost_max(d: Seq<int>, j: int)
    requires
        d.len() > 0,
    ensures
        is_leftmost_max(d, peak_of(d)),
        is_leftmost_max(d, j) <==> j == peak_of(d),
{
    lemma_scan_peak(d, d.len());
    let k = peak_of(d);
    if is_leftmost_max(d, j) {
        if j < k {
            assert(d[j] < d[k]);
        } else if j > k {
            assert(d[k] < d[j]);
        }
    }
}

/// Position of the peak of a path, given the degree of each of its vertices.
pub fn peak_index(degrees: &Vec<usize>) -> (j: usize)
    requires
        degrees.len() > 0,
    ensures
        j == peak_of(degrees@.map_values(|x: usize| x as int)),
        is_leftmost_max(degrees@.map_values(|x: usize| x as int), j as int),
{
    let ghost d = degrees@.map_values(|x: usize| x as int);
    let mut j: usize = 0;
    let mut best: usize = degrees[0];
    let mut i: usize = 1;
    while i < degrees.len()
        invariant
            1 <= i <= degrees.len(),
            d == degrees@.map_values(|x: usize| x as int),
            j == scan_peak(d, i as nat),
            j < degrees.len(),
            best == degrees[j as int],
        decreases degrees.len() - i,
    {
        if degrees[i] > best {
            j = i;
            best = degrees[i];
        }
        i = i + 1;
    }
    proof {
        lemma_peak_is_leftmost_max(d, j as int);
    }
    j
}

} // verus!
