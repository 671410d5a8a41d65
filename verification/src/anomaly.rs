//! The integer parts of anomaly detection on executions: stuck states and drifting work heads.
use vstd::prelude::*;

verus! {

/// Whether the last `threshold` recent states all equal `current_state`; `false` when fewer
/// than `threshold` states were recorded.
pub open spec fn stuck(current_state: u32, recent: Seq<u32>, threshold: nat) -> bool {
    recent.len() >= threshold && forall|i: int|
        recent.len() - threshold <= i < recent.len() ==> #[trigger] recent[i] == current_state
}

/// The sum of the work-head movements in the window of `w` movements that starts at `i`.
pub open spec fn window_sum(m: Seq<(i32, i32)>, i: int, w: int) -> int
    decreases w,
{
    if w <= 0 {
        0
    } else {
        window_sum(m, i, w - 1) + m[i + w - 1].1
    }
}

/// The window sums, window by window, of the windows whose mean drift exceeds 5 in size
/// (compared exactly: the size of the sum exceeds five times the window).
pub open spec fn drifting_sums(m: Seq<(i32, i32)>, w: int, k: int) -> Seq<i64>
    decreases k,
{
    if k <= 0 {
        Seq::empty()
    } else {
        let s = window_sum(m, k - 1, w);
        drifting_sums(m, w, k - 1) + (if s > 5 * w || s < -5 * w {
            seq![s as i64]
        } else {
            Seq::empty()
        })
    }
}

/// Whether the machine is stuck: the last `threshold` recent states are all `current_state`.
pub fn detect_stuck(current_state: u32, recent_states: &[u32], threshold: usize) -> (r: bool)
    ensures
        r == stuck(current_state, recent_states@, threshold as nat),
{
    let n = recent_states.len();
    if n < threshold {
        return false;
    }
    let mut i: usize = n - threshold;
    while i < n
        invariant
            n == recent_states@.len(),
            n >= threshold,
            n - threshold <= i <= n,
            forall|j: int| n - threshold <= j < i ==> #[trigger] recent_states@[j] == current_state,
        decreases n - i,
    {
        if recent_states[i] != current_state {
            return false;
        }
        i = i + 1;
    }
    true
}

/// The sums of the windows of `window_size` consecutive movements whose mean work-head drift
/// exceeds 5 in size, window by window; nothing when there are fewer movements than the window.
pub fn drifting_windows(movements: &[(i32, i32)], window_size: usize) -> (r: Vec<i64>)
    requires
        movements@.len() < window_size || 0 < window_size <= u32::MAX,
    ensures
        r@ == (if movements@.len() < window_size {
            Seq::empty()
        } else {
            drifting_sums(movements@, window_size as int, movements@.len() - window_size + 1)
        }),
{
    let mut out: Vec<i64> = Vec::new();
    let n = movements.len();
    if n < window_size {
        return out;
    }
    let count = n - window_size + 1;
    let mut k: usize = 0;
    while k < count
        invariant
            n == movements@.len(),
            0 < window_size <= u32::MAX,
            window_size <= n,
            count == n - window_size + 1,
            k <= count,
            out@ == drifting_sums(movements@, window_size as int, k as int),
        decreases count - k,
    {
        let mut sum: i64 = 0;
        let mut j: usize = 0;
        while j < window_size
            invariant
                0 < window_size <= u32::MAX,
                k + window_size <= n,
                n == movements@.len(),
                j <= window_size,
                sum == window_sum(movements@, k as int, j as int),
                -0x8000_0000 * j <= sum <= 0x7FFF_FFFF * j,
            decreases window_size - j,
        {
            sum = sum + movements[k + j].1 as i64;
            j = j + 1;
        }
        let w = window_size as i64;
        if sum > 5 * w || sum < -5 * w {
            out.push(sum);
        }
        k = k + 1;
    }
    out
}

} // verus!
