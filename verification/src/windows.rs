//! Index windows over a series of `n` points. Every window is a half-open
//! range `start..end` of positions.

use vstd::prelude::*;

verus! {

/// A half-open range `start..end` of positions.
#[derive(Clone, Copy, Debug, PartialEq, Eq, Structural)]
pub struct Window {
    pub start: usize,
    pub end: usize,
}

/// First position of the averaging window that ends at `i` and spans at most
/// `period` points.
pub open spec fn window_start(i: int, period: int) -> int {
    if i - (period - 1) < 0 {
        0
    } else {
        i - (period - 1)
    }
}

/// Where the tail of `tail_len` points before the last point begins: it is
/// empty where the series has fewer than `tail_len + 1` points.
pub open spec fn tail_start(n: int, tail_len: int) -> int {
    if tail_len + 1 > n {
        tail_end(n)
    } else {
        n - 1 - tail_len
    }
}

/// Where the tail ends: at the last point, which is not part of it.
pub open spec fn tail_end(n: int) -> int {
    if n == 0 {
        0
    } else {
        n - 1
    }
}

/// Where the history of the last `history_len` points begins.
pub open spec fn history_start(n: int, history_len: int) -> int {
    if history_len > n {
        0
    } else {
        n - history_len
    }
}

/// The averaging window for position `i`: the last `period` points up to and
/// including `i`, or all points so far while fewer than `period` exist.
pub fn sma_window(i: usize, period: usize) -> (w: Window)
    requires
        period >= 1,
        i < usize::MAX,
    ensures
        w.start == window_start(i as int, period as int),
        w.end == i + 1,
{
    let start: usize = if i >= period - 1 {
        i - (period - 1)
    } else {
        0
    };
    Window { start, end: i + 1 }
}

/// The averaging windows of a series of `n` points, one per point and in
/// the order of the points.
pub fn sma_windows(n: usize, period: usize) -> (windows: Vec<Window>)
    requires
        period >= 1,
    ensures
        windows.len() == n,
        forall|i: int|
            0 <= i < n ==> #[trigger] windows[i] == (Window {
                start: window_start(i, period as int) as usize,
                end: (i + 1) as usize,
            }),
{
    let mut windows: Vec<Window> = Vec::new();
    let mut i: usize = 0;
    while i < n
        invariant
            i <= n,
            period >= 1,
            windows.len() == i,
            forall|k: int|
                0 <= k < i ==> #[trigger] windows[k] == (Window {
                    start: window_start(k, period as int) as usize,
                    end: (k + 1) as usize,
                }),
        decreases n - i,
    {
        windows.push(sma_window(i, period));
        i += 1;
    }
    windows
}

/// The window of the `tail_len` points that come just before the last of `n`
/// points.
pub fn tail_window(n: usize, tail_len: usize) -> (w: Window)
    ensures
        w.start == tail_start(n as int, tail_len as int),
        w.end == tail_end(n as int),
        w.start <= w.end <= n,
{
    let end: usize = if n == 0 {
        0
    } else {
        n - 1
    };
    let start: usize = if tail_len >= n {
        end
    } else {
        n - 1 - tail_len
    };
    Window { start, end }
}

/// The window of the last `history_len` of `n` points.
pub fn history_window(n: usize, history_len: usize) -> (w: Window)
    ensures
        w.start == history_start(n as int, history_len as int),
        w.end == n,
        w.start <= w.end,
{
    let start: usize = if history_len > n {
        0
    } else {
        n - history_len
    };
    Window { start, end: n }
}

/// The first averaging window holds the first point alone, and every window
/// ends at its own position and is never longer than the period.
pub proof fn lemma_window_shape(i: int, period: int)
    requires
        0 <= i,
        1 <= period,
    ensures
        window_start(0, period) == 0,
        0 <= window_start(i, period) <= i,
        i + 1 - window_start(i, period) <= period,
        i + 1 >= period ==> i + 1 - window_start(i, period) == period,
{
}

/// A tail never holds more than `tail_len` points, and holds exactly that
/// many where the series is long enough; a history likewise with
/// `history_len`.
pub proof fn lemma_window_lengths(n: int, tail_len: int, history_len: int)
    requires
        0 <= n,
        0 <= tail_len,
        0 <= history_len,
    ensures
        tail_len + 1 <= n ==> tail_end(n) - tail_start(n, tail_len) == tail_len,
        tail_len + 1 > n ==> tail_end(n) - tail_start(n, tail_len) == 0,
        history_len <= n ==> n - history_start(n, history_len) == history_len,
        history_len > n ==> n - history_start(n, history_len) == n,
{
}

} // verus!
