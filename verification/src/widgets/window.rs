//! The window of a list: which items, of given heights, are shown in a viewport of a given height
//! so that the selected item is among them, moving as little as possible from the last window.
use vstd::prelude::*;

verus! {

/// The summed heights of the items `a..b`.
pub open spec fn heights_sum(hs: Seq<usize>, a: int, b: int) -> int
    decreases b - a,
{
    if b <= a {
        0
    } else {
        heights_sum(hs, a, b - 1) + hs[b - 1]
    }
}

/// The end of the longest run of items from `start` that fits in `max`, looking from `e` on.
pub open spec fn greedy_end(hs: Seq<usize>, start: int, e: int, max: int) -> int
    decreases hs.len() - e,
{
    if e >= hs.len() || heights_sum(hs, start, e + 1) > max {
        e
    } else {
        greedy_end(hs, start, e + 1, max)
    }
}

/// The first start from `s` on whose run up to `end` fits in `max`.
pub open spec fn min_start(hs: Seq<usize>, s: int, end: int, max: int) -> int
    decreases end - s,
{
    if s >= end || heights_sum(hs, s, end) <= max {
        s
    } else {
        min_start(hs, s + 1, end, max)
    }
}

/// The last end, from `e` down to `start`, whose run from `start` fits in `max`.
pub open spec fn max_end(hs: Seq<usize>, start: int, e: int, max: int) -> int
    decreases e - start,
{
    if e <= start || heights_sum(hs, start, e) <= max {
        e
    } else {
        max_end(hs, start, e - 1, max)
    }
}

/// The window `(start, end)` of items shown: first the longest run from `offset` that fits; if
/// the selected item lies after it, the run is moved forward until it ends with the selected
/// item; if the selected item lies before it, the run is moved back until it starts with it.
/// No selection counts as the first item, and a selection past the end as the last item.
pub open spec fn window(hs: Seq<usize>, selected: Option<usize>, offset: int, max: int) -> (int, int) {
    let sel: int = match selected {
        Some(s) => if s < hs.len() { s as int } else { hs.len() - 1 },
        None => 0,
    };
    let e1 = greedy_end(hs, offset, offset, max);
    let (s2, e2) = if sel >= e1 { (min_start(hs, offset, sel + 1, max), sel + 1) } else { (offset, e1) };
    if sel < s2 {
        (sel, max_end(hs, sel, e2, max))
    } else {
        (s2, e2)
    }
}

proof fn lemma_sum_split(hs: Seq<usize>, a: int, m: int, b: int)
    requires
        a <= m <= b,
    ensures
        heights_sum(hs, a, b) == heights_sum(hs, a, m) + heights_sum(hs, m, b),
    decreases b - m,
{
    if m < b {
        lemma_sum_split(hs, a, m, b - 1);
    }
}

pub(crate) proof fn lemma_sum_nonneg(hs: Seq<usize>, a: int, b: int)
    ensures
        heights_sum(hs, a, b) >= 0,
    decreases b - a,
{
    if b > a {
        lemma_sum_nonneg(hs, a, b - 1);
    }
}

/// Summed heights grow when the run grows on either side.
pub(crate) proof fn lemma_sum_mono(hs: Seq<usize>, a1: int, a2: int, b1: int, b2: int)
    requires
        a2 <= a1 <= b1 <= b2,
    ensures
        heights_sum(hs, a1, b1) <= heights_sum(hs, a2, b2),
{
    lemma_sum_split(hs, a2, a1, b2);
    lemma_sum_split(hs, a1, b1, b2);
    lemma_sum_nonneg(hs, a2, a1);
    lemma_sum_nonneg(hs, b1, b2);
}

proof fn lemma_greedy_end_bounds(hs: Seq<usize>, start: int, e: int, max: int)
    requires
        0 <= e <= hs.len(),
    ensures
        e <= greedy_end(hs, start, e, max) <= hs.len(),
    decreases hs.len() - e,
{
    if !(e >= hs.len() || heights_sum(hs, start, e + 1) > max) {
        lemma_greedy_end_bounds(hs, start, e + 1, max);
    }
}

proof fn lemma_min_start_bounds(hs: Seq<usize>, s: int, end: int, max: int)
    requires
        s <= end,
        max >= 0,
    ensures
        s <= min_start(hs, s, end, max) <= end,
        heights_sum(hs, min_start(hs, s, end, max), end) <= max,
    decreases end - s,
{
    if !(s >= end || heights_sum(hs, s, end) <= max) {
        lemma_min_start_bounds(hs, s + 1, end, max);
    }
}

proof fn lemma_max_end_bounds(hs: Seq<usize>, start: int, e: int, max: int)
    requires
        start <= e,
        max >= 0,
    ensures
        start <= max_end(hs, start, e, max) <= e,
    decreases e - start,
{
    if !(e <= start || heights_sum(hs, start, e) <= max) {
        lemma_max_end_bounds(hs, start, e - 1, max);
    }
}

/// Growing the run's end keeps the first fitting start at or after the one found before.
proof fn lemma_min_start_step(hs: Seq<usize>, s: int, e: int, e2: int, max: int)
    requires
        s <= e <= e2,
        max >= 0,
    ensures
        min_start(hs, s, e2, max) == min_start(hs, min_start(hs, s, e, max), e2, max),
    decreases e - s,
{
    if !(s >= e || heights_sum(hs, s, e) <= max) {
        lemma_sum_mono(hs, s, s, e, e2);
        lemma_min_start_step(hs, s + 1, e, e2, max);
    }
}

/// When the run from `s` ends no later than `e` once shrunk to fit, starting one item earlier
/// shrinks it from that end just as well as from `e`.
proof fn lemma_max_end_step(hs: Seq<usize>, s: int, e: int, max: int)
    requires
        1 <= s <= e,
        max >= 0,
    ensures
        max_end(hs, s - 1, e, max) == max_end(hs, s - 1, max_end(hs, s, e, max), max),
    decreases e - s,
{
    if !(e <= s || heights_sum(hs, s, e) <= max) {
        lemma_sum_mono(hs, s, s - 1, e, e);
        lemma_max_end_step(hs, s, e - 1, max);
    }
}

proof fn lemma_greedy_end_fits(hs: Seq<usize>, start: int, e: int, max: int)
    requires
        start <= e <= hs.len(),
        heights_sum(hs, start, e) <= max,
    ensures
        heights_sum(hs, start, greedy_end(hs, start, e, max)) <= max,
    decreases hs.len() - e,
{
    if !(e >= hs.len() || heights_sum(hs, start, e + 1) > max) {
        lemma_greedy_end_fits(hs, start, e + 1, max);
    }
}

proof fn lemma_min_start_least(hs: Seq<usize>, s: int, end: int, max: int, t: int)
    requires
        s <= t <= end,
        heights_sum(hs, t, end) <= max,
    ensures
        min_start(hs, s, end, max) <= t,
    decreases t - s,
{
    if !(s >= end || heights_sum(hs, s, end) <= max) {
        lemma_min_start_least(hs, s + 1, end, max, t);
    }
}

proof fn lemma_max_end_greatest(hs: Seq<usize>, start: int, e: int, max: int, t: int)
    requires
        start <= t <= e,
        heights_sum(hs, start, t) <= max,
    ensures
        t <= max_end(hs, start, e, max),
    decreases e - t,
{
    if !(e <= start || heights_sum(hs, start, e) <= max) {
        lemma_max_end_greatest(hs, start, e - 1, max, t);
    }
}

proof fn lemma_max_end_fits(hs: Seq<usize>, start: int, e: int, max: int)
    requires
        start <= e,
        max >= 0,
    ensures
        heights_sum(hs, start, max_end(hs, start, e, max)) <= max,
    decreases e - start,
{
    if !(e <= start || heights_sum(hs, start, e) <= max) {
        lemma_max_end_fits(hs, start, e - 1, max);
    }
}

/// The window fits in the viewport, and it shows the selected item whenever that item fits in
/// the viewport by itself.
pub proof fn lemma_window_shows_selected(hs: Seq<usize>, selected: Option<usize>, offset: int, max: int)
    requires
        hs.len() > 0,
        0 <= offset <= hs.len(),
        max >= 0,
    ensures
        ({
            let (s, e) = window(hs, selected, offset, max);
            let sel: int = match selected {
                Some(x) => if x < hs.len() { x as int } else { hs.len() - 1 },
                None => 0,
            };
            &&& 0 <= s <= e <= hs.len()
            &&& heights_sum(hs, s, e) <= max
            &&& hs[sel] <= max ==> s <= sel < e
        }),
{
    let sel: int = match selected {
        Some(x) => if x < hs.len() { x as int } else { hs.len() - 1 },
        None => 0,
    };
    reveal_with_fuel(heights_sum, 2);
    let e1 = greedy_end(hs, offset, offset, max);
    lemma_greedy_end_bounds(hs, offset, offset, max);
    lemma_greedy_end_fits(hs, offset, offset, max);
    assert(heights_sum(hs, sel, sel + 1) == hs[sel]);
    if sel >= e1 {
        lemma_min_start_bounds(hs, offset, sel + 1, max);
        let s2 = min_start(hs, offset, sel + 1, max);
        if hs[sel] <= max {
            lemma_min_start_least(hs, offset, sel + 1, max, sel);
        }
        if sel < s2 {
            lemma_max_end_bounds(hs, sel, sel + 1, max);
            lemma_max_end_fits(hs, sel, sel + 1, max);
        }
    } else if sel < offset {
        lemma_max_end_bounds(hs, sel, e1, max);
        lemma_max_end_fits(hs, sel, e1, max);
        if hs[sel] <= max {
            lemma_max_end_greatest(hs, sel, e1, max, sel + 1);
        }
    }
}

/// The window shown for a selection: the items `start..end`, with `start <= end`.
///
/// `hs` holds the heights of the items, `offset` is the start of the last window, `max` the height
/// of the viewport.
pub fn visible_bounds(hs: &Vec<usize>, selected: Option<usize>, offset: usize, max: usize) -> (r: (usize, usize))
    requires
        hs@.len() > 0,
        offset <= hs@.len(),
        heights_sum(hs@, 0, hs@.len() as int) <= usize::MAX,
    ensures
        r.0 == window(hs@, selected, offset as int, max as int).0,
        r.1 == window(hs@, selected, offset as int, max as int).1,
        r.0 <= r.1 <= hs@.len(),
{
    let len = hs.len();
    let ghost h = hs@;
    let ghost m = max as int;
    let mut start = offset;
    let mut end = offset;
    let mut height: usize = 0;
    proof {
        lemma_greedy_end_bounds(h, offset as int, offset as int, m);
    }
    while end < len
        invariant_except_break
            offset <= end <= len,
            greedy_end(h, offset as int, offset as int, m) == greedy_end(h, offset as int, end as int, m),
        invariant
            len == h.len(),
            h == hs@,
            m == max,
            heights_sum(h, 0, h.len() as int) <= usize::MAX,
            height == heights_sum(h, offset as int, end as int),
            height <= max,
        ensures
            end == greedy_end(h, offset as int, offset as int, m),
        decreases len - end,
    {
        proof {
            lemma_sum_mono(h, offset as int, 0, end + 1, h.len() as int);
        }
        if height + hs[end] > max {
            break;
        }
        height = height + hs[end];
        end = end + 1;
    }
    proof {
        lemma_greedy_end_bounds(h, offset as int, offset as int, m);
    }
    let ghost e1 = end as int;
    assert(min_start(h, offset as int, end as int, m) == offset);

    let selected_index = match selected {
        Some(s) => if s < len { s } else { len - 1 },
        None => 0,
    };
    while selected_index >= end
        invariant
            len == h.len(),
            h == hs@,
            heights_sum(h, 0, h.len() as int) <= usize::MAX,
            m == max,
            offset <= start <= end <= len,
            selected_index >= e1 ==> end <= selected_index + 1,
            selected_index < len,
            height == heights_sum(h, start as int, end as int),
            height <= max,
            start == min_start(h, offset as int, end as int, m),
            selected_index >= e1 ==> end >= e1,
            selected_index < e1 ==> end == e1 && start == offset,
        decreases selected_index + 1 - end,
    {
        proof {
            lemma_sum_mono(h, start as int, 0, end + 1, h.len() as int);
        }
        height = height + hs[end];
        end = end + 1;
        assert(height == heights_sum(h, start as int, end as int));
        proof {
            lemma_min_start_step(h, offset as int, (end - 1) as int, end as int, m);
        }
        while height > max
            invariant
                len == h.len(),
                h == hs@,
                heights_sum(h, 0, h.len() as int) <= usize::MAX,
                m == max,
                offset <= start <= end <= len,
                selected_index >= e1 ==> end <= selected_index + 1,
                selected_index < len,
                height == heights_sum(h, start as int, end as int),
                min_start(h, offset as int, end as int, m) == min_start(h, start as int, end as int, m),
            decreases end - start,
        {
            proof {
                lemma_sum_nonneg(h, start as int, end as int);
                if start == end {
                    assert(height == 0);
                }
                lemma_sum_split(h, start as int, start + 1, end as int);
                lemma_sum_nonneg(h, start + 1, end as int);
                assert(heights_sum(h, start as int, start + 1) == h[start as int]) by {
                    reveal_with_fuel(heights_sum, 2);
                }
                assert(min_start(h, start as int, end as int, m) == min_start(h, start + 1, end as int, m));
            }
            height = height - hs[start];
            start = start + 1;
        }
        assert(min_start(h, start as int, end as int, m) == start);
    }
    let ghost s2 = start as int;
    let ghost e2 = end as int;
    assert((s2, e2) == (if selected_index >= e1 { (min_start(h, offset as int, selected_index + 1, m), selected_index + 1) } else { (offset as int, e1) }));

    assert(max_end(h, start as int, end as int, m) == end);
    while selected_index < start
        invariant
            len == h.len(),
            h == hs@,
            heights_sum(h, 0, h.len() as int) <= usize::MAX,
            m == max,
            start <= end <= e2,
            selected_index < s2 ==> selected_index <= start,
            e2 <= len,
            height == heights_sum(h, start as int, end as int),
            height <= max,
            selected_index < s2 ==> end == max_end(h, start as int, e2, m),
            selected_index >= s2 ==> start == s2 && end == e2,
        decreases start,
    {
        proof {
            lemma_max_end_step(h, start as int, e2, m);
            lemma_sum_mono(h, start - 1, 0, end as int, h.len() as int);
            lemma_sum_split(h, start - 1, start as int, end as int);
            assert(heights_sum(h, start - 1, start as int) == h[start - 1]) by {
                reveal_with_fuel(heights_sum, 2);
            }
        }
        start = start - 1;
        height = height + hs[start];
        proof {
            lemma_max_end_bounds(h, start as int, end as int, m);
        }
        while height > max
            invariant
                len == h.len(),
                h == hs@,
                heights_sum(h, 0, h.len() as int) <= usize::MAX,
                m == max,
                selected_index <= start <= end <= e2,
                e2 <= len,
                height == heights_sum(h, start as int, end as int),
                max_end(h, start as int, e2, m) == max_end(h, start as int, end as int, m),
            decreases end - start,
        {
            proof {
                lemma_sum_nonneg(h, start as int, end as int);
                if start == end {
                    assert(height == 0);
                }
                lemma_sum_split(h, start as int, end - 1, end as int);
                lemma_sum_nonneg(h, start as int, end - 1);
                assert(heights_sum(h, end - 1, end as int) == h[end - 1]) by {
                    reveal_with_fuel(heights_sum, 2);
                }
                assert(max_end(h, start as int, end as int, m) == max_end(h, start as int, end - 1, m));
            }
            end = end - 1;
            height = height - hs[end];
        }
        assert(max_end(h, start as int, end as int, m) == end);
    }
    (start, end)
}

} // verus!
