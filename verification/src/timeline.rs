//! The playback timeline: frame stepping, table scrolling, the events that the
//! jump keys move between, and the eclipse-exit event.

use vstd::prelude::*;

verus! {

/// Frame `i` is the first sunlit frame after a shadowed one.
pub open spec fn is_sunlit_exit(flags: Seq<bool>, i: int) -> bool {
    1 <= i < flags.len() && !flags[i - 1] && flags[i]
}

/// Index of the first frame where the spacecraft transitions from shadow into
/// sunlight (the first `false -> true` edge), or `None` if there is no such edge.
pub fn first_sunlit_exit(flags: &[bool]) -> (r: Option<usize>)
    ensures
        match r {
            Some(i) => is_sunlit_exit(flags@, i as int) && forall|j: int|
                0 <= j < i ==> !#[trigger] is_sunlit_exit(flags@, j),
            None => forall|j: int| 0 <= j < flags@.len() ==> !#[trigger] is_sunlit_exit(flags@, j),
        },
{
    let mut prev: Option<bool> = None;
    let mut i: usize = 0;
    while i < flags.len()
        invariant
            i <= flags@.len(),
            i == 0 <==> prev is None,
            i > 0 ==> prev == Some(flags@[i - 1]),
            forall|j: int| 0 <= j < i ==> !#[trigger] is_sunlit_exit(flags@, j),
        decreases flags@.len() - i,
    {
        let lit = flags[i];
        if prev == Some(false) && lit {
            return Some(i);
        }
        prev = Some(lit);
        i = i + 1;
    }
    None
}

/// `v` clamped to `[lo, hi]`.
pub open spec fn clamped(v: int, lo: int, hi: int) -> int {
    if v < lo {
        lo
    } else if v > hi {
        hi
    } else {
        v
    }
}

/// A step lands on a frame of the timeline: the frame `delta` away from `cur`
/// when there is one, else the first frame when it would fall before the
/// start, and the last frame when it would fall past the end.
pub proof fn law_step_stays_on_the_timeline(cur: int, delta: int, frame_count: int)
    requires
        frame_count >= 1,
    ensures
        0 <= clamped(cur + delta, 0, frame_count - 1) < frame_count,
        0 <= cur + delta < frame_count ==> clamped(cur + delta, 0, frame_count - 1) == cur + delta,
        cur + delta < 0 ==> clamped(cur + delta, 0, frame_count - 1) == 0,
        cur + delta >= frame_count ==> clamped(cur + delta, 0, frame_count - 1) == frame_count - 1,
{
}

/// The frame index `delta` frames away from `cur`, clamped to the
/// `frame_count` frames of the timeline.
pub fn step(cur: usize, delta: i64, frame_count: usize) -> (r: usize)
    requires
        1 <= frame_count <= i64::MAX,
        cur <= i64::MAX,
        i64::MIN <= cur + delta <= i64::MAX,
    ensures
        r == clamped(cur + delta, 0, frame_count - 1),
{
    let target: i64 = cur as i64 + delta;
    let last: i64 = frame_count as i64 - 1;
    if target < 0 {
        0
    } else if target > last {
        last as usize
    } else {
        target as usize
    }
}

/// The whole-pass table's row offset after scrolling by `delta` rows, clamped
/// at the top (the bottom is clamped where the visible height is known). The
/// offset is taken as an `isize` (an offset above `isize::MAX` wraps round to
/// a negative one), and the sum must not overflow.
pub fn scroll_pass(offset: usize, delta: isize) -> (r: usize)
    requires
        isize::MIN <= (offset as isize) + delta <= isize::MAX,
    ensures
        r == (if (offset as isize) + delta < 0 {
            0
        } else {
            (offset as isize) + delta
        }),
{
    let moved: isize = offset as isize + delta;
    if moved < 0 {
        0
    } else {
        moved as usize
    }
}

/// How many rows of a table of `total` rows do not fit a view of `visible`
/// rows: the largest scroll offset.
pub open spec fn overflow_rows(total: int, visible: int) -> int {
    if total > visible {
        total - visible
    } else {
        0
    }
}

/// What a view of `visible` rows shows of the whole-pass table of `total`
/// rows scrolled to `offset`: the offset clamped so that the view does not run
/// past the last row, one past the last row shown, and whether the table
/// overflows the view at all.
pub fn pass_table_view(offset: usize, total: usize, visible: usize) -> (r: (usize, usize, bool))
    ensures
        r.0 == (if offset <= overflow_rows(total as int, visible as int) {
            offset as int
        } else {
            overflow_rows(total as int, visible as int)
        }),
        r.1 == (if r.0 + visible <= total {
            r.0 + visible
        } else {
            total as int
        }),
        r.2 <==> total > visible,
{
    let max_off = if total > visible {
        total - visible
    } else {
        0
    };
    let off = if offset <= max_off {
        offset
    } else {
        max_off
    };
    // With `off <= total - visible`, the view ends inside the table.
    let end = if total >= visible {
        off + visible
    } else {
        total
    };
    (off, end, max_off > 0)
}

/// The event marks of a pass, in the order they are gathered: the window
/// starts, the elevation peak, the minimum pointing error, the eclipse exit if
/// any, the user markers, and the reference time.
pub open spec fn marks_of(
    window_starts: Seq<usize>,
    elev_peak: usize,
    min_err: usize,
    eclipse_exit: Option<usize>,
    user: Seq<usize>,
    reference: usize,
) -> Seq<usize> {
    window_starts + seq![elev_peak, min_err] + (match eclipse_exit {
        Some(e) => seq![e],
        None => Seq::empty(),
    }) + user + seq![reference]
}

/// Gathers the frame indices of every event the jump keys stop at.
pub fn event_marks(
    window_starts: &[usize],
    elev_peak: usize,
    min_err: usize,
    eclipse_exit: Option<usize>,
    user: &[usize],
    reference: usize,
) -> (marks: Vec<usize>)
    ensures
        marks@ == marks_of(window_starts@, elev_peak, min_err, eclipse_exit, user@, reference),
{
    let mut marks: Vec<usize> = Vec::new();
    let mut i: usize = 0;
    while i < window_starts.len()
        invariant
            i <= window_starts@.len(),
            marks@ == window_starts@.take(i as int),
        decreases window_starts@.len() - i,
    {
        marks.push(window_starts[i]);
        i = i + 1;
        assert(marks@ =~= window_starts@.take(i as int));
    }
    assert(window_starts@.take(window_starts@.len() as int) =~= window_starts@);
    marks.push(elev_peak);
    marks.push(min_err);
    if let Some(e) = eclipse_exit {
        marks.push(e);
    }
    let ghost head = marks@;
    let mut j: usize = 0;
    while j < user.len()
        invariant
            j <= user@.len(),
            marks@ == head + user@.take(j as int),
        decreases user@.len() - j,
    {
        marks.push(user[j]);
        j = j + 1;
        assert(marks@ =~= head + user@.take(j as int));
    }
    assert(user@.take(user@.len() as int) =~= user@);
    marks.push(reference);
    assert(marks@ =~= marks_of(window_starts@, elev_peak, min_err, eclipse_exit, user@, reference));
    marks
}

/// The event marks list every event in its place: the window starts first, in
/// order; then the elevation peak and the minimum-error frame; then the eclipse
/// exit, when there is one; then every user marker, in order; and last the
/// reference frame, with nothing else among them. In particular every user
/// marker is a mark that the jump keys stop at.
pub proof fn law_marks_list_every_event(
    window_starts: Seq<usize>,
    elev_peak: usize,
    min_err: usize,
    eclipse_exit: Option<usize>,
    user: Seq<usize>,
    reference: usize,
)
    ensures
        ({
            let m = marks_of(window_starts, elev_peak, min_err, eclipse_exit, user, reference);
            let w = window_starts.len() as int;
            let u = w + 2 + (if eclipse_exit is Some {
                1int
            } else {
                0int
            });
            &&& m.len() == u + user.len() + 1
            &&& forall|i: int| 0 <= i < w ==> m[i] == window_starts[i]
            &&& m[w] == elev_peak
            &&& m[w + 1] == min_err
            &&& (eclipse_exit matches Some(x) ==> m[w + 2] == x)
            &&& forall|k: int| 0 <= k < user.len() ==> m[u + k] == user[k]
            &&& m[m.len() - 1] == reference
            &&& forall|k: int|
                0 <= k < user.len() ==> exists|j: int| 0 <= j < m.len() && m[j] == #[trigger] user[k]
        }),
{
    let m = marks_of(window_starts, elev_peak, min_err, eclipse_exit, user, reference);
    let w = window_starts.len() as int;
    let u = w + 2 + (if eclipse_exit is Some {
        1int
    } else {
        0int
    });
    assert forall|k: int| 0 <= k < user.len() implies exists|j: int|
        0 <= j < m.len() && m[j] == #[trigger] user[k] by {
        assert(m[u + k] == user[k]);
    }
}

/// `r` is where a forward jump from `cur` lands: the nearest mark after `cur`,
/// or `cur` itself when no mark lies after it.
pub open spec fn is_next_mark(marks: Seq<usize>, cur: int, r: int) -> bool {
    if exists|j: int| 0 <= j < marks.len() && marks[j] > cur {
        &&& exists|j: int| 0 <= j < marks.len() && marks[j] == r
        &&& r > cur
        &&& forall|j: int| 0 <= j < marks.len() && marks[j] > cur ==> r <= marks[j]
    } else {
        r == cur
    }
}

/// `r` is where a backward jump from `cur` lands: the nearest mark before
/// `cur`, or `cur` itself when no mark lies before it.
pub open spec fn is_prev_mark(marks: Seq<usize>, cur: int, r: int) -> bool {
    if exists|j: int| 0 <= j < marks.len() && marks[j] < cur {
        &&& exists|j: int| 0 <= j < marks.len() && marks[j] == r
        &&& r < cur
        &&& forall|j: int| 0 <= j < marks.len() && marks[j] < cur ==> r >= marks[j]
    } else {
        r == cur
    }
}

/// The frame that a jump to the next (`forward`) or previous event lands on.
pub fn jump_event(marks: &[usize], cur: usize, forward: bool) -> (r: usize)
    ensures
        forward ==> is_next_mark(marks@, cur as int, r as int),
        !forward ==> is_prev_mark(marks@, cur as int, r as int),
{
    let mut best: Option<usize> = None;
    let mut i: usize = 0;
    while i < marks.len()
        invariant
            i <= marks@.len(),
            match best {
                Some(b) => {
                    &&& exists|j: int| 0 <= j < i && marks@[j] == b
                    &&& forward ==> b > cur
                    &&& !forward ==> b < cur
                    &&& forall|j: int|
                        0 <= j < i ==> (forward && marks@[j] > cur ==> b <= marks@[j]) && (!forward
                            && marks@[j] < cur ==> b >= marks@[j])
                },
                None => forall|j: int|
                    0 <= j < i ==> (forward ==> marks@[j] <= cur) && (!forward ==> marks@[j] >= cur),
            },
        decreases marks@.len() - i,
    {
        let m = marks[i];
        let better = if forward {
            m > cur && match best {
                Some(b) => m < b,
                None => true,
            }
        } else {
            m < cur && match best {
                Some(b) => m > b,
                None => true,
            }
        };
        if better {
            best = Some(m);
        }
        i = i + 1;
    }
    match best {
        Some(b) => b,
        None => cur,
    }
}

/// Jumping back from the event reached by a forward jump from an event returns
/// to the event it started from.
pub proof fn lemma_back_undoes_forward(marks: Seq<usize>, cur: int, next: int, back: int)
    requires
        exists|j: int| 0 <= j < marks.len() && marks[j] == cur,
        is_next_mark(marks, cur, next),
        is_prev_mark(marks, next, back),
        next != cur,
    ensures
        back == cur,
{
    let k = choose|j: int| 0 <= j < marks.len() && marks[j] == cur;
    assert(marks[k] < next);
}

} // verus!
