use vstd::prelude::*;

verus! {

/// Worker count of the renderer, before the two extra threads that take
/// the leftover rows.
pub const THREAD_NUMBER: usize = 7;

/// Number of render threads: `THREAD_NUMBER` plus two.
pub const RENDER_THREADS: usize = 9;

/// Multiple of the section height at which the rows of thread `t` begin.
pub open spec fn beg_factor(t: int) -> int {
    if t == 0 { 0 }
    else if t == 1 { 3 }
    else if t == 2 { 6 }
    else if t == 3 { 10 }
    else if t == 4 { 13 }
    else if t == 5 { 16 }
    else if t == 6 { 18 }
    else if t == 7 { 21 }
    else { 24 }
}

/// Multiple of the section height at which the rows of thread `t < 8` end.
pub open spec fn end_factor(t: int) -> int {
    if t == 0 { 3 }
    else if t == 1 { 6 }
    else if t == 2 { 10 }
    else if t == 3 { 13 }
    else if t == 4 { 16 }
    else if t == 5 { 18 }
    else if t == 6 { 21 }
    else { 24 }
}

/// First row rendered by thread `t`, with sections `s` rows high.
pub open spec fn section_beg(t: int, s: int) -> int {
    s * beg_factor(t)
}

/// Row after the last one rendered by thread `t`; the last thread runs to
/// the bottom of the image.
pub open spec fn section_end(t: int, s: int, h: int) -> int {
    if t < 8 { s * end_factor(t) } else { h }
}

/// Height of one section: the image height divided by four times the
/// worker count.
pub fn section_line_num(image_height: usize) -> (s: usize)
    ensures
        s == image_height as nat / (THREAD_NUMBER * 4) as nat,
{
    image_height / (THREAD_NUMBER * 4)
}

/// The rows `beg..end` that render thread `thread_id` works on.
pub fn section_bounds(thread_id: usize, section_line_num: usize, image_height: usize) -> (r: (
    usize,
    usize,
))
    requires
        section_line_num * beg_factor(thread_id as int) <= usize::MAX,
        thread_id < 8 ==> section_line_num * end_factor(thread_id as int) <= usize::MAX,
    ensures
        r.0 == section_beg(thread_id as int, section_line_num as int),
        r.1 == section_end(thread_id as int, section_line_num as int, image_height as int),
{
    let s = section_line_num;
    let line_beg: usize = match thread_id {
        0 => 0,
        1 => s * 3,
        2 => s * 6,
        3 => s * 10,
        4 => s * 13,
        5 => s * 16,
        6 => s * 18,
        7 => s * 21,
        _ => s * 24,
    };
    let line_end: usize = match thread_id {
        0 => s * 3,
        1 => s * 6,
        2 => s * 10,
        3 => s * 13,
        4 => s * 16,
        5 => s * 18,
        6 => s * 21,
        7 => s * 24,
        _ => image_height,
    };
    (line_beg, line_end)
}

/// With sections of `image_height / 28` rows, the row ranges of the nine
/// render threads tile the image: the first starts at row 0, each starts
/// where the one before it ends, none runs backwards, and the last ends at
/// the bottom row. So every row is rendered by exactly one thread, and
/// concatenating the threads' output in thread order yields the rows in
/// order.
pub proof fn lemma_sections_tile_rows(image_height: nat)
    ensures
        ({
            let s = (image_height / (THREAD_NUMBER * 4) as nat) as int;
            &&& section_beg(0, s) == 0
            &&& forall|t: int|
                0 <= t < RENDER_THREADS - 1 ==> #[trigger] section_end(t, s, image_height as int)
                    == section_beg(t + 1, s)
            &&& forall|t: int|
                0 <= t < RENDER_THREADS ==> section_beg(t, s) <= #[trigger] section_end(
                    t,
                    s,
                    image_height as int,
                )
            &&& section_end(RENDER_THREADS - 1, s, image_height as int) == image_height
        }),
{
    let s = (image_height / (THREAD_NUMBER * 4) as nat) as int;
    let h = image_height as int;
    assert(0 <= s && s * 28 <= h) by (nonlinear_arith)
        requires
            s == h / 28,
            h >= 0,
    ;
    assert forall|t: int| 0 <= t < RENDER_THREADS implies section_beg(t, s) <= #[trigger] section_end(
        t,
        s,
        h,
    ) by {
        assert(beg_factor(t) <= 24);
        if t < 8 {
            assert(beg_factor(t) <= end_factor(t));
            assert(s * beg_factor(t) <= s * end_factor(t)) by (nonlinear_arith)
                requires
                    0 <= s,
                    beg_factor(t) <= end_factor(t),
            ;
        } else {
            assert(s * 24 <= h) by (nonlinear_arith)
                requires
                    s * 28 <= h,
                    0 <= s,
            ;
        }
    }
}

} // verus!
