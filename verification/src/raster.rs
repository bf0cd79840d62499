use vstd::prelude::*;

verus! {

use crate::error::CoreError;
use vstd::arithmetic::div_mod::{
    lemma_div_is_ordered, lemma_div_multiples_vanish, lemma_div_pos_is_pos,
    lemma_mod_bound,
};
use vstd::arithmetic::mul::{lemma_mul_inequality, lemma_mul_is_commutative};
use vstd::math::max;
use vstd::slice::slice_index_get;
use vstd::slice::slice_subrange;

/// Absolute amplitude of one sample, clamped to `i16::MAX` so that the
/// minimum representable sample keeps a defined value in the 16-bit domain.
pub open spec fn amp(x: i16) -> int {
    if x == i16::MIN {
        i16::MAX as int
    } else if x < 0 {
        -(x as int)
    } else {
        x as int
    }
}

/// Largest clamped absolute amplitude over a chunk; zero for an empty chunk.
pub open spec fn peak(s: Seq<i16>) -> int
    decreases s.len(),
{
    if s.len() == 0 {
        0
    } else {
        max(peak(s.drop_last()), amp(s.last()))
    }
}

/// The peak stays within the clamped 16-bit amplitude domain.
pub proof fn lemma_peak_bounds(s: Seq<i16>)
    ensures
        0 <= peak(s) <= i16::MAX as int,
    decreases s.len(),
{
    if s.len() > 0 {
        lemma_peak_bounds(s.drop_last());
    }
}

/// Extending a prefix by one sample takes its peak to the maximum with that
/// sample's amplitude.
pub proof fn lemma_peak_step(s: Seq<i16>, k: int)
    requires
        0 <= k < s.len(),
    ensures
        peak(s.subrange(0, k + 1)) == max(peak(s.subrange(0, k)), amp(s[k])),
{
    assert(s.subrange(0, k + 1).drop_last() =~= s.subrange(0, k));
    assert(s.subrange(0, k + 1).last() == s[k]);
}

/// Lower sample index of column `i` when `len` samples are split into
/// `width` chunks with remainder-distributed boundaries.
pub open spec fn chunk_lo(len: int, width: int, i: int) -> int {
    i * len / width
}

/// The samples assigned to column `i`.
pub open spec fn chunk_of(s: Seq<i16>, width: int, i: int) -> Seq<i16> {
    s.subrange(chunk_lo(s.len() as int, width, i), chunk_lo(s.len() as int, width, i + 1))
}

/// Chunk boundaries are ordered, start at 0, and end at `len`.
pub proof fn lemma_chunk_lo_bounds(len: int, width: int, i: int, j: int)
    requires
        0 <= len,
        1 <= width,
        0 <= i <= j <= width,
    ensures
        0 <= chunk_lo(len, width, i) <= chunk_lo(len, width, j) <= len,
        chunk_lo(len, width, 0) == 0,
        chunk_lo(len, width, width) == len,
{
    lemma_mul_inequality(0, i, len);
    lemma_mul_inequality(i, j, len);
    lemma_mul_inequality(j, width, len);
    lemma_div_pos_is_pos(i * len, width);
    lemma_div_is_ordered(i * len, j * len, width);
    lemma_div_is_ordered(j * len, width * len, width);
    lemma_mul_is_commutative(width, len);
    lemma_div_multiples_vanish(len, width);
}

/// Splits `input` into `count` contiguous chunks whose boundaries are
/// `i * len / count`, so that any remainder is distributed evenly over the
/// columns instead of falling into one short final chunk.
pub fn get_chunks<'a, T>(input: &'a [T], count: usize) -> (chunks: Vec<&'a [T]>)
    requires
        1 <= count,
        count * input@.len() <= usize::MAX,
    ensures
        chunks@.len() == count,
        forall|i: int|
            0 <= i < count ==> (#[trigger] chunks@[i])@ == input@.subrange(
                chunk_lo(input@.len() as int, count as int, i),
                chunk_lo(input@.len() as int, count as int, i + 1),
            ),
{
    let len = input.len();
    let mut chunks: Vec<&[T]> = Vec::with_capacity(count);
    let mut i: usize = 0;
    while i < count
        invariant
            1 <= count,
            i <= count,
            len == input@.len(),
            count * len <= usize::MAX,
            chunks@.len() == i,
            forall|t: int|
                0 <= t < i ==> (#[trigger] chunks@[t])@ == input@.subrange(
                    chunk_lo(len as int, count as int, t),
                    chunk_lo(len as int, count as int, t + 1),
                ),
        decreases count - i,
    {
        proof {
            lemma_mul_inequality(i as int, count as int, len as int);
            lemma_mul_inequality(i + 1, count as int, len as int);
            lemma_chunk_lo_bounds(len as int, count as int, i as int, i + 1);
        }
        let lo = i * len / count;
        let hi = (i + 1) * len / count;
        let c = slice_subrange(input, lo, hi);
        chunks.push(c);
        i = i + 1;
    }
    chunks
}

/// Height of the bar drawn for chunk `s` in a band of `h` rows: the peak
/// scaled linearly against the maximum representable amplitude.
pub open spec fn bar_of(s: Seq<i16>, h: int) -> int {
    peak(s) * h / (i16::MAX as int)
}

/// First row of the bar: the bar is centered vertically, with the spare gap
/// row (when `h - bar` is odd) going below the bar.
pub open spec fn bar_top(s: Seq<i16>, h: int) -> int {
    (h - bar_of(s, h)) / 2
}

/// Whether row `j` of a band of `h` rows is part of the bar for chunk `s`:
/// a single contiguous run of `bar_of(s, h)` rows starting at `bar_top`.
pub open spec fn col_on(s: Seq<i16>, h: int, j: int) -> bool {
    bar_top(s, h) <= j < bar_top(s, h) + bar_of(s, h)
}

/// Each column's bar is a contiguous, vertically centered run of "on" rows
/// whose length is the chunk's scaled peak and never exceeds the band: a
/// silent chunk gives an empty run and a full-scale peak fills the band.
pub proof fn lemma_column_bar(s: Seq<i16>, h: int)
    requires
        0 <= h,
    ensures
        0 <= bar_of(s, h) <= h,
        0 <= bar_top(s, h),
        bar_top(s, h) + bar_of(s, h) <= h,
        forall|j: int| col_on(s, h, j) <==> bar_top(s, h) <= j < bar_top(s, h) + bar_of(s, h),
        peak(s) == 0 ==> bar_of(s, h) == 0,
        peak(s) == i16::MAX as int ==> bar_of(s, h) == h,
{
    lemma_peak_bounds(s);
    lemma_mul_inequality(0, peak(s), h);
    lemma_mul_inequality(peak(s), i16::MAX as int, h);
    lemma_div_pos_is_pos(peak(s) * h, i16::MAX as int);
    lemma_div_is_ordered(peak(s) * h, (i16::MAX as int) * h, i16::MAX as int);
    lemma_mul_is_commutative(i16::MAX as int, h);
    lemma_div_multiples_vanish(h, i16::MAX as int);
    assert(0int * h == 0) by (nonlinear_arith);
    lemma_div_pos_is_pos(0, i16::MAX as int);
}

/// Views of a sequence of sample chunks.
pub open spec fn chunk_views(cs: Seq<&[i16]>) -> Seq<Seq<i16>> {
    Seq::new(cs.len(), |i: int| cs[i]@)
}

/// Cell `k` of a row-major `width`-column buffer after one channel's band of
/// `ch` rows beginning at absolute row `row0` has been drawn over a cell
/// that held `prev`: bar pixels become `u32::MAX`, every other cell keeps
/// its previous value.
pub open spec fn band_cell(
    chunks: Seq<Seq<i16>>,
    width: int,
    row0: int,
    ch: int,
    k: int,
    prev: u32,
) -> u32 {
    let col = k % width;
    let row = k / width;
    if row0 <= row < row0 + ch && col_on(chunks[col], ch, row - row0) {
        u32::MAX
    } else {
        prev
    }
}

/// Largest clamped absolute amplitude in `chunk`.
fn chunk_peak(chunk: &[i16]) -> (m: u16)
    ensures
        m as int == peak(chunk@),
{
    let n = chunk.len();
    let mut m: u16 = 0;
    let mut t: usize = 0;
    while t < n
        invariant
            n == chunk@.len(),
            t <= n,
            m as int == peak(chunk@.subrange(0, t as int)),
            m <= i16::MAX as u16,
        decreases n - t,
    {
        let x: i16 = *slice_index_get(chunk, t);
        let a: u16 = if x == i16::MIN {
            i16::MAX as u16
        } else if x < 0 {
            (-x) as u16
        } else {
            x as u16
        };
        proof {
            lemma_peak_step(chunk@, t as int);
        }
        if a > m {
            m = a;
        }
        t = t + 1;
    }
    proof {
        assert(chunk@.subrange(0, n as int) =~= chunk@);
    }
    m
}

/// Draws one channel's peak bars into the band of `ch` rows beginning at
/// absolute row `row0` of the row-major buffer `output`, one bar per chunk
/// of `input`; writes only bar pixels and leaves every other cell as it was.
pub fn render_channel(input: &[&[i16]], output: &mut Vec<u32>, row0: usize, ch: usize)
    requires
        1 <= input@.len(),
        (row0 + ch) * input@.len() <= old(output)@.len(),
        ch * (i16::MAX as int) <= usize::MAX,
    ensures
        final(output)@.len() == old(output)@.len(),
        forall|k: int|
            0 <= k < final(output)@.len() ==> #[trigger] final(output)@[k] == band_cell(
                chunk_views(input@),
                input@.len() as int,
                row0 as int,
                ch as int,
                k,
                old(output)@[k],
            ),
{
    let width = input.len();
    let olen = output.len();
    let ghost chunks = chunk_views(input@);
    let mut i: usize = 0;
    while i < width
        invariant
            1 <= width,
            width == input@.len(),
            chunks == chunk_views(input@),
            i <= width,
            olen == output@.len(),
            (row0 + ch) * width <= output@.len(),
            ch * (i16::MAX as int) <= usize::MAX,
            output@.len() == old(output)@.len(),
            forall|k: int|
                0 <= k < output@.len() ==> #[trigger] output@[k] == (
                if row0 <= k / (width as int) < row0 + ch && k % (width as int) < i && col_on(
                    chunks[k % (width as int)],
                    ch as int,
                    k / (width as int) - row0,
                ) {
                    u32::MAX
                } else {
                    old(output)@[k]
                }),
        decreases width - i,
    {
        let chunk: &[i16] = *slice_index_get(input, i);
        let m: u16 = chunk_peak(chunk);
        proof {
            lemma_peak_bounds(chunk@);
            lemma_column_bar(chunk@, ch as int);
            lemma_mul_inequality(m as int, i16::MAX as int, ch as int);
            lemma_mul_is_commutative(m as int, ch as int);
            lemma_mul_is_commutative(i16::MAX as int, ch as int);
        }
        let bar: usize = (m as usize) * ch / (i16::MAX as usize);
        assert(bar == bar_of(chunk@, ch as int)) by {
            lemma_mul_is_commutative(m as int, ch as int);
        }
        let top: usize = (ch - bar) / 2;
        assert(top == bar_top(chunk@, ch as int));
        let mut j: usize = top;
        while j < top + bar
            invariant
                1 <= width,
                width == input@.len(),
                chunks == chunk_views(input@),
                i < width,
                olen == output@.len(),
                (row0 + ch) * width <= output@.len(),
                output@.len() == old(output)@.len(),
                chunk@ == chunks[i as int],
                bar == bar_of(chunk@, ch as int),
                top == bar_top(chunk@, ch as int),
                top <= j <= top + bar,
                top + bar <= ch,
                forall|k: int|
                    0 <= k < output@.len() ==> #[trigger] output@[k] == (
                    if row0 <= k / (width as int) < row0 + ch && (k % (width as int) < i || (k % (
                    width as int) == i && top <= k / (width as int) - row0 < j)) && col_on(
                        chunks[k % (width as int)],
                        ch as int,
                        k / (width as int) - row0,
                    ) {
                        u32::MAX
                    } else {
                        old(output)@[k]
                    }),
            decreases top + bar - j,
        {
            proof {
                assert(row0 + ch <= (row0 + ch) * (width as int)) by (nonlinear_arith)
                    requires
                        1 <= width as int,
                        0 <= row0 + ch,
                ;
                assert((row0 + j) * (width as int) + i < (row0 + ch) * (width as int))
                    by (nonlinear_arith)
                    requires
                        0 <= row0,
                        0 <= j,
                        (j as int) < ch as int,
                        0 <= i,
                        (i as int) < width as int,
                ;
            }
            let idx = (row0 + j) * width + i;
            output.set(idx, u32::MAX);
            proof {
                vstd::arithmetic::div_mod::lemma_fundamental_div_mod_converse(
                    idx as int,
                    width as int,
                    row0 + j,
                    i as int,
                );
                assert forall|k: int| 0 <= k < output@.len() implies output@[k] == (
                if row0 <= k / (width as int) < row0 + ch && (k % (width as int) < i || (k % (
                width as int) == i && top <= k / (width as int) - row0 < j + 1)) && col_on(
                    chunks[k % (width as int)],
                    ch as int,
                    k / (width as int) - row0,
                ) {
                    u32::MAX
                } else {
                    old(output)@[k]
                }) by {
                    vstd::arithmetic::div_mod::lemma_fundamental_div_mod(k, width as int);
                    lemma_mod_bound(k, width as int);
                    lemma_mul_is_commutative(width as int, row0 + j);
                }
            }
            j = j + 1;
        }
        i = i + 1;
        proof {
            assert forall|k: int| 0 <= k < output@.len() implies #[trigger] output@[k] == (
            if row0 <= k / (width as int) < row0 + ch && k % (width as int) < i && col_on(
                chunks[k % (width as int)],
                ch as int,
                k / (width as int) - row0,
            ) {
                u32::MAX
            } else {
                old(output)@[k]
            }) by {
                lemma_mod_bound(k, width as int);
            }
        }
    }
    proof {
        assert forall|k: int| 0 <= k < output@.len() implies #[trigger] output@[k] == band_cell(
            chunks,
            width as int,
            row0 as int,
            ch as int,
            k,
            old(output)@[k],
        ) by {
            lemma_mod_bound(k, width as int);
        }
    }
}

/// Cell `k` of a finished frame: the band of `height / 2` upper rows shows
/// the left channel, the band below it the right channel, over a cleared
/// buffer; with odd `height` the last row stays clear.
pub open spec fn rendered_cell(
    c1: Seq<i16>,
    c2: Seq<i16>,
    width: int,
    height: int,
    k: int,
) -> u32 {
    let ch = height / 2;
    let col = k % width;
    let row = k / width;
    if row < ch && col_on(chunk_of(c1, width, col), ch, row) {
        u32::MAX
    } else if ch <= row < 2 * ch && col_on(chunk_of(c2, width, col), ch, row - ch) {
        u32::MAX
    } else {
        0u32
    }
}

/// The finished frame as a function of the samples and the geometry alone.
pub open spec fn rendered_image(c1: Seq<i16>, c2: Seq<i16>, width: int, height: int) -> Seq<u32> {
    Seq::new((width * height) as nat, |k: int| rendered_cell(c1, c2, width, height, k))
}

/// Rendering is deterministic: the finished frame depends on the samples and
/// the geometry alone, so rendering the same view range twice without
/// intervening input yields an identical pixel buffer.
pub proof fn lemma_render_idempotent(
    b1: Seq<u32>,
    b2: Seq<u32>,
    c1: Seq<i16>,
    c2: Seq<i16>,
    width: int,
    height: int,
)
    requires
        b1 == rendered_image(c1, c2, width, height),
        b2 == rendered_image(c1, c2, width, height),
    ensures
        b1 == b2,
{
}

/// Clears the buffer and renders the left channel into the upper half and
/// the right channel into the half below it, one peak bar per column.
///
/// Fails without touching the buffer when the channels differ in length or
/// when the geometry is degenerate: zero width or height, or fewer samples
/// than columns.
pub fn render(
    buffer: &mut Vec<u32>,
    c1: &[i16],
    c2: &[i16],
    width: usize,
    height: usize,
) -> (r: Result<(), CoreError>)
    requires
        old(buffer)@.len() == width * height,
        width * c1@.len() <= usize::MAX,
        height * (i16::MAX as int) <= usize::MAX,
    ensures
        final(buffer)@.len() == width * height,
        c1@.len() != c2@.len() ==> r == Err::<(), CoreError>(CoreError::MalformedInput)
            && final(buffer)@ == old(buffer)@,
        c1@.len() == c2@.len() && (width == 0 || height == 0 || c1@.len() < width) ==> r == Err::<
            (),
            CoreError,
        >(CoreError::DegenerateGeometry) && final(buffer)@ == old(buffer)@,
        c1@.len() == c2@.len() && 1 <= width <= c1@.len() && 1 <= height ==> r == Ok::<
            (),
            CoreError,
        >(()) && final(buffer)@ == rendered_image(c1@, c2@, width as int, height as int),
{
    if c1.len() != c2.len() {
        return Err(CoreError::MalformedInput);
    }
    if width == 0 || height == 0 || c1.len() < width {
        return Err(CoreError::DegenerateGeometry);
    }
    let total = buffer.len();
    let mut k: usize = 0;
    while k < total
        invariant
            k <= total,
            total == buffer@.len(),
            buffer@.len() == old(buffer)@.len(),
            forall|t: int| 0 <= t < k ==> #[trigger] buffer@[t] == 0u32,
        decreases total - k,
    {
        buffer.set(k, 0u32);
        k = k + 1;
    }
    let ch = height / 2;
    proof {
        lemma_mul_inequality(ch as int, height as int, width as int);
        lemma_mul_inequality(2 * (ch as int), height as int, width as int);
        lemma_mul_is_commutative(height as int, width as int);
        lemma_mul_inequality(ch as int, height as int, i16::MAX as int);
        lemma_mul_is_commutative(ch as int, i16::MAX as int);
        lemma_mul_is_commutative(height as int, i16::MAX as int);
    }
    let cview1 = get_chunks(c1, width);
    let cview2 = get_chunks(c2, width);
    render_channel(cview1.as_slice(), buffer, 0, ch);
    render_channel(cview2.as_slice(), buffer, ch, ch);
    proof {
        assert forall|k: int| 0 <= k < buffer@.len() implies #[trigger] buffer@[k]
            == rendered_cell(c1@, c2@, width as int, height as int, k) by {
            lemma_mod_bound(k, width as int);
            lemma_div_pos_is_pos(k, width as int);
        }
        assert(buffer@ =~= rendered_image(c1@, c2@, width as int, height as int));
    }
    Ok(())
}

} // verus!
