use vstd::prelude::*;

verus! {

use crate::error::CoreError;
use vstd::slice::slice_subrange;

/// Decoder metadata that the core validates before accepting samples.
#[derive(Clone, Copy, Debug, PartialEq, Eq, Structural)]
pub struct FormatInfo {
    pub channels: u16,
    pub bits_per_sample: u16,
    /// True when the samples are signed-integer PCM.
    pub int_encoding: bool,
}

/// The supported profile: stereo, 16-bit, signed-integer PCM.
pub open spec fn format_supported(f: FormatInfo) -> bool {
    f.channels == 2 && f.bits_per_sample == 16 && f.int_encoding
}

/// Splits an interleaved stereo sample run into its two channels: even
/// positions go to the left channel, odd positions to the right.
///
/// A run of odd length cannot hold two channels of equal length and is
/// surfaced as malformed input rather than truncated silently.
pub fn deinterleave(samples: &[i16]) -> (r: Result<(Vec<i16>, Vec<i16>), CoreError>)
    ensures
        samples@.len() % 2 != 0 ==> r == Err::<(Vec<i16>, Vec<i16>), CoreError>(
            CoreError::MalformedInput,
        ),
        samples@.len() % 2 == 0 ==> (r matches Ok((left, right)) && left@ == Seq::new(
            samples@.len() / 2,
            |i: int| samples@[2 * i],
        ) && right@ == Seq::new(samples@.len() / 2, |i: int| samples@[2 * i + 1])),
{
    let n = samples.len();
    if n % 2 != 0 {
        return Err(CoreError::MalformedInput);
    }
    let half = n / 2;
    let mut left: Vec<i16> = Vec::with_capacity(half);
    let mut right: Vec<i16> = Vec::with_capacity(half);
    let mut i: usize = 0;
    while i < half
        invariant
            n == samples@.len(),
            n % 2 == 0,
            half == n / 2,
            i <= half,
            left@.len() == i,
            right@.len() == i,
            forall|t: int| 0 <= t < i ==> #[trigger] left@[t] == samples@[2 * t],
            forall|t: int| 0 <= t < i ==> #[trigger] right@[t] == samples@[2 * t + 1],
        decreases half - i,
    {
        let a: i16 = *vstd::slice::slice_index_get(samples, 2 * i);
        let b: i16 = *vstd::slice::slice_index_get(samples, 2 * i + 1);
        left.push(a);
        right.push(b);
        i = i + 1;
    }
    proof {
        assert(left@ =~= Seq::new(samples@.len() / 2, |i: int| samples@[2 * i]));
        assert(right@ =~= Seq::new(samples@.len() / 2, |i: int| samples@[2 * i + 1]));
    }
    Ok((left, right))
}

/// Immutable per-channel sample sequences, built once from validated decoder
/// output and read-only afterward.
pub struct SampleStore {
    left: Vec<i16>,
    right: Vec<i16>,
}

impl SampleStore {
    /// The left channel's samples.
    pub closed spec fn left_view(&self) -> Seq<i16> {
        self.left@
    }

    /// The right channel's samples.
    pub closed spec fn right_view(&self) -> Seq<i16> {
        self.right@
    }

    /// Both channels hold the same nonzero number of samples.
    pub open spec fn wf(&self) -> bool {
        self.left_view().len() == self.right_view().len() && 1 <= self.left_view().len()
    }

    /// Validates the decoder's format metadata and channel sequences and
    /// takes ownership of the samples.
    ///
    /// Rejects any profile other than stereo, 16-bit, signed-integer PCM as
    /// unsupported, before looking at the samples; channels of unequal or
    /// zero length are malformed.
    pub fn new(format: FormatInfo, left: Vec<i16>, right: Vec<i16>) -> (r: Result<
        SampleStore,
        CoreError,
    >)
        ensures
            !format_supported(format) ==> r == Err::<SampleStore, CoreError>(
                CoreError::UnsupportedFormat,
            ),
            format_supported(format) && !(left@.len() == right@.len() && 1 <= left@.len())
                ==> r == Err::<SampleStore, CoreError>(CoreError::MalformedInput),
            format_supported(format) && left@.len() == right@.len() && 1 <= left@.len() ==> (
            r matches Ok(s) && s.left_view() == left@ && s.right_view() == right@ && s.wf()),
    {
        if !(format.channels == 2 && format.bits_per_sample == 16 && format.int_encoding) {
            return Err(CoreError::UnsupportedFormat);
        }
        if left.len() != right.len() || left.len() == 0 {
            return Err(CoreError::MalformedInput);
        }
        Ok(SampleStore { left, right })
    }

    /// Number of samples per channel.
    pub fn len(&self) -> (n: usize)
        ensures
            n == self.left_view().len(),
    {
        self.left.len()
    }

    /// The left channel's samples over `[start, start + count)`.
    pub fn left_slice(&self, start: usize, count: usize) -> (s: &[i16])
        requires
            start + count <= self.left_view().len(),
        ensures
            s@ == self.left_view().subrange(start as int, start + count),
    {
        let n = self.left.len();
        proof {
            assert(start + count <= n);
        }
        slice_subrange(self.left.as_slice(), start, start + count)
    }

    /// The right channel's samples over `[start, start + count)`.
    pub fn right_slice(&self, start: usize, count: usize) -> (s: &[i16])
        requires
            start + count <= self.right_view().len(),
        ensures
            s@ == self.right_view().subrange(start as int, start + count),
    {
        let n = self.right.len();
        proof {
            assert(start + count <= n);
        }
        slice_subrange(self.right.as_slice(), start, start + count)
    }
}

} // verus!
