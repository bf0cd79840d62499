use vstd::prelude::*;

verus! {

use crate::error::CoreError;
use crate::raster::{render, rendered_image};
use crate::store::SampleStore;
use crate::view::{tick_model, TickInput, ViewController};
use vstd::arithmetic::mul::{lemma_mul_inequality, lemma_mul_is_commutative};

/// One tick of the frame loop: feeds the input to the controller and, only
/// when the visible range changed, re-renders that range from the store
/// into the buffer.
///
/// Returns whether the buffer was re-rendered; a degenerate geometry (the
/// visible range narrower than the pixel width, or a zero dimension) aborts
/// the frame's render and leaves the buffer untouched.
pub fn frame_tick(
    ctrl: &mut ViewController,
    store: &SampleStore,
    inp: TickInput,
    buffer: &mut Vec<u32>,
    width: usize,
    height: usize,
) -> (r: Result<bool, CoreError>)
    requires
        old(ctrl).wf(),
        store.wf(),
        old(ctrl)@.total == store.left_view().len(),
        old(buffer)@.len() == width * height,
        width * store.left_view().len() <= usize::MAX,
        height * (i16::MAX as int) <= usize::MAX,
    ensures
        final(ctrl)@ == tick_model(old(ctrl)@, inp),
        final(ctrl).wf(),
        final(buffer)@.len() == width * height,
        ({
            let m = tick_model(old(ctrl)@, inp);
            &&& (m == old(ctrl)@ ==> r == Ok::<bool, CoreError>(false) && final(buffer)@ == old(
                buffer,
            )@)
            &&& (m != old(ctrl)@ && 1 <= width <= m.length && 1 <= height ==> r == Ok::<
                bool,
                CoreError,
            >(true) && final(buffer)@ == rendered_image(
                store.left_view().subrange(m.start, m.start + m.length),
                store.right_view().subrange(m.start, m.start + m.length),
                width as int,
                height as int,
            ))
            &&& (m != old(ctrl)@ && !(1 <= width <= m.length && 1 <= height) ==> r == Err::<
                bool,
                CoreError,
            >(CoreError::DegenerateGeometry) && final(buffer)@ == old(buffer)@)
        }),
{
    let changed = ctrl.tick(inp);
    if !changed {
        return Ok(false);
    }
    let start = ctrl.start();
    let len = ctrl.length();
    proof {
        lemma_mul_inequality(len as int, old(ctrl)@.total, width as int);
        lemma_mul_is_commutative(len as int, width as int);
        lemma_mul_is_commutative(old(ctrl)@.total, width as int);
    }
    let c1 = store.left_slice(start, len);
    let c2 = store.right_slice(start, len);
    match render(buffer, c1, c2, width, height) {
        Ok(()) => Ok(true),
        Err(e) => Err(e),
    }
}

} // verus!
