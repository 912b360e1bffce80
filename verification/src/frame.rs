use vstd::prelude::*;

use crate::errors::Error;
use crate::input::Input;
use crate::scene::DrawCall;
use crate::scene::Graphics;

verus! {

/// The native part of one frame, run after the script's per-frame update has
/// returned: synchronize dirty bitmaps into textures, produce the frame's
/// draw commands in depth order, then begin the next input frame by clearing
/// every trigger. A host performs the commands and presents; the decisions
/// are all made here.
pub fn advance_frame(g: &mut Graphics, input: &mut Input) -> (r: Result<Vec<DrawCall>, Error>)
    requires
        old(g).wf(),
    ensures
        final(g).wf(),
        Graphics::sync_rel(*old(g), *final(g)),
        Input::begin_frame_rel(*old(input), *final(input)),
        match r {
            Ok(calls) => {
                &&& final(g).draw_calls_ok(calls@)
                &&& forall|s: int|
                    final(g).valid_sprite(s) ==> (#[trigger] final(g).spr(s)).texture is Some
            },
            Err(e) => {
                &&& e == Error::NotRenderable
                &&& exists|s: int|
                    final(g).valid_sprite(s) && (#[trigger] final(g).spr(s)).texture is None
            },
        },
{
    g.sync();
    let r = g.draw();
    input.begin_frame();
    r
}

} // verus!
