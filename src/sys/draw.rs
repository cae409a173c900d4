use vstd::prelude::*;

use crate::world::{Drawable, World};

verus! {

/// What the renderer needs of one entity: position, orientation and scale,
/// in fixed point.
#[derive(Clone, Copy, PartialEq, Eq, Structural, Debug)]
pub struct Transform {
    pub x: i64,
    pub y: i64,
    pub orient: i64,
    pub scale: i64,
}

/// The draw list of the first `k` slots: for each entity with a position and
/// a visual, in slot order, its visual and its transform.
pub open spec fn draw_list(w: &World, k: int) -> Seq<(Drawable, Transform)>
    decreases k,
{
    if k <= 0 {
        Seq::empty()
    } else {
        let rest = draw_list(w, k - 1);
        let i = k - 1;
        if w.alive@[i] && w.spatial@[i].is_some() && w.visual@[i].is_some() {
            let s = w.spatial@[i].unwrap();
            rest.push(
                (
                    w.visual@[i].unwrap(),
                    Transform { x: s.pos.x, y: s.pos.y, orient: s.orient, scale: s.scale },
                ),
            )
        } else {
            rest
        }
    }
}

/// The draw-sync system: collects what the renderer shows.
pub struct System {
    pub ext_x: u32,
    pub ext_y: u32,
}

impl System {
    /// A draw-sync system for a screen with half-extents `ext_x` and `ext_y`.
    pub fn new(ext_x: u32, ext_y: u32) -> (s: System)
        ensures
            s.ext_x == ext_x,
            s.ext_y == ext_y,
    {
        System { ext_x, ext_y }
    }

    /// The visual and transform of every entity that has a position and a
    /// visual, in slot order.
    pub fn run(&self, w: &World) -> (r: Vec<(Drawable, Transform)>)
        requires
            w.wf(),
        ensures
            r@ == draw_list(w, w.n()),
    {
        let mut r: Vec<(Drawable, Transform)> = Vec::new();
        let n = w.spatial.len();
        let mut e: usize = 0;
        while e < n
            invariant
                w.wf(),
                n == w.n(),
                e <= n,
                r@ == draw_list(w, e as int),
            decreases n - e,
        {
            if w.alive[e] {
                if let (Some(s), Some(v)) = (w.spatial[e], w.visual[e]) {
                    r.push((v, Transform { x: s.pos.x, y: s.pos.y, orient: s.orient, scale: s.scale }));
                }
            }
            e += 1;
        }
        r
    }
}

} // verus!
