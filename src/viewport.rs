use vstd::prelude::*;

verus! {

/// Whether pixel `pixel_index` of a canvas `canvas_width` pixels wide, read
/// in row-major order, lies in the `side` by `side` square whose top-left
/// corner is `(ox, oy)`.
pub open spec fn in_square(pixel_index: int, canvas_width: int, ox: int, oy: int, side: int) -> bool {
    let px = pixel_index % canvas_width;
    let py = pixel_index / canvas_width;
    ox <= px < ox + side && oy <= py < oy + side
}

/// Whether pixel `pixel_index` of a canvas `canvas_width` pixels wide lies
/// in the `side` by `side` square whose top-left corner is `origin`.
pub fn contains(pixel_index: usize, canvas_width: u32, origin: (u32, u32), side: u32) -> (r: bool)
    requires
        canvas_width > 0,
    ensures
        r == in_square(pixel_index as int, canvas_width as int, origin.0 as int, origin.1 as int, side as int),
{
    let w = canvas_width as usize;
    let px = pixel_index % w;
    let py = pixel_index / w;
    let ox = origin.0 as usize;
    let oy = origin.1 as usize;
    let n = side as usize;
    px >= ox && px - ox < n && py >= oy && py - oy < n
}

} // verus!
