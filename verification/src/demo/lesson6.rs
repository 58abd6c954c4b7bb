//! Where the bitmap demo draws its picture.
use vstd::prelude::*;

verus! {

/// The two places the bitmap demo draws a `image_width` x `image_height`
/// picture on a `width` x `height` framebuffer: first so that only its top-left
/// quarter fits (to exercise clipping at the bottom-right edge), then centered.
pub fn bitmap_demo(width: usize, height: usize, image_width: usize, image_height: usize) -> (r: ((usize, usize), (usize, usize)))
    ensures
        r.0.0 == (if width >= image_width / 2 { width - image_width / 2 } else { 0 }),
        r.0.1 == (if height >= image_height / 2 { height - image_height / 2 } else { 0 }),
        r.1.0 == (if width >= image_width { (width - image_width) / 2 } else { 0 }),
        r.1.1 == (if height >= image_height { (height - image_height) / 2 } else { 0 }),
{
    let clipped_x = width.saturating_sub(image_width / 2);
    let clipped_y = height.saturating_sub(image_height / 2);
    let x = width.saturating_sub(image_width) / 2;
    let y = height.saturating_sub(image_height) / 2;
    ((clipped_x, clipped_y), (x, y))
}

} // verus!
