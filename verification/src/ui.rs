//! A fixed overlay band drawn over the lower part of the frame.

use vstd::prelude::*;

use crate::{HEIGHT, WIDTH};

verus! {

/// Blue-grey fill of the overlay band.
pub const UI_R: u8 = 0x4f;

/// Blue-grey fill of the overlay band.
pub const UI_G: u8 = 0x54;

/// Blue-grey fill of the overlay band.
pub const UI_B: u8 = 0x6b;

/// The on-screen UI overlay.
pub struct UI;

/// What [`UI::render`] leaves at pixel `i`: rows below the band's top edge
/// are filled with the overlay color, every other pixel keeps its old
/// bytes. `f` is the frame before the call, `g` after.
pub open spec fn overlay_pixel(f: Seq<u8>, g: Seq<u8>, i: int) -> bool {
    if i / (WIDTH as int) > HEIGHT as int - 150 {
        &&& g[4 * i] == UI_R
        &&& g[4 * i + 1] == UI_G
        &&& g[4 * i + 2] == UI_B
        &&& g[4 * i + 3] == 0xffu8
    } else {
        &&& g[4 * i] == f[4 * i]
        &&& g[4 * i + 1] == f[4 * i + 1]
        &&& g[4 * i + 2] == f[4 * i + 2]
        &&& g[4 * i + 3] == f[4 * i + 3]
    }
}

impl UI {
    /// Fills every complete 4-byte pixel whose row lies strictly below
    /// `HEIGHT - 150` with the overlay color; all other bytes keep their
    /// value. Rows are derived from the pixel index with the logical screen
    /// width [`WIDTH`].
    pub fn render(&self, frame: &mut Vec<u8>)
        ensures
            final(frame).len() == old(frame).len(),
            forall|i: int|
                0 <= i < old(frame).len() as int / 4 ==> overlay_pixel(
                    old(frame)@,
                    final(frame)@,
                    i,
                ),
            forall|b: int|
                4 * (old(frame).len() as int / 4) <= b < old(frame).len() ==> final(frame)@[b]
                    == old(frame)@[b],
    {
        let n: usize = frame.len() / 4;
        let mut j: usize = 0;
        while j < n
            invariant
                n == old(frame).len() / 4,
                j <= n,
                frame.len() == old(frame).len(),
                forall|i: int| 0 <= i < j ==> overlay_pixel(old(frame)@, frame@, i),
                forall|b: int| 4 * j <= b < frame.len() ==> frame@[b] == old(frame)@[b],
            decreases n - j,
        {
            proof {
                assert(4 * (j as int) + 3 < frame.len()) by {
                    vstd::arithmetic::div_mod::lemma_fundamental_div_mod(
                        old(frame).len() as int,
                        4,
                    );
                }
            }
            let ghost pre = frame@;
            let y: usize = j / WIDTH;
            if y > HEIGHT - 150 {
                frame[4 * j] = UI_R;
                frame[4 * j + 1] = UI_G;
                frame[4 * j + 2] = UI_B;
                frame[4 * j + 3] = 0xff;
            }
            proof {
                assert forall|i: int| 0 <= i < j as int + 1 implies overlay_pixel(
                    old(frame)@,
                    frame@,
                    i,
                ) by {
                    if i < j as int {
                        assert(overlay_pixel(old(frame)@, pre, i));
                        assert(frame@[4 * i] == pre[4 * i]);
                        assert(frame@[4 * i + 1] == pre[4 * i + 1]);
                        assert(frame@[4 * i + 2] == pre[4 * i + 2]);
                        assert(frame@[4 * i + 3] == pre[4 * i + 3]);
                    } else {
                        assert(pre[4 * i] == old(frame)@[4 * i]);
                        assert(pre[4 * i + 1] == old(frame)@[4 * i + 1]);
                        assert(pre[4 * i + 2] == old(frame)@[4 * i + 2]);
                        assert(pre[4 * i + 3] == old(frame)@[4 * i + 3]);
                    }
                }
            }
            j = j + 1;
        }
    }
}

} // verus!
