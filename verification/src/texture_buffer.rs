//! A CPU-side RGBA texture: one byte per channel, four bytes per pixel,
//! rows in reading order.  Fresh buffers are opaque black.

use vstd::prelude::*;

verus! {

/// An RGBA pixel buffer of `w * h` pixels, 4 bytes each.
pub struct TextureBuffer {
    pub buf: Vec<u8>,
    pub w: usize,
    pub h: usize,
}

impl TextureBuffer {
    /// The buffer holds exactly `w * h` RGBA pixels.
    pub open spec fn wf(&self) -> bool {
        self.buf@.len() == self.w * self.h * 4
    }

    /// A `w` by `h` buffer of opaque black: every channel 0, every alpha
    /// byte 255.
    pub fn new(w: usize, h: usize) -> (t: TextureBuffer)
        requires
            w * h * 4 <= usize::MAX,
        ensures
            t.w == w,
            t.h == h,
            t.wf(),
            forall|i: int|
                0 <= i < w * h ==> #[trigger] t.buf@[4 * i] == 0 && t.buf@[4 * i + 1] == 0
                    && t.buf@[4 * i + 2] == 0 && t.buf@[4 * i + 3] == 255,
    {
        let n = w * h;
        let mut buf: Vec<u8> = Vec::new();
        let mut i: usize = 0;
        while i < n
            invariant
                i <= n,
                n == w * h,
                buf@.len() == 4 * i,
                forall|k: int|
                    0 <= k < i ==> #[trigger] buf@[4 * k] == 0 && buf@[4 * k + 1] == 0
                        && buf@[4 * k + 2] == 0 && buf@[4 * k + 3] == 255,
            decreases n - i,
        {
            let ghost pre = buf@;
            buf.push(0);
            buf.push(0);
            buf.push(0);
            buf.push(255);
            proof {
                assert forall|k: int|
                    0 <= k < i + 1 implies #[trigger] buf@[4 * k] == 0 && buf@[4 * k + 1] == 0
                    && buf@[4 * k + 2] == 0 && buf@[4 * k + 3] == 255 by {
                    if k < i {
                        assert(buf@[4 * k] == pre[4 * k]);
                        assert(buf@[4 * k + 1] == pre[4 * k + 1]);
                        assert(buf@[4 * k + 2] == pre[4 * k + 2]);
                        assert(buf@[4 * k + 3] == pre[4 * k + 3]);
                    } else {
                        assert(k == i);
                        assert(4 * k == pre.len());
                    }
                }
            }
            i = i + 1;
        }
        TextureBuffer { buf, w, h }
    }

    /// Overwrite the pixel at column `x`, row `y` with the given RGBA
    /// channels.
    pub fn set(&mut self, x: usize, y: usize, rgba: [u8; 4])
        requires
            old(self).wf(),
            x < old(self).w,
            y < old(self).h,
        ensures
            final(self).w == old(self).w,
            final(self).h == old(self).h,
            final(self).wf(),
            ({
                let base = 4 * (y * old(self).w + x);
                final(self).buf@ == old(self).buf@.update(base, rgba@[0]).update(
                    base + 1,
                    rgba@[1],
                ).update(base + 2, rgba@[2]).update(base + 3, rgba@[3])
            }),
    {
        let n = self.buf.len();
        proof {
            assert(y * self.w + x < self.w * self.h) by (nonlinear_arith)
                requires
                    x < self.w,
                    y < self.h,
            ;
            assert(4 * (y * self.w + x) + 3 < self.w * self.h * 4) by (nonlinear_arith)
                requires
                    y * self.w + x < self.w * self.h,
            ;
        }
        let idx = y * self.w + x;
        let base = 4 * idx;
        self.buf[base] = rgba[0];
        self.buf[base + 1] = rgba[1];
        self.buf[base + 2] = rgba[2];
        self.buf[base + 3] = rgba[3];
    }
}

} // verus!
