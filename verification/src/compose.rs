//! Rasterization of placements into a shared canvas.
//!
//! The canvas is a zero-initialized row-major RGBA buffer. Fetching and
//! decoding tiles happens outside the engine; the engine decides per tile
//! whether to copy, skip or abort, and performs the pixel copy itself.
//! A missing tile or a malformed (format-error) tile is skipped, leaving
//! a transparent hole; any other failure aborts the whole composite.

use vstd::prelude::*;

use crate::err::Error;

verus! {

/// A decoded tile's RGBA pixels with its dimensions.
pub struct Tile {
    pub width: u32,
    pub height: u32,
    pub pixels: Vec<u8>,
}

impl Tile {
    /// Four bytes per pixel, row-major.
    pub open spec fn wf(self) -> bool {
        self.pixels@.len() == 4 * self.width * self.height
    }

    /// Clips the tile to at most `max_w` by `max_h`, keeping its
    /// top-left part unchanged. A tile larger than the space under its
    /// placement is clipped into the canvas, never dropped whole.
    pub fn crop(&self, max_w: u32, max_h: u32) -> (r: Tile)
        requires
            self.wf(),
        ensures
            r.wf(),
            r.width == if self.width <= max_w {
                self.width
            } else {
                max_w
            },
            r.height == if self.height <= max_h {
                self.height
            } else {
                max_h
            },
            forall|row: int, c: int, ch: int|
                #![trigger r.pixels@[pix(r.width as int, c, row, ch)]]
                0 <= row < r.height && 0 <= c < r.width && 0 <= ch < 4 ==> r.pixels@[pix(
                    r.width as int,
                    c,
                    row,
                    ch,
                )] == self.pixels@[pix(self.width as int, c, row, ch)],
    {
        let nw: u32 = if self.width <= max_w {
            self.width
        } else {
            max_w
        };
        let nh: u32 = if self.height <= max_h {
            self.height
        } else {
            max_h
        };
        let mut pixels: Vec<u8> = Vec::new();
        let mut rr: u32 = 0;
        while rr < nh
            invariant
                0 <= rr <= nh,
                nw <= self.width,
                nh <= self.height,
                self.wf(),
                pixels@.len() == 4 * (rr as int) * (nw as int),
                forall|row: int, c: int, ch: int|
                    #![trigger pixels@[pix(nw as int, c, row, ch)]]
                    0 <= row < rr && 0 <= c < nw && 0 <= ch < 4 ==> pixels@[pix(
                        nw as int,
                        c,
                        row,
                        ch,
                    )] == self.pixels@[pix(self.width as int, c, row, ch)],
            decreases nh - rr,
        {
            let mut c: u32 = 0;
            while c < nw
                invariant
                    0 <= c <= nw,
                    0 <= rr < nh,
                    nw <= self.width,
                    nh <= self.height,
                    self.wf(),
                    pixels@.len() == 4 * (rr as int) * (nw as int) + 4 * (c as int),
                    forall|row: int, cc: int, ch: int|
                        #![trigger pixels@[pix(nw as int, cc, row, ch)]]
                        0 <= row < rr && 0 <= cc < nw && 0 <= ch < 4 ==> pixels@[pix(
                            nw as int,
                            cc,
                            row,
                            ch,
                        )] == self.pixels@[pix(self.width as int, cc, row, ch)],
                    forall|cc: int, ch: int|
                        #![trigger pixels@[pix(nw as int, cc, rr as int, ch)]]
                        0 <= cc < c && 0 <= ch < 4 ==> pixels@[pix(nw as int, cc, rr as int, ch)]
                            == self.pixels@[pix(self.width as int, cc, rr as int, ch)],
                decreases nw - c,
            {
                proof {
                    lemma_pix_bounds(self.width as int, self.height as int, c as int, rr as int);
                    assert(4 * ((self.width as int) * (self.height as int)) == 4 * (
                    self.width as int) * (self.height as int)) by (nonlinear_arith);
                    assert((rr as int) * (self.width as int) + (c as int) < (self.width as int) * (
                    self.height as int)) by (nonlinear_arith)
                        requires
                            0 <= (rr as int) < (nh as int),
                            (nh as int) <= (self.height as int),
                            0 <= (c as int) < (nw as int),
                            (nw as int) <= (self.width as int),
                    ;
                    assert(4 * (rr as int) * (nw as int) + 4 * (c as int) == pix(
                        nw as int,
                        c as int,
                        rr as int,
                        0,
                    )) by (nonlinear_arith);
                }
                let slen = self.pixels.len();
                proof {
                    assert(4 * ((rr as int) * (self.width as int) + (c as int)) + 4 <= slen as int);
                }
                let src_base: usize = 4 * ((rr as usize) * (self.width as usize) + (c as usize));
                let ghost row_snap = pixels@;
                proof {
                    assert(src_base == pix(self.width as int, c as int, rr as int, 0));
                }
                let mut ch: usize = 0;
                while ch < 4
                    invariant
                        0 <= ch <= 4,
                        0 <= c < nw,
                        0 <= rr < nh,
                        self.wf(),
                        src_base == pix(self.width as int, c as int, rr as int, 0),
                        src_base + 4 <= self.pixels@.len(),
                        row_snap.len() == pix(nw as int, c as int, rr as int, 0),
                        pixels@.len() == row_snap.len() + ch,
                        forall|i: int| 0 <= i < row_snap.len() ==> pixels@[i] == #[trigger] row_snap[i],
                        forall|t: int|
                            0 <= t < ch ==> #[trigger] pixels@[row_snap.len() + t]
                                == self.pixels@[src_base + t],
                    decreases 4 - ch,
                {
                    let b = self.pixels[src_base + ch];
                    pixels.push(b);
                    ch += 1;
                }
                proof {
                    // The bytes of earlier rows and earlier columns sit
                    // below the appended ones and are untouched.
                    assert forall|row: int, cc: int, chh: int|
                        0 <= row < rr && 0 <= cc < nw && 0 <= chh < 4 implies #[trigger] pixels@[pix(
                        nw as int,
                        cc,
                        row,
                        chh,
                    )] == self.pixels@[pix(self.width as int, cc, row, chh)] by {
                        assert(0 <= pix(nw as int, cc, row, chh) < 4 * (rr as int) * (nw as int))
                            by (nonlinear_arith)
                            requires
                                0 <= row < rr as int,
                                0 <= cc < nw as int,
                                0 <= chh < 4,
                        ;
                        assert(pixels@[pix(nw as int, cc, row, chh)] == row_snap[pix(
                            nw as int,
                            cc,
                            row,
                            chh,
                        )]);
                    }
                    assert forall|cc: int, chh: int|
                        0 <= cc < c + 1 && 0 <= chh < 4 implies #[trigger] pixels@[pix(
                        nw as int,
                        cc,
                        rr as int,
                        chh,
                    )] == self.pixels@[pix(self.width as int, cc, rr as int, chh)] by {
                        if cc == c {
                            assert(pix(nw as int, cc, rr as int, chh) == row_snap.len() + chh);
                            assert(pix(self.width as int, cc, rr as int, chh) == src_base + chh);
                        } else {
                            assert(0 <= pix(nw as int, cc, rr as int, chh) < row_snap.len());
                            assert(pixels@[pix(nw as int, cc, rr as int, chh)] == row_snap[pix(
                                nw as int,
                                cc,
                                rr as int,
                                chh,
                            )]);
                        }
                    }
                    assert(pixels@.len() == 4 * (rr as int) * (nw as int) + 4 * ((c + 1) as int));
                }
                c += 1;
            }
            proof {
                assert(4 * (rr as int) * (nw as int) + 4 * (nw as int) == 4 * ((rr + 1) as int) * (
                nw as int)) by (nonlinear_arith);
            }
            rr += 1;
        }
        proof {
            assert(4 * (nh as int) * (nw as int) == 4 * (nw as int) * (nh as int))
                by (nonlinear_arith);
        }
        Tile { width: nw, height: nh, pixels }
    }
}

/// The canvas: exact final dimensions, row-major RGBA pixels.
pub struct Canvas {
    pub width: u32,
    pub height: u32,
    pub pixels: Vec<u8>,
}

/// Byte index of channel `ch` of pixel `(x, y)` on a canvas of width `w`.
pub open spec fn pix(w: int, x: int, y: int, ch: int) -> int {
    4 * (y * w + x) + ch
}

impl Canvas {
    /// Four bytes per pixel, row-major.
    pub open spec fn wf(self) -> bool {
        self.pixels@.len() == 4 * self.width * self.height
    }

    /// Allocates a zero-initialized canvas.
    pub fn new(width: u32, height: u32) -> (r: Canvas)
        requires
            4 * width * height <= usize::MAX,
        ensures
            r.wf(),
            r.width == width,
            r.height == height,
            forall|i: int| 0 <= i < r.pixels@.len() ==> r.pixels@[i] == 0u8,
    {
        proof {
            assert((width as int) * (height as int) * 4 == 4 * (width as int) * (height as int))
                by (nonlinear_arith);
            assert(4 * (width as int) * (height as int) >= 0) by (nonlinear_arith);
            assert((width as int) * (height as int) <= (usize::MAX as int) / 4)
                by (nonlinear_arith)
                requires
                    4 * (width as int) * (height as int) <= usize::MAX,
                    width >= 0,
                    height >= 0,
            ;
        }
        let total: usize = (width as usize) * (height as usize) * 4;
        let mut pixels: Vec<u8> = Vec::new();
        let mut i: usize = 0;
        while i < total
            invariant
                i <= total,
                pixels@.len() == i,
                forall|j: int| 0 <= j < i ==> pixels@[j] == 0u8,
            decreases total - i,
        {
            pixels.push(0);
            i += 1;
        }
        proof {
            assert(pixels@.len() == 4 * width * height);
        }
        Canvas { width, height, pixels }
    }

    /// Copies a decoded tile into the canvas at offset `(x, y)`,
    /// overwriting the pixels under it and touching nothing else.
    pub fn copy_tile(&mut self, tile: &Tile, x: u32, y: u32)
        requires
            old(self).wf(),
            tile.wf(),
            x + tile.width <= old(self).width,
            y + tile.height <= old(self).height,
        ensures
            final(self).wf(),
            final(self).width == old(self).width,
            final(self).height == old(self).height,
            // Every tile pixel lands at its placement offset.
            forall|r: int, c: int, ch: int|
                #![trigger final(self).pixels@[pix(old(self).width as int, x + c, y + r, ch)]]
                0 <= r < tile.height && 0 <= c < tile.width && 0 <= ch < 4 ==> final(self).pixels@[pix(
                    old(self).width as int,
                    x + c,
                    y + r,
                    ch,
                )] == tile.pixels@[pix(tile.width as int, c, r, ch)],
            // Bytes outside the covered rectangle are untouched.
            forall|i: int|
                0 <= i < old(self).pixels@.len() && !covered(
                    old(self).width as int,
                    x as int,
                    y as int,
                    tile.width as int,
                    tile.height as int,
                    i,
                ) ==> final(self).pixels@[i] == #[trigger] old(self).pixels@[i],
    {
        let ghost w0 = self.width as int;
        let mut r: u32 = 0;
        while r < tile.height
            invariant
                0 <= r <= tile.height,
                self.wf(),
                tile.wf(),
                self.width == old(self).width,
                self.height == old(self).height,
                self.pixels@.len() == old(self).pixels@.len(),
                x + tile.width <= self.width,
                y + tile.height <= self.height,
                w0 == self.width as int,
                forall|rr: int, c: int, ch: int|
                    #![trigger self.pixels@[pix(w0, x + c, y + rr, ch)]]
                    0 <= rr < r && 0 <= c < tile.width && 0 <= ch < 4 ==> self.pixels@[pix(
                        w0,
                        x + c,
                        y + rr,
                        ch,
                    )] == tile.pixels@[pix(tile.width as int, c, rr, ch)],
                forall|i: int|
                    0 <= i < old(self).pixels@.len() && !covered_rows(
                        w0,
                        x as int,
                        y as int,
                        tile.width as int,
                        r as int,
                        i,
                    ) ==> self.pixels@[i] == #[trigger] old(self).pixels@[i],
            decreases tile.height - r,
        {
            let mut c: u32 = 0;
            while c < tile.width
                invariant
                    0 <= c <= tile.width,
                    0 <= r < tile.height,
                    self.wf(),
                    tile.wf(),
                    self.width == old(self).width,
                    self.height == old(self).height,
                    self.pixels@.len() == old(self).pixels@.len(),
                    x + tile.width <= self.width,
                    y + tile.height <= self.height,
                    w0 == self.width as int,
                    forall|rr: int, cc: int, ch: int|
                        #![trigger self.pixels@[pix(w0, x + cc, y + rr, ch)]]
                        0 <= rr < r && 0 <= cc < tile.width && 0 <= ch < 4 ==> self.pixels@[pix(
                            w0,
                            x + cc,
                            y + rr,
                            ch,
                        )] == tile.pixels@[pix(tile.width as int, cc, rr, ch)],
                    forall|cc: int, ch: int|
                        #![trigger self.pixels@[pix(w0, x + cc, y + r, ch)]]
                        0 <= cc < c && 0 <= ch < 4 ==> self.pixels@[pix(w0, x + cc, y + r, ch)]
                            == tile.pixels@[pix(tile.width as int, cc, r as int, ch)],
                    forall|i: int|
                        0 <= i < old(self).pixels@.len() && !covered_rows(
                            w0,
                            x as int,
                            y as int,
                            tile.width as int,
                            r as int,
                            i,
                        ) && !covered_row_prefix(w0, x as int, y as int, r as int, c as int, i)
                            ==> self.pixels@[i] == #[trigger] old(self).pixels@[i],
                decreases tile.width - c,
            {
                proof {
                    lemma_pix_bounds(
                        self.width as int,
                        self.height as int,
                        x + c as int,
                        y + r as int,
                    );
                    lemma_pix_bounds(tile.width as int, tile.height as int, c as int, r as int);
                }
                let plen = self.pixels.len();
                let tlen = tile.pixels.len();
                proof {
                    assert(pix(w0, x + c as int, y + r as int, 0) == 4 * (((y + r) as int) * w0
                        + ((x + c) as int)));
                    assert(pix(tile.width as int, c as int, r as int, 0) == 4 * ((r as int)
                        * (tile.width as int) + (c as int)));
                    assert(4 * (tile.width as int) * (tile.height as int)
                        == tile.pixels@.len());
                    assert(4 * (self.width as int) * (self.height as int)
                        == self.pixels@.len());
                }
                let dst_base: usize = 4 * ((y as usize + r as usize) * (self.width as usize) + (
                x as usize + c as usize));
                let src_base: usize = 4 * ((r as usize) * (tile.width as usize) + (c as usize));
                let mut ch: usize = 0;
                while ch < 4
                    invariant
                        0 <= ch <= 4,
                        0 <= c < tile.width,
                        0 <= r < tile.height,
                        self.wf(),
                        tile.wf(),
                        self.width == old(self).width,
                        self.height == old(self).height,
                        self.pixels@.len() == old(self).pixels@.len(),
                        x + tile.width <= self.width,
                        y + tile.height <= self.height,
                        w0 == self.width as int,
                        dst_base == pix(w0, x + c as int, y + r as int, 0),
                        src_base == pix(tile.width as int, c as int, r as int, 0),
                        dst_base + 4 <= self.pixels@.len(),
                        src_base + 4 <= tile.pixels@.len(),
                        forall|t: int|
                            0 <= t < ch ==> #[trigger] self.pixels@[dst_base + t]
                                == tile.pixels@[src_base + t],
                        forall|rr: int, cc: int, chh: int|
                            #![trigger self.pixels@[pix(w0, x + cc, y + rr, chh)]]
                            0 <= rr < r && 0 <= cc < tile.width && 0 <= chh < 4
                                ==> self.pixels@[pix(w0, x + cc, y + rr, chh)] == tile.pixels@[pix(
                                tile.width as int,
                                cc,
                                rr,
                                chh,
                            )],
                        forall|cc: int, chh: int|
                            #![trigger self.pixels@[pix(w0, x + cc, y + r, chh)]]
                            0 <= cc < c && 0 <= chh < 4 ==> self.pixels@[pix(w0, x + cc, y + r, chh)]
                                == tile.pixels@[pix(tile.width as int, cc, r as int, chh)],
                        forall|i: int|
                            0 <= i < old(self).pixels@.len() && !covered_rows(
                                w0,
                                x as int,
                                y as int,
                                tile.width as int,
                                r as int,
                                i,
                            ) && !covered_row_prefix(w0, x as int, y as int, r as int, c as int, i)
                                && !(dst_base <= i < dst_base + 4) ==> self.pixels@[i]
                                == #[trigger] old(self).pixels@[i],
                    decreases 4 - ch,
                {
                    let b = tile.pixels[src_base + ch];
                    let ghost prevp = self.pixels@;
                    pixel_store(&mut self.pixels, dst_base + ch, b);
                    proof {
                        assert forall|i: int|
                            0 <= i < old(self).pixels@.len() && !covered_rows(
                                w0,
                                x as int,
                                y as int,
                                tile.width as int,
                                r as int,
                                i,
                            ) && !covered_row_prefix(w0, x as int, y as int, r as int, c as int, i)
                            && !(dst_base <= i < dst_base + 4) implies self.pixels@[i]
                            == #[trigger] old(self).pixels@[i] by {
                            assert(i != dst_base + ch);
                            assert(self.pixels@ == prevp.update(dst_base + ch as int, b));
                            assert(prevp.update(dst_base + ch as int, b)[i] == prevp[i]);
                        }
                        assert forall|cc: int, chh: int|
                            #![trigger self.pixels@[pix(w0, x + cc, y + r, chh)]]
                            0 <= cc < c && 0 <= chh < 4 implies self.pixels@[pix(
                            w0,
                            x + cc,
                            y + r,
                            chh,
                        )] == tile.pixels@[pix(tile.width as int, cc, r as int, chh)] by {
                            lemma_pix_bounds(
                                self.width as int,
                                self.height as int,
                                x + cc,
                                y + r as int,
                            );
                            assert(pix(w0, x + cc, y + r, chh) != dst_base + ch) by {
                                if pix(w0, x + cc, y + r, chh) == dst_base + ch {
                                    lemma_pix_injective(
                                        w0,
                                        x + cc,
                                        y + r as int,
                                        chh,
                                        x + c as int,
                                        y + r as int,
                                        ch as int,
                                    );
                                }
                            }
                        }
                        assert forall|rr: int, cc: int, chh: int|
                            #![trigger self.pixels@[pix(w0, x + cc, y + rr, chh)]]
                            0 <= rr < r && 0 <= cc < tile.width && 0 <= chh < 4
                            implies self.pixels@[pix(w0, x + cc, y + rr, chh)] == tile.pixels@[pix(
                            tile.width as int,
                            cc,
                            rr,
                            chh,
                        )] by {
                            lemma_pix_bounds(
                                self.width as int,
                                self.height as int,
                                x + cc,
                                y + rr,
                            );
                            assert(pix(w0, x + cc, y + rr, chh) != dst_base + ch) by {
                                if pix(w0, x + cc, y + rr, chh) == dst_base + ch {
                                    lemma_pix_injective(
                                        w0,
                                        x + cc,
                                        y + rr,
                                        chh,
                                        x + c as int,
                                        y + r as int,
                                        ch as int,
                                    );
                                }
                            }
                        }
                    }
                    ch += 1;
                }
                proof {
                    // The just-written pixel extends the row prefix.
                    assert forall|cc: int, chh: int|
                        #![trigger self.pixels@[pix(w0, x + cc, y + r, chh)]]
                        0 <= cc < c + 1 && 0 <= chh < 4 implies self.pixels@[pix(
                        w0,
                        x + cc,
                        y + r,
                        chh,
                    )] == tile.pixels@[pix(tile.width as int, cc, r as int, chh)] by {
                        if cc == c {
                            assert(pix(w0, x + cc, y + r, chh) == dst_base + chh);
                            assert(pix(tile.width as int, cc, r as int, chh) == src_base + chh);
                        }
                    }
                    assert forall|i: int|
                        0 <= i < old(self).pixels@.len() && !covered_rows(
                            w0,
                            x as int,
                            y as int,
                            tile.width as int,
                            r as int,
                            i,
                        ) && !covered_row_prefix(w0, x as int, y as int, r as int, c + 1, i)
                        implies self.pixels@[i] == #[trigger] old(self).pixels@[i] by {
                        assert(!covered_row_prefix(w0, x as int, y as int, r as int, c as int, i));
                        assert(!(dst_base <= i < dst_base + 4)) by {
                            if dst_base <= i < dst_base + 4 {
                                assert(i == pix(w0, x + c as int, y + r as int, i - dst_base));
                                assert(covered_row_prefix(
                                    w0,
                                    x as int,
                                    y as int,
                                    r as int,
                                    c + 1,
                                    i,
                                ));
                            }
                        }
                    }
                }
                c += 1;
            }
            proof {
                // A fully copied row folds into the covered-rows account.
                assert forall|rr: int, cc: int, chh: int|
                    #![trigger self.pixels@[pix(w0, x + cc, y + rr, chh)]]
                    0 <= rr < r + 1 && 0 <= cc < tile.width && 0 <= chh < 4
                    implies self.pixels@[pix(w0, x + cc, y + rr, chh)] == tile.pixels@[pix(
                    tile.width as int,
                    cc,
                    rr,
                    chh,
                )] by {}
                assert forall|i: int|
                    0 <= i < old(self).pixels@.len() && !covered_rows(
                        w0,
                        x as int,
                        y as int,
                        tile.width as int,
                        r + 1,
                        i,
                    ) implies self.pixels@[i] == #[trigger] old(self).pixels@[i] by {
                    assert(!covered_rows(w0, x as int, y as int, tile.width as int, r as int, i));
                    assert(!covered_row_prefix(
                        w0,
                        x as int,
                        y as int,
                        r as int,
                        tile.width as int,
                        i,
                    )) by {
                        if covered_row_prefix(
                            w0,
                            x as int,
                            y as int,
                            r as int,
                            tile.width as int,
                            i,
                        ) {
                            let (c0, ch0) = choose|c0: int, ch0: int|
                                0 <= c0 < tile.width && 0 <= ch0 < 4 && i == #[trigger] pix(
                                    w0,
                                    x + c0,
                                    y + (r as int),
                                    ch0,
                                );
                            assert(covered_rows(
                                w0,
                                x as int,
                                y as int,
                                tile.width as int,
                                r + 1,
                                i,
                            ));
                        }
                    }
                }
            }
            r += 1;
        }
        proof {
            assert forall|i: int|
                0 <= i < old(self).pixels@.len() && !covered(
                    w0,
                    x as int,
                    y as int,
                    tile.width as int,
                    tile.height as int,
                    i,
                ) implies self.pixels@[i] == #[trigger] old(self).pixels@[i] by {
                assert(!covered_rows(
                    w0,
                    x as int,
                    y as int,
                    tile.width as int,
                    tile.height as int,
                    i,
                ));
            }
        }
    }
}

/// Whether byte `i` lies under the tile rectangle: some covered row and
/// column address it.
pub open spec fn covered(w: int, x: int, y: int, tw: int, th: int, i: int) -> bool {
    exists|r: int, c: int, ch: int|
        0 <= r < th && 0 <= c < tw && 0 <= ch < 4 && i == #[trigger] pix(w, x + c, y + r, ch)
}

/// Whether byte `i` lies under one of the first `rows` tile rows.
pub open spec fn covered_rows(w: int, x: int, y: int, tw: int, rows: int, i: int) -> bool {
    exists|r: int, c: int, ch: int|
        0 <= r < rows && 0 <= c < tw && 0 <= ch < 4 && i == #[trigger] pix(w, x + c, y + r, ch)
}

/// Whether byte `i` lies under the first `cols` pixels of tile row `r`.
pub open spec fn covered_row_prefix(w: int, x: int, y: int, r: int, cols: int, i: int) -> bool {
    exists|c: int, ch: int|
        0 <= c < cols && 0 <= ch < 4 && i == #[trigger] pix(w, x + c, y + r, ch)
}

/// Pixel byte addressing is injective over in-bounds coordinates.
pub proof fn lemma_pix_injective(
    w: int,
    x1: int,
    y1: int,
    ch1: int,
    x2: int,
    y2: int,
    ch2: int,
)
    requires
        w > 0,
        0 <= x1 < w,
        0 <= x2 < w,
        y1 >= 0,
        y2 >= 0,
        0 <= ch1 < 4,
        0 <= ch2 < 4,
        pix(w, x1, y1, ch1) == pix(w, x2, y2, ch2),
    ensures
        x1 == x2,
        y1 == y2,
        ch1 == ch2,
{
    let a1 = y1 * w + x1;
    let a2 = y2 * w + x2;
    assert(4 * a1 + ch1 == 4 * a2 + ch2);
    assert(a1 == a2 && ch1 == ch2);
    vstd::arithmetic::div_mod::lemma_fundamental_div_mod_converse(a1, w, y1, x1);
    vstd::arithmetic::div_mod::lemma_fundamental_div_mod_converse(a2, w, y2, x2);
}

/// A pixel index of an in-bounds pixel is in bounds of the buffer.
pub proof fn lemma_pix_bounds(w: int, h: int, x: int, y: int)
    requires
        w >= 0,
        h >= 0,
        0 <= x < w,
        0 <= y < h,
    ensures
        0 <= pix(w, x, y, 0),
        pix(w, x, y, 0) + 4 <= 4 * w * h,
{
    assert(y * w + x >= 0) by (nonlinear_arith)
        requires
            y >= 0,
            w >= 0,
            x >= 0,
    ;
    assert(y * w + x + 1 <= w * h) by (nonlinear_arith)
        requires
            0 <= x < w,
            0 <= y < h,
    ;
    assert(4 * (y * w + x) + 4 <= 4 * (w * h)) by (nonlinear_arith)
        requires
            y * w + x + 1 <= w * h,
    ;
    assert(4 * (w * h) == 4 * w * h) by (nonlinear_arith);
}

/// Writes one byte of the canvas buffer.
fn pixel_store(pixels: &mut Vec<u8>, i: usize, b: u8)
    requires
        i < old(pixels)@.len(),
    ensures
        final(pixels)@ == old(pixels)@.update(i as int, b),
{
    pixels.set(i, b);
}

/// What the compositor learned about one placement's tile from the file
/// collaborator and the decoder.
pub enum TileFetch {
    /// No stored thumbnail matched the placement.
    Missing,
    /// The bytes existed but were not a decodable image.
    FormatError,
    /// Decoding succeeded.
    Decoded(Tile),
    /// Reading failed for a structural reason (filesystem and the like).
    IoError(String),
}

/// The compositor's decision for one placement.
pub enum TileAction {
    /// Leave a transparent hole.
    Skip,
    /// Copy these pixels at the placement offset.
    Copy(Tile),
    /// Abort the whole composite with this error.
    Abort(Error),
}

/// Classifies one fetched tile: a missing or malformed thumbnail is
/// skipped; any other failure aborts the composite; a decoded tile is
/// copied.
pub fn tile_action(fetch: TileFetch) -> (r: TileAction)
    ensures
        fetch is Missing ==> r is Skip,
        fetch is FormatError ==> r is Skip,
        fetch is Decoded ==> r is Copy && r->Copy_0 == fetch->Decoded_0,
        fetch is IoError ==> r is Abort && r->Abort_0 is Internal,
{
    match fetch {
        TileFetch::Missing => TileAction::Skip,
        TileFetch::FormatError => TileAction::Skip,
        TileFetch::Decoded(tile) => TileAction::Copy(tile),
        TileFetch::IoError(msg) => TileAction::Abort(Error::Internal(msg)),
    }
}

} // verus!
