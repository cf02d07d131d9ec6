use vstd::prelude::*;

use crate::message::ICN2037Message;

verus! {

/// Failures of the panel's transport.
#[derive(Debug, Clone, Copy, PartialEq, Eq, Structural)]
pub enum Error {
    /// A digital output could not be driven.
    PinError,
    /// A serial bus transaction failed.
    BusError,
    /// A fault in the driver's own logic.
    DispError,
    /// A frame buffer fault.
    BufferError,
}

/// One operation on the driver chain's wires.
#[derive(Debug, Clone, Copy, PartialEq, Eq, Structural)]
pub enum PinOp {
    /// Shift two bytes out on the serial bus, high byte first.
    SpiWrite(u8, u8),
    /// Drive the latch line high (`true`) or low.
    SetLe(bool),
    /// Drive the output-enable line high (`true`, panel blanked) or low (lit).
    SetOe(bool),
}

impl PinOp {
    /// The error that a failure of this operation reports.
    pub fn failure(&self) -> (r: Error)
        ensures
            r == (match *self {
                PinOp::SpiWrite(_, _) => Error::BusError,
                _ => Error::PinError,
            }),
    {
        match self {
            PinOp::SpiWrite(_, _) => Error::BusError,
            _ => Error::PinError,
        }
    }
}

/// Row `v` of the gray-level table: which of the 16 sub-frames light a pixel of gray
/// `v`. Row `v` holds exactly `v` ones, spread evenly over the row.
pub open spec fn lut_row(v: int) -> Seq<u8> {
    if v == 0 {
        seq![0, 0, 0, 0, 0, 0, 0, 0, 0, 0, 0, 0, 0, 0, 0, 0]
    } else if v == 1 {
        seq![1, 0, 0, 0, 0, 0, 0, 0, 0, 0, 0, 0, 0, 0, 0, 0]
    } else if v == 2 {
        seq![1, 0, 0, 0, 0, 0, 0, 0, 1, 0, 0, 0, 0, 0, 0, 0]
    } else if v == 3 {
        seq![1, 0, 0, 0, 0, 1, 0, 0, 0, 0, 0, 1, 0, 0, 0, 0]
    } else if v == 4 {
        seq![1, 0, 0, 0, 1, 0, 0, 0, 1, 0, 0, 0, 1, 0, 0, 0]
    } else if v == 5 {
        seq![1, 0, 0, 1, 0, 0, 0, 1, 0, 0, 1, 0, 0, 1, 0, 0]
    } else if v == 6 {
        seq![1, 0, 0, 1, 0, 0, 1, 0, 0, 1, 0, 0, 1, 0, 1, 0]
    } else if v == 7 {
        seq![1, 0, 1, 0, 1, 0, 0, 1, 0, 0, 1, 0, 1, 0, 1, 0]
    } else if v == 8 {
        seq![1, 0, 1, 0, 1, 0, 1, 0, 1, 0, 1, 0, 1, 0, 1, 0]
    } else if v == 9 {
        seq![1, 1, 1, 0, 1, 0, 1, 0, 1, 0, 1, 0, 1, 0, 1, 0]
    } else if v == 10 {
        seq![1, 1, 1, 0, 1, 0, 1, 0, 1, 1, 1, 0, 1, 0, 1, 0]
    } else if v == 11 {
        seq![1, 1, 1, 0, 1, 1, 1, 0, 1, 1, 1, 0, 1, 0, 1, 0]
    } else if v == 12 {
        seq![1, 1, 1, 0, 1, 1, 1, 0, 1, 1, 1, 0, 1, 1, 1, 0]
    } else if v == 13 {
        seq![1, 1, 1, 0, 1, 1, 1, 1, 1, 1, 1, 0, 1, 1, 1, 0]
    } else if v == 14 {
        seq![1, 1, 1, 0, 1, 1, 1, 1, 1, 1, 1, 0, 1, 1, 1, 1]
    } else {
        seq![1, 1, 1, 1, 1, 1, 1, 1, 1, 1, 1, 0, 1, 1, 1, 1]
    }
}

/// Whether sub-frame `k` lights a pixel of gray `v`.
pub open spec fn lut_on(v: int, k: int) -> bool {
    lut_row(v)[k] == 1
}

/// The number of ones among the first `n` entries of a row.
pub open spec fn ones(row: Seq<u8>, n: int) -> int
    decreases n,
{
    if n <= 0 {
        0
    } else {
        ones(row, n - 1) + if row[n - 1] == 1 {
            1int
        } else {
            0int
        }
    }
}

fn lut_entry(v: u8, k: usize) -> (r: bool)
    requires
        v < 16,
        k < 16,
    ensures
        r == lut_on(v as int, k as int),
{
    let row: [u8; 16] = if v == 0 {
        [0, 0, 0, 0, 0, 0, 0, 0, 0, 0, 0, 0, 0, 0, 0, 0]
    } else if v == 1 {
        [1, 0, 0, 0, 0, 0, 0, 0, 0, 0, 0, 0, 0, 0, 0, 0]
    } else if v == 2 {
        [1, 0, 0, 0, 0, 0, 0, 0, 1, 0, 0, 0, 0, 0, 0, 0]
    } else if v == 3 {
        [1, 0, 0, 0, 0, 1, 0, 0, 0, 0, 0, 1, 0, 0, 0, 0]
    } else if v == 4 {
        [1, 0, 0, 0, 1, 0, 0, 0, 1, 0, 0, 0, 1, 0, 0, 0]
    } else if v == 5 {
        [1, 0, 0, 1, 0, 0, 0, 1, 0, 0, 1, 0, 0, 1, 0, 0]
    } else if v == 6 {
        [1, 0, 0, 1, 0, 0, 1, 0, 0, 1, 0, 0, 1, 0, 1, 0]
    } else if v == 7 {
        [1, 0, 1, 0, 1, 0, 0, 1, 0, 0, 1, 0, 1, 0, 1, 0]
    } else if v == 8 {
        [1, 0, 1, 0, 1, 0, 1, 0, 1, 0, 1, 0, 1, 0, 1, 0]
    } else if v == 9 {
        [1, 1, 1, 0, 1, 0, 1, 0, 1, 0, 1, 0, 1, 0, 1, 0]
    } else if v == 10 {
        [1, 1, 1, 0, 1, 0, 1, 0, 1, 1, 1, 0, 1, 0, 1, 0]
    } else if v == 11 {
        [1, 1, 1, 0, 1, 1, 1, 0, 1, 1, 1, 0, 1, 0, 1, 0]
    } else if v == 12 {
        [1, 1, 1, 0, 1, 1, 1, 0, 1, 1, 1, 0, 1, 1, 1, 0]
    } else if v == 13 {
        [1, 1, 1, 0, 1, 1, 1, 1, 1, 1, 1, 0, 1, 1, 1, 0]
    } else if v == 14 {
        [1, 1, 1, 0, 1, 1, 1, 1, 1, 1, 1, 0, 1, 1, 1, 1]
    } else {
        [1, 1, 1, 1, 1, 1, 1, 1, 1, 1, 1, 0, 1, 1, 1, 1]
    };
    assert(row@ =~= lut_row(v as int));
    row[k] == 1
}

/// Each row `v` of the gray-level table lights exactly `v` of the 16 sub-frames.
pub proof fn lemma_lut_row_weight(v: int)
    requires
        0 <= v < 16,
    ensures
        lut_row(v).len() == 16,
        ones(lut_row(v), 16) == v,
{
    reveal_with_fuel(ones, 17);
}

/// Bit `off` of `w`.
pub open spec fn bit_of(w: u16, off: u16) -> bool {
    (w >> off) & 1u16 == 1u16
}

/// `w` with bit `off` set to `on`.
pub open spec fn with_bit(w: u16, off: u16, on: bool) -> u16 {
    (w & !(1u16 << off)) | ((if on { 1u16 } else { 0u16 }) << off)
}

proof fn lemma_with_bit(w: u16, off: u16, on: bool, other: u16)
    requires
        off < 16,
        other < 16,
    ensures
        bit_of(with_bit(w, off, on), off) == on,
        other != off ==> bit_of(with_bit(w, off, on), other) == bit_of(w, other),
{
    let b: u16 = if on { 1u16 } else { 0u16 };
    assert(b <= 1);
    assert((((w & !(1u16 << off)) | (b << off)) >> off) & 1u16 == b) by (bit_vector)
        requires off < 16, b <= 1;
    assert(other != off ==> (((w & !(1u16 << off)) | (b << off)) >> other) & 1u16 == (w >> other) & 1u16) by (bit_vector)
        requires off < 16, other < 16, b <= 1;
}

proof fn lemma_zero_bits(off: u16)
    requires
        off < 16,
    ensures
        !bit_of(0u16, off),
{
    assert((0u16 >> off) & 1u16 == 0u16) by (bit_vector);
}

/// Geometry of a panel and where each pixel lives in a plane of the frame buffer.
pub struct DisplayConfig {
    pub width: usize,
    pub height: usize,
    /// `map[x][y]` is the word index within a plane and the bit offset within that
    /// word of pixel `(x, y)`.
    pub map: Vec<Vec<(usize, usize)>>,
}

impl DisplayConfig {
    /// The word index and bit offset of pixel `(x, y)`.
    pub open spec fn pixel(&self, x: int, y: int) -> (usize, usize) {
        self.map@[x]@[y]
    }

    /// The table covers every pixel.
    pub open spec fn shaped(&self) -> bool {
        &&& self.map@.len() == self.width
        &&& forall|x: int| 0 <= x < self.width ==> (#[trigger] self.map@[x])@.len() == self.height
    }

    /// Words in one plane: 16 pixels per word.
    pub open spec fn plane_len(&self) -> int {
        (self.width * self.height) / 16
    }

    pub open spec fn on_panel(&self, x: int, y: int) -> bool {
        0 <= x < self.width && 0 <= y < self.height
    }

    /// Every pixel maps into one plane, to a bit of a 16-bit word, and no two pixels
    /// share a bit.
    pub open spec fn wf(&self) -> bool {
        &&& self.shaped()
        &&& self.width * self.height <= usize::MAX
        &&& forall|x: int, y: int|
            self.on_panel(x, y) ==> {
                &&& (#[trigger] self.pixel(x, y)).1 < 16
                &&& (self.pixel(x, y).0 as int) < self.plane_len()
            }
        &&& forall|x1: int, y1: int, x2: int, y2: int|
            self.on_panel(x1, y1) && self.on_panel(x2, y2) && #[trigger] self.pixel(x1, y1) == #[trigger] self.pixel(
                x2,
                y2,
            ) ==> x1 == x2 && y1 == y2
    }

    /// A panel of `width` by `height` pixels whose layout is `map_pixel(x, y)`, asked
    /// once per pixel and kept.
    pub fn new<F: Fn(usize, usize) -> (usize, usize)>(width: usize, height: usize, map_pixel: F) -> (r: Self)
        requires
            forall|x: usize, y: usize| x < width && y < height ==> map_pixel.requires((x, y)),
        ensures
            r.width == width,
            r.height == height,
            r.shaped(),
            forall|x: usize, y: usize|
                x < width && y < height ==> map_pixel.ensures((x, y), #[trigger] r.pixel(x as int, y as int)),
    {
        let mut map: Vec<Vec<(usize, usize)>> = Vec::new();
        let mut x: usize = 0;
        while x < width
            invariant
                x <= width,
                map@.len() == x,
                forall|x: usize, y: usize| x < width && y < height ==> map_pixel.requires((x, y)),
                forall|i: int| 0 <= i < x ==> (#[trigger] map@[i])@.len() == height,
                forall|i: usize, j: usize|
                    i < x && j < height ==> map_pixel.ensures((i, j), #[trigger] map@[i as int]@[j as int]),
            decreases width - x,
        {
            let mut col: Vec<(usize, usize)> = Vec::new();
            let mut y: usize = 0;
            while y < height
                invariant
                    x < width,
                    y <= height,
                    col@.len() == y,
                    forall|x: usize, y: usize| x < width && y < height ==> map_pixel.requires((x, y)),
                    forall|j: usize| j < y ==> map_pixel.ensures((x, j), #[trigger] col@[j as int]),
                decreases height - y,
            {
                let p = map_pixel(x, y);
                col.push(p);
                y += 1;
            }
            map.push(col);
            x += 1;
        }
        DisplayConfig { width, height, map }
    }

    /// Whether the layout is usable: every pixel maps into one plane, to a bit of a
    /// 16-bit word, and no two pixels share a bit.
    pub fn is_valid(&self) -> (r: bool)
        ensures
            r == self.wf(),
    {
        if self.map.len() != self.width {
            return false;
        }
        let mut x: usize = 0;
        while x < self.width
            invariant
                x <= self.width,
                self.map@.len() == self.width,
                forall|i: int| 0 <= i < x ==> (#[trigger] self.map@[i])@.len() == self.height,
            decreases self.width - x,
        {
            if self.map[x].len() != self.height {
                return false;
            }
            x += 1;
        }
        if self.height > 0 && self.width > usize::MAX / self.height {
            assert(self.width * self.height > usize::MAX) by (nonlinear_arith)
                requires self.height > 0, self.width > usize::MAX / self.height;
            return false;
        }
        assert(self.width * self.height <= usize::MAX) by (nonlinear_arith)
            requires self.height == 0 || self.width <= usize::MAX / self.height;
        let pl = self.width * self.height / 16;
        let mut seen: Vec<bool> = Vec::new();
        let mut i: usize = 0;
        assert(pl * 16 <= usize::MAX) by (nonlinear_arith)
            requires pl == (self.width * self.height) / 16, self.width * self.height <= usize::MAX;
        while i < pl * 16
            invariant
                i <= pl * 16,
                pl * 16 <= usize::MAX,
                seen@.len() == i,
                forall|j: int| 0 <= j < i ==> !(#[trigger] seen@[j]),
            decreases pl * 16 - i,
        {
            seen.push(false);
            i += 1;
        }
        let mut x: usize = 0;
        while x < self.width
            invariant
                self.shaped(),
                self.width * self.height <= usize::MAX,
                pl == self.plane_len(),
                pl * 16 <= usize::MAX,
                seen@.len() == pl * 16,
                x <= self.width,
                forall|a: int, b: int| self.visited(a, b, x as int, 0) ==> self.fits(a, b),
                forall|a: int, b: int|
                    self.visited(a, b, x as int, 0) ==> seen@[#[trigger] self.slot(a, b)],
                forall|p: int|
                    0 <= p < pl * 16 && #[trigger] seen@[p] ==> exists|a: int, b: int|
                        self.visited(a, b, x as int, 0) && #[trigger] self.slot(a, b) == p,
                forall|a1: int, b1: int, a2: int, b2: int|
                    self.visited(a1, b1, x as int, 0) && self.visited(a2, b2, x as int, 0) && #[trigger] self.pixel(a1, b1)
                        == #[trigger] self.pixel(a2, b2) ==> a1 == a2 && b1 == b2,
            decreases self.width - x,
        {
            let mut y: usize = 0;
            while y < self.height
                invariant
                    self.shaped(),
                    self.width * self.height <= usize::MAX,
                    pl == self.plane_len(),
                    pl * 16 <= usize::MAX,
                    seen@.len() == pl * 16,
                    x < self.width,
                    y <= self.height,
                    forall|a: int, b: int| self.visited(a, b, x as int, y as int) ==> self.fits(a, b),
                    forall|a: int, b: int|
                        self.visited(a, b, x as int, y as int) ==> seen@[#[trigger] self.slot(a, b)],
                    forall|p: int|
                        0 <= p < pl * 16 && #[trigger] seen@[p] ==> exists|a: int, b: int|
                            self.visited(a, b, x as int, y as int) && #[trigger] self.slot(a, b) == p,
                    forall|a1: int, b1: int, a2: int, b2: int|
                        self.visited(a1, b1, x as int, y as int) && self.visited(a2, b2, x as int, y as int)
                            && #[trigger] self.pixel(a1, b1) == #[trigger] self.pixel(a2, b2) ==> a1 == a2 && b1
                            == b2,
                decreases self.height - y,
            {
                let (idx, off) = self.map[x][y];
                if off >= 16 || idx >= pl {
                    assert(self.on_panel(x as int, y as int));
                    assert(self.pixel(x as int, y as int) == (idx, off));
                    return false;
                }
                let slot = idx * 16 + off;
                proof {
                    lemma_slot_bound(idx as int, off as int, pl as int);
                }
                if seen[slot] {
                    proof {
                        let (a, b) = choose|a: int, b: int|
                            self.visited(a, b, x as int, y as int) && #[trigger] self.slot(a, b) == slot;
                        assert(self.fits(a, b));
                        lemma_slot_injective(self.pixel(a, b).0 as int, self.pixel(a, b).1 as int, idx as int, off as int);
                        assert(self.pixel(a, b) == self.pixel(x as int, y as int));
                    }
                    return false;
                }
                proof {
                    assert forall|a: int, b: int| self.visited(a, b, x as int, y as int) implies self.pixel(a, b)
                        != self.pixel(x as int, y as int) by {
                        if self.pixel(a, b) == self.pixel(x as int, y as int) {
                            assert(seen@[self.slot(a, b)]);
                        }
                    }
                }
                seen.set(slot, true);
                proof {
                    assert(self.slot(x as int, y as int) == slot);
                    assert forall|a: int, b: int| self.visited(a, b, x as int, y + 1) implies seen@[#[trigger] self.slot(a, b)] by {
                        if !(a == x && b == y) {
                            assert(self.visited(a, b, x as int, y as int));
                            assert(self.fits(a, b));
                            lemma_slot_bound(self.pixel(a, b).0 as int, self.pixel(a, b).1 as int, pl as int);
                        }
                    }
                    assert forall|p: int|
                        0 <= p < pl * 16 && #[trigger] seen@[p] implies exists|a: int, b: int|
                            self.visited(a, b, x as int, y + 1) && #[trigger] self.slot(a, b) == p by {
                        if p == slot {
                            assert(self.visited(x as int, y as int, x as int, y + 1));
                        } else {
                            let (a, b) = choose|a: int, b: int|
                                self.visited(a, b, x as int, y as int) && #[trigger] self.slot(a, b) == p;
                            assert(self.visited(a, b, x as int, y + 1));
                        }
                    }
                }
                y += 1;
            }
            proof {
                assert forall|a: int, b: int| #[trigger] self.visited(a, b, x + 1, 0) == self.visited(
                    a,
                    b,
                    x as int,
                    self.height as int,
                ) by {}
            }
            x += 1;
        }
        proof {
            assert forall|a: int, b: int| #[trigger] self.on_panel(a, b) == self.visited(a, b, self.width as int, 0) by {}
            assert forall|a: int, b: int| self.on_panel(a, b) implies {
                &&& (#[trigger] self.pixel(a, b)).1 < 16
                &&& (self.pixel(a, b).0 as int) < self.plane_len()
            } by {
                assert(self.visited(a, b, self.width as int, 0));
                assert(self.fits(a, b));
            }
        }
        true
    }

    /// Pixel `(a, b)` comes before `(x, y)` in column-major order.
    spec fn visited(&self, a: int, b: int, x: int, y: int) -> bool {
        &&& self.on_panel(a, b)
        &&& (a < x || (a == x && b < y))
    }

    spec fn fits(&self, a: int, b: int) -> bool {
        &&& self.pixel(a, b).1 < 16
        &&& (self.pixel(a, b).0 as int) < self.plane_len()
    }

    spec fn slot(&self, a: int, b: int) -> int {
        self.pixel(a, b).0 * 16 + self.pixel(a, b).1
    }
}

proof fn lemma_slot_bound(idx: int, off: int, pl: int)
    requires
        0 <= idx < pl,
        0 <= off < 16,
    ensures
        0 <= idx * 16 + off < pl * 16,
{
    assert(0 <= idx * 16 + off < pl * 16) by (nonlinear_arith)
        requires 0 <= idx < pl, 0 <= off < 16;
}

proof fn lemma_slot_injective(i1: int, o1: int, i2: int, o2: int)
    requires
        0 <= o1 < 16,
        0 <= o2 < 16,
        0 <= i1,
        0 <= i2,
        i1 * 16 + o1 == i2 * 16 + o2,
    ensures
        i1 == i2,
        o1 == o2,
{
    assert(i1 == i2) by (nonlinear_arith)
        requires 0 <= o1 < 16, 0 <= o2 < 16, i1 * 16 + o1 == i2 * 16 + o2;
}

/// A requested gray level, with levels above 15 taken as 15.
pub open spec fn gray(v: int) -> int {
    if v > 15 {
        15
    } else {
        v
    }
}

/// The gray that is encoded for level `v` under global brightness `b` (both in `0..16`).
pub open spec fn dimmed(v: int, b: int) -> int {
    v * b / 15
}

/// `buf` with bit `on` written for pixel `(x, y)` in the plane starting at word
/// `offset`; nothing changes when the pixel is off the panel or its word is past the
/// end of `buf`.
pub open spec fn bit_write(buf: Seq<u16>, cfg: DisplayConfig, x: int, y: int, on: bool, offset: int) -> Seq<u16> {
    let (idx, off) = cfg.pixel(x, y);
    if cfg.on_panel(x, y) && off < 16 && idx + offset < buf.len() {
        buf.update(idx + offset, with_bit(buf[idx + offset], off as u16, on))
    } else {
        buf
    }
}

/// `buf` after writing gray `v` for pixel `(x, y)` into planes `0..n`: plane `k`
/// gets entry `k` of row `v` of the gray-level table.
pub open spec fn gray_write(buf: Seq<u16>, cfg: DisplayConfig, x: int, y: int, v: int, n: int) -> Seq<u16>
    decreases n,
{
    if n <= 0 {
        buf
    } else {
        bit_write(gray_write(buf, cfg, x, y, v, n - 1), cfg, x, y, lut_on(v, n - 1), (n - 1) * cfg.plane_len())
    }
}

/// Every resident plane of `buf` holds, for pixel `(x, y)`, the bit of gray `v`.
pub open spec fn shows(buf: Seq<u16>, cfg: DisplayConfig, x: int, y: int, v: int) -> bool {
    forall|k: int|
        0 <= k < 16 && #[trigger] (k * cfg.plane_len()) + cfg.pixel(x, y).0 < buf.len() ==> bit_of(
            buf[k * cfg.plane_len() + cfg.pixel(x, y).0],
            cfg.pixel(x, y).1 as u16,
        ) == lut_on(v, k)
}

/// `img` with the cells of the half-open rectangle `[sx, ex) x [sy, ey)` set to `v`.
pub open spec fn filled(img: Seq<Seq<u8>>, sx: int, sy: int, ex: int, ey: int, v: int) -> Seq<Seq<u8>> {
    Seq::new(
        img.len(),
        |x: int|
            Seq::new(
                img[x].len(),
                |y: int|
                    if sx <= x < ex && sy <= y < ey {
                        v as u8
                    } else {
                        img[x][y]
                    },
            ),
    )
}

/// The requested image after message `m`, on a `w` by `h` panel.
pub open spec fn image_after(img: Seq<Seq<u8>>, w: int, h: int, m: ICN2037Message) -> Seq<Seq<u8>> {
    match m {
        ICN2037Message::SetPixel((x, y, v)) => filled(img, x as int, y as int, x + 1, y + 1, gray(v as int)),
        ICN2037Message::FillPixels((sx, sy, ex, ey, v)) => filled(
            img,
            sx as int,
            sy as int,
            ex as int,
            ey as int,
            gray(v as int),
        ),
        ICN2037Message::Clear => filled(img, 0, 0, w, h, 0),
        ICN2037Message::SetBrightness(_) => img,
        ICN2037Message::Fullfill(v) => filled(img, 0, 0, w, h, gray(v as int)),
    }
}

/// The global brightness after message `m`.
pub open spec fn brightness_after(b: int, m: ICN2037Message) -> int {
    match m {
        ICN2037Message::SetBrightness(v) => gray(v as int),
        _ => b,
    }
}

/// The wire operations that shift one word out and latch it.
pub open spec fn word_ops(w: u16) -> Seq<PinOp> {
    seq![PinOp::SpiWrite((w / 256) as u8, (w % 256) as u8), PinOp::SetLe(true), PinOp::SetLe(false)]
}

pub open spec fn words_ops(ws: Seq<u16>) -> Seq<PinOp>
    decreases ws.len(),
{
    if ws.len() == 0 {
        seq![]
    } else {
        words_ops(ws.drop_last()) + word_ops(ws.last())
    }
}

/// Words that one flush sends: a plane, or the whole buffer when it is shorter.
pub open spec fn flush_len(buf_len: int, pl: int) -> int {
    if buf_len < pl {
        buf_len
    } else {
        pl
    }
}

/// Shift out `n` words from `offset`, then blank and re-enable the outputs.
pub open spec fn flush_ops(buf: Seq<u16>, offset: int, n: int) -> Seq<PinOp> {
    words_ops(buf.subrange(offset, offset + n)) + seq![PinOp::SetOe(true), PinOp::SetOe(false)]
}

/// Plane `k` is held in full by a buffer of `buf_len` words.
pub open spec fn resident(buf_len: int, pl: int, k: int) -> bool {
    k * pl + flush_len(buf_len, pl) <= buf_len
}

/// The flushes of the resident planes among `0..n`, in index order.
pub open spec fn refresh_ops(buf: Seq<u16>, pl: int, n: int) -> Seq<PinOp>
    decreases n,
{
    if n <= 0 {
        seq![]
    } else {
        let k = n - 1;
        refresh_ops(buf, pl, k) + if resident(buf.len() as int, pl, k) {
            flush_ops(buf, k * pl, flush_len(buf.len() as int, pl))
        } else {
            seq![]
        }
    }
}

proof fn lemma_planes_apart(k1: int, k2: int, a1: int, a2: int, pl: int)
    requires
        0 <= a1 < pl,
        0 <= a2 < pl,
        0 <= k1,
        0 <= k2,
        k1 * pl + a1 == k2 * pl + a2,
    ensures
        k1 == k2,
        a1 == a2,
{
    assert(k1 == k2) by (nonlinear_arith)
        requires 0 <= a1 < pl, 0 <= a2 < pl, 0 <= k1, 0 <= k2, k1 * pl + a1 == k2 * pl + a2;
}

/// Writing gray `v` for pixel `(x, y)` into planes `0..n` rewrites, in each of those
/// planes that is resident, only the pixel's bit of the pixel's word, and no other word.
proof fn lemma_gray_write(buf: Seq<u16>, cfg: DisplayConfig, x: int, y: int, v: int, n: int)
    requires
        cfg.wf(),
        cfg.on_panel(x, y),
        0 <= n <= 16,
    ensures
        gray_write(buf, cfg, x, y, v, n).len() == buf.len(),
        forall|k: int|
            0 <= k < n && #[trigger] (k * cfg.plane_len()) + cfg.pixel(x, y).0 < buf.len() ==> gray_write(
                buf,
                cfg,
                x,
                y,
                v,
                n,
            )[k * cfg.plane_len() + cfg.pixel(x, y).0] == with_bit(
                buf[k * cfg.plane_len() + cfg.pixel(x, y).0],
                cfg.pixel(x, y).1 as u16,
                lut_on(v, k),
            ),
        forall|j: int|
            0 <= j < buf.len() && (forall|k: int| 0 <= k < n ==> j != #[trigger] (k * cfg.plane_len()) + cfg.pixel(x, y).0)
                ==> #[trigger] gray_write(buf, cfg, x, y, v, n)[j] == buf[j],
    decreases n,
{
    let pl = cfg.plane_len();
    let idx = cfg.pixel(x, y).0 as int;
    if n > 0 {
        lemma_gray_write(buf, cfg, x, y, v, n - 1);
        let prev = gray_write(buf, cfg, x, y, v, n - 1);
        let pos = (n - 1) * pl + idx;
        assert forall|k: int| 0 <= k < n - 1 implies #[trigger] (k * pl) + idx != pos by {
            if k * pl + idx == pos {
                lemma_planes_apart(k, n - 1, idx, idx, pl);
            }
        }
    }
}

/// Reading back a gray write: after `gray_write` of gray `v` for pixel `(x, y)` over
/// all 16 planes, every resident plane `k` holds entry `k` of row `v` of the table at
/// the pixel's mapped word and bit.
pub proof fn lemma_gray_readback(buf: Seq<u16>, cfg: DisplayConfig, x: int, y: int, v: int)
    requires
        cfg.wf(),
        cfg.on_panel(x, y),
    ensures
        shows(gray_write(buf, cfg, x, y, v, 16), cfg, x, y, v),
{
    lemma_gray_write(buf, cfg, x, y, v, 16);
    let pl = cfg.plane_len();
    let (idx, off) = cfg.pixel(x, y);
    assert forall|k: int|
        0 <= k < 16 && #[trigger] (k * pl) + idx < gray_write(buf, cfg, x, y, v, 16).len() implies bit_of(
        gray_write(buf, cfg, x, y, v, 16)[k * pl + idx],
        off as u16,
    ) == lut_on(v, k) by {
        lemma_with_bit(buf[k * pl + idx], off as u16, lut_on(v, k), off as u16);
    }
}

/// A gray write for pixel `(x, y)` leaves what the planes show for every other pixel.
proof fn lemma_gray_write_keeps_others(buf: Seq<u16>, cfg: DisplayConfig, x: int, y: int, v: int, a: int, b: int, u: int)
    requires
        cfg.wf(),
        cfg.on_panel(x, y),
        cfg.on_panel(a, b),
        !(a == x && b == y),
        shows(buf, cfg, a, b, u),
    ensures
        shows(gray_write(buf, cfg, x, y, v, 16), cfg, a, b, u),
{
    lemma_gray_write(buf, cfg, x, y, v, 16);
    let pl = cfg.plane_len();
    let (idx, off) = cfg.pixel(x, y);
    let (ia, oa) = cfg.pixel(a, b);
    let nb = gray_write(buf, cfg, x, y, v, 16);
    assert forall|k: int| 0 <= k < 16 && #[trigger] (k * pl) + ia < nb.len() implies bit_of(
        nb[k * pl + ia],
        oa as u16,
    ) == lut_on(u, k) by {
        let j = k * pl + ia;
        if ia == idx {
            assert(oa != off);
            lemma_with_bit(buf[j], off as u16, lut_on(v, k), oa as u16);
        } else {
            assert forall|k2: int| 0 <= k2 < 16 implies j != #[trigger] (k2 * pl) + idx by {
                if j == k2 * pl + idx {
                    lemma_planes_apart(k, k2, ia as int, idx as int, pl);
                }
            }
        }
    }
}

/// A gray write for a pixel off the panel changes nothing.
proof fn lemma_gray_write_off_panel(buf: Seq<u16>, cfg: DisplayConfig, x: int, y: int, v: int, n: int)
    requires
        !cfg.on_panel(x, y),
    ensures
        gray_write(buf, cfg, x, y, v, n) == buf,
    decreases n,
{
    if n > 0 {
        lemma_gray_write_off_panel(buf, cfg, x, y, v, n - 1);
    }
}

fn clamp_gray(v: u8) -> (r: u8)
    ensures
        r == gray(v as int),
{
    if v > 15 {
        15
    } else {
        v
    }
}

/// The layout of a 25 by 16 panel: column 0 fills word 0 (row `y` at bit `15 - y`);
/// the other 24 columns form 4x4 blocks, six per band of four rows, one word per
/// block, read row by row from bit 15 down.
pub open spec fn panel_map_spec(x: int, y: int) -> (int, int) {
    if x == 0 {
        (0, 15 - y)
    } else {
        ((x - 1) / 4 + (y / 4) * 6 + 1, 15 - ((x - 1) % 4 + (y % 4) * 4))
    }
}

/// Word index and bit offset of pixel `(x, y)` of a 25 by 16 panel.
pub fn panel_map(x: usize, y: usize) -> (r: (usize, usize))
    requires
        x < 25,
        y < 16,
    ensures
        r.0 as int == panel_map_spec(x as int, y as int).0,
        r.1 as int == panel_map_spec(x as int, y as int).1,
{
    if x == 0 {
        (0, 15 - y)
    } else {
        ((x - 1) / 4 + (y / 4) * 6 + 1, 15 - ((x - 1) % 4 + (y % 4) * 4))
    }
}

/// What the renderer task does after one look at its queue.
#[derive(Debug)]
pub enum RenderAction {
    /// A message was applied to the frame buffer; look at the queue again.
    Applied,
    /// The queue was empty: play these wire operations (one full refresh), yield
    /// once, then look again.
    Refresh(Vec<PinOp>),
}

/// The frame buffer of an ICN2037 driver chain: 16 planes of `plane_len` words
/// each, plane `k` lit during sub-frame `k`. Beside the planes it keeps the requested
/// gray level of every pixel and a global brightness, and the planes always encode
/// `dimmed(level, brightness)` for every pixel.
pub struct ICN2037 {
    pub config: DisplayConfig,
    pub buffer: Vec<u16>,
    /// Requested gray level of each pixel, `levels[x][y]`.
    pub levels: Vec<Vec<u8>>,
    /// Global brightness, in `0..16`.
    pub brightness: u8,
}

impl ICN2037 {
    /// The requested gray level of each pixel, `image()[x][y]`.
    pub open spec fn image(&self) -> Seq<Seq<u8>> {
        self.levels@.map_values(|c: Vec<u8>| c@)
    }

    /// The global brightness, in `0..16`.
    pub open spec fn brightness_level(&self) -> int {
        self.brightness as int
    }

    pub open spec fn image_shaped(&self) -> bool {
        &&& self.image().len() == self.config.width
        &&& forall|x: int| 0 <= x < self.config.width ==> (#[trigger] self.image()[x]).len() == self.config.height
        &&& forall|x: int, y: int| self.config.on_panel(x, y) ==> #[trigger] self.image()[x][y] < 16
    }

    /// The planes encode every pixel in the first `x` columns and the first `y`
    /// pixels of column `x`.
    pub open spec fn shown_upto(&self, x: int, y: int) -> bool {
        forall|a: int, b: int|
            self.config.on_panel(a, b) && (a < x || (a == x && b < y)) ==> shows(
                self.buffer@,
                self.config,
                a,
                b,
                dimmed(#[trigger] self.image()[a][b] as int, self.brightness_level()),
            )
    }

    /// The layout is valid, the image has the panel's shape, and the planes encode it.
    pub open spec fn inv(&self) -> bool {
        &&& self.config.wf()
        &&& self.image_shaped()
        &&& 0 <= self.brightness_level() < 16
        &&& self.shown_upto(self.config.width as int, 0)
    }

    /// A renderer over `buffer`, which is zeroed: every pixel off, full brightness.
    pub fn new(config: DisplayConfig, buffer: Vec<u16>) -> (r: Self)
        requires
            config.wf(),
        ensures
            r.inv(),
            r.config == config,
            r.buffer@ == Seq::new(buffer@.len(), |i: int| 0u16),
            r.image() == Seq::new(config.width as nat, |x: int| Seq::new(config.height as nat, |y: int| 0u8)),
            r.brightness_level() == 15,
    {
        let mut r = ICN2037 { config, buffer, levels: Vec::new(), brightness: 15 };
        r.clear();
        r
    }

    /// Turns every pixel off: all planes zeroed, every requested level 0.
    pub fn clear(&mut self)
        requires
            old(self).config.wf(),
            0 <= old(self).brightness_level() < 16,
        ensures
            final(self).inv(),
            final(self).config == old(self).config,
            final(self).buffer@ == Seq::new(old(self).buffer@.len(), |i: int| 0u16),
            final(self).image() == Seq::new(
                old(self).config.width as nat,
                |x: int| Seq::new(old(self).config.height as nat, |y: int| 0u8),
            ),
            final(self).brightness_level() == old(self).brightness_level(),
    {
        let mut i: usize = 0;
        while i < self.buffer.len()
            invariant
                i <= self.buffer@.len(),
                self.buffer@.len() == old(self).buffer@.len(),
                self.config == old(self).config,
                self.brightness == old(self).brightness,
                forall|j: int| 0 <= j < i ==> self.buffer@[j] == 0u16,
            decreases self.buffer@.len() - i,
        {
            self.buffer.set(i, 0);
            i += 1;
        }
        let w = self.config.width;
        let h = self.config.height;
        let mut levels: Vec<Vec<u8>> = Vec::new();
        let mut x: usize = 0;
        while x < w
            invariant
                x <= w,
                levels@.len() == x,
                forall|a: int| 0 <= a < x ==> #[trigger] levels@[a]@ == Seq::new(h as nat, |y: int| 0u8),
            decreases w - x,
        {
            let mut col: Vec<u8> = Vec::new();
            let mut y: usize = 0;
            while y < h
                invariant
                    y <= h,
                    col@ == Seq::new(y as nat, |j: int| 0u8),
                decreases h - y,
            {
                col.push(0);
                y += 1;
                assert(col@ =~= Seq::new(y as nat, |j: int| 0u8));
            }
            levels.push(col);
            x += 1;
        }
        self.levels = levels;
        proof {
            assert(self.buffer@ =~= Seq::new(old(self).buffer@.len(), |i: int| 0u16));
            assert(self.image() =~~= Seq::new(w as nat, |x: int| Seq::new(h as nat, |y: int| 0u8)));
            assert forall|a: int, b: int|
                self.config.on_panel(a, b) && (a < w || (a == w && b < 0)) implies shows(
                self.buffer@,
                self.config,
                a,
                b,
                dimmed(#[trigger] self.image()[a][b] as int, self.brightness_level()),
            ) by {
                assert(self.image()[a][b] == 0);
                assert(dimmed(0, self.brightness_level()) == 0);
                lemma_zero_bits(self.config.pixel(a, b).1 as u16);
            }
        }
    }

    /// Writes bit `value` for pixel `(x, y)` into the plane that starts at word
    /// `buffer_offset`. A pixel off the panel, or whose word lies past the end of the
    /// buffer, changes nothing.
    pub fn set_pixel(&mut self, x: usize, y: usize, value: bool, buffer_offset: usize)
        requires
            old(self).config.shaped(),
        ensures
            final(self).buffer@ == bit_write(old(self).buffer@, old(self).config, x as int, y as int, value, buffer_offset as int),
            !old(self).config.on_panel(x as int, y as int) ==> final(self).buffer@ == old(self).buffer@,
            final(self).config == old(self).config,
            final(self).levels == old(self).levels,
            final(self).brightness == old(self).brightness,
    {
        if x >= self.config.width || y >= self.config.height {
            return;
        }
        let (idx, offset) = self.config.map[x][y];
        if offset >= 16 || idx >= self.buffer.len() || buffer_offset >= self.buffer.len() - idx {
            return;
        }
        let i = idx + buffer_offset;
        let off = offset as u16;
        let bit: u16 = if value {
            1
        } else {
            0
        };
        let word = (self.buffer[i] & !(1u16 << off)) | (bit << off);
        self.buffer.set(i, word);
    }

    /// Writes gray `value` for pixel `(x, y)` into all 16 planes: plane `k` gets entry
    /// `k` of row `value` of the gray-level table. A pixel off the panel changes nothing.
    pub fn set_pixel_gray(&mut self, x: usize, y: usize, value: u8)
        requires
            old(self).config.shaped(),
            old(self).config.width * old(self).config.height <= usize::MAX,
            value < 16,
        ensures
            final(self).buffer@ == gray_write(old(self).buffer@, old(self).config, x as int, y as int, value as int, 16),
            !old(self).config.on_panel(x as int, y as int) ==> final(self).buffer@ == old(self).buffer@,
            final(self).config == old(self).config,
            final(self).levels == old(self).levels,
            final(self).brightness == old(self).brightness,
    {
        let sz = self.frame_buffer_len();
        let mut k: usize = 0;
        while k < 16
            invariant
                k <= 16,
                value < 16,
                sz == self.config.plane_len(),
                sz * 16 <= usize::MAX,
                self.config == old(self).config,
                self.config.shaped(),
                self.levels == old(self).levels,
                self.brightness == old(self).brightness,
                self.buffer@ == gray_write(old(self).buffer@, old(self).config, x as int, y as int, value as int, k as int),
            decreases 16 - k,
        {
            assert(k * sz <= sz * 16) by (nonlinear_arith)
                requires k < 16;
            let on = lut_entry(value, k);
            self.set_pixel(x, y, on, k * sz);
            k += 1;
        }
        proof {
            if !old(self).config.on_panel(x as int, y as int) {
                lemma_gray_write_off_panel(old(self).buffer@, old(self).config, x as int, y as int, value as int, 16);
            }
        }
    }

    /// Re-encodes pixel `(x, y)` from its requested level and the brightness.
    fn show_pixel(&mut self, x: usize, y: usize)
        requires
            old(self).config.wf(),
            old(self).image_shaped(),
            0 <= old(self).brightness_level() < 16,
            old(self).config.on_panel(x as int, y as int),
        ensures
            final(self).config == old(self).config,
            final(self).levels == old(self).levels,
            final(self).brightness == old(self).brightness,
            final(self).buffer@.len() == old(self).buffer@.len(),
            shows(
                final(self).buffer@,
                final(self).config,
                x as int,
                y as int,
                dimmed(final(self).image()[x as int][y as int] as int, final(self).brightness_level()),
            ),
            forall|a: int, b: int|
                final(self).config.on_panel(a, b) && !(a == x && b == y) && shows(
                    old(self).buffer@,
                    old(self).config,
                    a,
                    b,
                    dimmed(#[trigger] final(self).image()[a][b] as int, final(self).brightness_level()),
                ) ==> shows(
                    final(self).buffer@,
                    final(self).config,
                    a,
                    b,
                    dimmed(final(self).image()[a][b] as int, final(self).brightness_level()),
                ),
    {
        assert(self.image()[x as int] == self.levels@[x as int]@);
        let level = self.levels[x][y];
        assert(level < 16);
        assert(level * self.brightness <= 225) by (nonlinear_arith)
            requires level < 16, self.brightness < 16;
        let d = level * self.brightness / 15;
        let ghost before = self.buffer@;
        self.set_pixel_gray(x, y, d);
        proof {
            lemma_gray_write(before, self.config, x as int, y as int, d as int, 16);
            lemma_gray_readback(before, self.config, x as int, y as int, d as int);
            assert forall|a: int, b: int|
                self.config.on_panel(a, b) && !(a == x && b == y) && shows(
                    before,
                    self.config,
                    a,
                    b,
                    dimmed(#[trigger] self.image()[a][b] as int, self.brightness_level()),
                ) implies shows(
                self.buffer@,
                self.config,
                a,
                b,
                dimmed(self.image()[a][b] as int, self.brightness_level()),
            ) by {
                lemma_gray_write_keeps_others(
                    before,
                    self.config,
                    x as int,
                    y as int,
                    d as int,
                    a,
                    b,
                    dimmed(self.image()[a][b] as int, self.brightness_level()),
                );
            }
        }
    }

    /// Sets the requested level of every pixel of `[sx, ex) x [sy, ey)` to `v` and
    /// encodes it.
    fn fill_rect(&mut self, sx: usize, sy: usize, ex: usize, ey: usize, v: u8)
        requires
            old(self).inv(),
            ex <= old(self).config.width,
            ey <= old(self).config.height,
            v < 16,
        ensures
            final(self).inv(),
            final(self).image() == filled(old(self).image(), sx as int, sy as int, ex as int, ey as int, v as int),
            final(self).config == old(self).config,
            final(self).brightness == old(self).brightness,
            final(self).buffer@.len() == old(self).buffer@.len(),
    {
        let ghost img0 = self.image();
        let mut x: usize = sx;
        while x < ex
            invariant
                self.inv(),
                ex <= self.config.width,
                ey <= self.config.height,
                v < 16,
                sx <= x,
                x <= ex || x == sx,
                self.config == old(self).config,
                self.brightness == old(self).brightness,
                self.buffer@.len() == old(self).buffer@.len(),
                img0 == old(self).image(),
                forall|a: int, b: int|
                    self.config.on_panel(a, b) ==> #[trigger] self.image()[a][b] == if sx <= a < x && sy <= b < ey {
                        v
                    } else {
                        img0[a][b]
                    },
            decreases ex - x,
        {
            let mut y: usize = sy;
            while y < ey
                invariant
                    self.inv(),
                    ex <= self.config.width,
                    ey <= self.config.height,
                    v < 16,
                    sx <= x < ex,
                    sy <= y,
                    y <= ey || y == sy,
                    self.config == old(self).config,
                    self.brightness == old(self).brightness,
                    self.buffer@.len() == old(self).buffer@.len(),
                    img0 == old(self).image(),
                    forall|a: int, b: int|
                        self.config.on_panel(a, b) ==> #[trigger] self.image()[a][b] == if (sx <= a < x && sy <= b
                            < ey) || (a == x && sy <= b < y) {
                            v
                        } else {
                            img0[a][b]
                        },
                decreases ey - y,
            {
                let ghost before = self.image();
                assert(self.image()[x as int] == self.levels@[x as int]@);
                self.levels[x][y] = v;
                proof {
                    assert(self.image() =~~= before.update(x as int, before[x as int].update(y as int, v)));
                }
                self.show_pixel(x, y);
                y += 1;
            }
            x += 1;
        }
        proof {
            let f = filled(img0, sx as int, sy as int, ex as int, ey as int, v as int);
            assert forall|a: int| 0 <= a < self.config.width implies #[trigger] self.image()[a] == f[a] by {
                assert(img0[a].len() == self.config.height);
                assert forall|b: int| 0 <= b < self.config.height implies self.image()[a][b] == f[a][b] by {
                    assert(self.config.on_panel(a, b));
                }
                assert(self.image()[a] =~= f[a]);
            }
            assert(self.image() =~= f);
        }
    }

    /// Re-encodes every pixel, after a change of brightness.
    fn show_all(&mut self)
        requires
            old(self).config.wf(),
            old(self).image_shaped(),
            0 <= old(self).brightness_level() < 16,
        ensures
            final(self).inv(),
            final(self).config == old(self).config,
            final(self).levels == old(self).levels,
            final(self).brightness == old(self).brightness,
            final(self).buffer@.len() == old(self).buffer@.len(),
    {
        let mut x: usize = 0;
        while x < self.config.width
            invariant
                self.config.wf(),
                self.image_shaped(),
                0 <= self.brightness_level() < 16,
                x <= self.config.width,
                self.shown_upto(x as int, 0),
                self.config == old(self).config,
                self.levels == old(self).levels,
                self.brightness == old(self).brightness,
                self.buffer@.len() == old(self).buffer@.len(),
            decreases self.config.width - x,
        {
            let mut y: usize = 0;
            while y < self.config.height
                invariant
                    self.config.wf(),
                    self.image_shaped(),
                    0 <= self.brightness_level() < 16,
                    x < self.config.width,
                    y <= self.config.height,
                    self.shown_upto(x as int, y as int),
                    self.config == old(self).config,
                    self.levels == old(self).levels,
                    self.brightness == old(self).brightness,
                    self.buffer@.len() == old(self).buffer@.len(),
                decreases self.config.height - y,
            {
                self.show_pixel(x, y);
                y += 1;
            }
            assert forall|a: int, b: int|
                self.config.on_panel(a, b) && (a < x + 1 || (a == x + 1 && b < 0)) implies shows(
                self.buffer@,
                self.config,
                a,
                b,
                dimmed(#[trigger] self.image()[a][b] as int, self.brightness_level()),
            ) by {
                assert(a < x || (a == x && b < self.config.height));
            }
            x += 1;
        }
    }

    /// Applies one message to the frame buffer. `SetPixel` and `FillPixels` touch
    /// only the pixels of the panel that they name, `Clear` zeroes every plane,
    /// `Fullfill` sets every pixel, and `SetBrightness` re-encodes every pixel under
    /// the new brightness. Levels above 15 are taken as 15.
    pub fn apply_message(&mut self, m: ICN2037Message)
        requires
            old(self).inv(),
        ensures
            final(self).inv(),
            final(self).config == old(self).config,
            final(self).buffer@.len() == old(self).buffer@.len(),
            final(self).image() == image_after(
                old(self).image(),
                old(self).config.width as int,
                old(self).config.height as int,
                m,
            ),
            final(self).brightness_level() == brightness_after(old(self).brightness_level(), m),
            m == ICN2037Message::Clear ==> final(self).buffer@ == Seq::new(old(self).buffer@.len(), |i: int| 0u16),
    {
        let w = self.config.width;
        let h = self.config.height;
        let ghost img0 = self.image();
        match m {
            ICN2037Message::SetPixel((x, y, v)) => {
                if x < w && y < h {
                    self.fill_rect(x, y, x + 1, y + 1, clamp_gray(v));
                } else {
                    assert(self.image() =~~= filled(img0, x as int, y as int, x + 1, y + 1, gray(v as int)));
                }
            },
            ICN2037Message::FillPixels((sx, sy, ex, ey, v)) => {
                let cx = if ex < w {
                    ex
                } else {
                    w
                };
                let cy = if ey < h {
                    ey
                } else {
                    h
                };
                self.fill_rect(sx, sy, cx, cy, clamp_gray(v));
                assert(self.image() =~~= filled(img0, sx as int, sy as int, ex as int, ey as int, gray(v as int)));
            },
            ICN2037Message::Clear => {
                self.clear();
                assert(self.image() =~~= filled(img0, 0, 0, w as int, h as int, 0));
            },
            ICN2037Message::SetBrightness(b) => {
                self.brightness = clamp_gray(b);
                self.show_all();
            },
            ICN2037Message::Fullfill(v) => {
                self.fill_rect(0, 0, w, h, clamp_gray(v));
            },
        }
    }

    /// One turn of the renderer task, given what one non-blocking receive on its
    /// queue gave. A message is applied at once, with no refresh in between; only when
    /// the queue is empty does the task refresh the whole panel.
    pub fn task_step(&mut self, received: Option<ICN2037Message>) -> (r: RenderAction)
        requires
            old(self).inv(),
        ensures
            final(self).inv(),
            final(self).config == old(self).config,
            match received {
                Some(m) => {
                    &&& r is Applied
                    &&& final(self).image() == image_after(
                        old(self).image(),
                        old(self).config.width as int,
                        old(self).config.height as int,
                        m,
                    )
                    &&& final(self).brightness_level() == brightness_after(old(self).brightness_level(), m)
                    &&& (m == ICN2037Message::Clear ==> final(self).buffer@ == Seq::new(
                        old(self).buffer@.len(),
                        |i: int| 0u16,
                    ))
                },
                None => {
                    &&& final(self).buffer@ == old(self).buffer@
                    &&& final(self).image() == old(self).image()
                    &&& final(self).brightness_level() == old(self).brightness_level()
                    &&& match r {
                        RenderAction::Refresh(ops) => ops@ == refresh_ops(old(self).buffer@, old(self).config.plane_len(), 16),
                        RenderAction::Applied => false,
                    }
                },
            },
    {
        match received {
            Some(m) => {
                self.apply_message(m);
                RenderAction::Applied
            },
            None => RenderAction::Refresh(self.refresh()),
        }
    }

    /// The wire operations that bring the chain up: outputs blanked, latch low.
    pub fn start(&self) -> (r: Vec<PinOp>)
        ensures
            r@ == seq![PinOp::SetOe(true), PinOp::SetLe(false)],
    {
        vec![PinOp::SetOe(true), PinOp::SetLe(false)]
    }

    /// The wire operations that shift one word out, high byte first, and latch it.
    pub fn write_16b(&self, data: u16) -> (r: Vec<PinOp>)
        ensures
            r@ == word_ops(data),
    {
        let hi = (data >> 8u16) as u8;
        let lo = (data & 0xffu16) as u8;
        assert(hi == (data / 256) as u8) by (bit_vector)
            requires hi == (data >> 8u16) as u8;
        assert(lo == (data % 256) as u8) by (bit_vector)
            requires lo == (data & 0xffu16) as u8;
        vec![PinOp::SpiWrite(hi, lo), PinOp::SetLe(true), PinOp::SetLe(false)]
    }

    /// Words in one plane: 16 pixels per word.
    pub fn frame_buffer_len(&self) -> (r: usize)
        requires
            self.config.width * self.config.height <= usize::MAX,
        ensures
            r == self.config.plane_len(),
    {
        self.config.width * self.config.height / 16
    }

    /// The wire operations that show the plane starting at word `buffer_offset`:
    /// each of its words shifted out and latched, then the outputs blanked and
    /// re-enabled.
    pub fn flush(&self, buffer_offset: usize) -> (r: Vec<PinOp>)
        requires
            self.config.width * self.config.height <= usize::MAX,
            buffer_offset + flush_len(self.buffer@.len() as int, self.config.plane_len()) <= self.buffer@.len(),
        ensures
            r@ == flush_ops(
                self.buffer@,
                buffer_offset as int,
                flush_len(self.buffer@.len() as int, self.config.plane_len()),
            ),
    {
        let pl = self.frame_buffer_len();
        let len = if self.buffer.len() < pl {
            self.buffer.len()
        } else {
            pl
        };
        let end = buffer_offset + len;
        let mut r: Vec<PinOp> = Vec::new();
        let mut i: usize = buffer_offset;
        assert(self.buffer@.subrange(buffer_offset as int, buffer_offset as int) =~= seq![]);
        while i < end
            invariant
                buffer_offset <= i <= end,
                end == buffer_offset + len,
                end <= self.buffer@.len(),
                r@ == words_ops(self.buffer@.subrange(buffer_offset as int, i as int)),
            decreases end - i,
        {
            let mut ops = self.write_16b(self.buffer[i]);
            proof {
                let ws = self.buffer@.subrange(buffer_offset as int, i + 1);
                assert(ws.drop_last() =~= self.buffer@.subrange(buffer_offset as int, i as int));
            }
            r.append(&mut ops);
            i += 1;
        }
        r.push(PinOp::SetOe(true));
        r.push(PinOp::SetOe(false));
        r
    }

    /// The wire operations of one full refresh: every resident plane flushed, in
    /// index order.
    pub fn refresh(&self) -> (r: Vec<PinOp>)
        requires
            self.config.width * self.config.height <= usize::MAX,
        ensures
            r@ == refresh_ops(self.buffer@, self.config.plane_len(), 16),
    {
        let pl = self.frame_buffer_len();
        let len = if self.buffer.len() < pl {
            self.buffer.len()
        } else {
            pl
        };
        let mut r: Vec<PinOp> = Vec::new();
        let mut k: usize = 0;
        while k < 16
            invariant
                k <= 16,
                pl == self.config.plane_len(),
                len == flush_len(self.buffer@.len() as int, pl as int),
                pl * 16 <= usize::MAX,
                r@ == refresh_ops(self.buffer@, pl as int, k as int),
            decreases 16 - k,
        {
            assert(k * pl <= pl * 16) by (nonlinear_arith)
                requires k < 16;
            let offset = k * pl;
            if offset <= self.buffer.len() && len <= self.buffer.len() - offset {
                let mut ops = self.flush(offset);
                r.append(&mut ops);
            }
            k += 1;
        }
        r
    }
}

} // verus!
