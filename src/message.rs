use vstd::prelude::*;

verus! {

/// A request to the renderer task.
#[derive(Debug, Clone, Copy, PartialEq, Eq)]
pub enum ICN2037Message {
    /// Set pixel `(x, y)` to a gray level in `0..16`.
    SetPixel((usize, usize, u8)),
    /// Set every pixel of the half-open rectangle `[x0, x1) x [y0, y1)` to a gray level.
    FillPixels((usize, usize, usize, usize, u8)),
    /// Turn every pixel off.
    Clear,
    /// Global dimming level in `0..16` (15 is full brightness).
    SetBrightness(u8),
    /// Set every pixel of the panel to one gray level.
    Fullfill(u8),
}

/// The half-open span `[p, p + n)` of a signed coordinate, cut to the non-negative
/// side and to `usize`.
pub open spec fn span(p: int, n: int) -> (int, int) {
    let lo = if p < 0 { 0 } else { p };
    let hi = if p + n < 0 { 0 } else { p + n };
    (
        if lo > usize::MAX { usize::MAX as int } else { lo },
        if hi > usize::MAX { usize::MAX as int } else { hi },
    )
}

fn clip(v: i64) -> (r: usize)
    ensures
        r == (if v < 0 {
            0
        } else if v > usize::MAX {
            usize::MAX as int
        } else {
            v as int
        }),
{
    if v < 0 {
        0
    } else if v as u64 > usize::MAX as u64 {
        usize::MAX
    } else {
        v as usize
    }
}

/// The message that draws one pixel of gray `gray` at a signed position; none for a
/// position left of or above the panel.
pub fn pixel_message(x: i32, y: i32, gray: u8) -> (r: Option<ICN2037Message>)
    ensures
        r == (if x >= 0 && y >= 0 {
            Some(ICN2037Message::SetPixel((x as usize, y as usize, gray)))
        } else {
            None
        }),
{
    if x >= 0 && y >= 0 {
        Some(ICN2037Message::SetPixel((x as usize, y as usize, gray)))
    } else {
        None
    }
}

/// The message that fills the rectangle with top-left corner `(x, y)` and the given
/// size with gray `gray`, cut to the non-negative quadrant; none when nothing of it
/// is left.
pub fn fill_message(x: i32, y: i32, width: u32, height: u32, gray: u8) -> (r: Option<ICN2037Message>)
    ensures
        ({
            let (sx, ex) = span(x as int, width as int);
            let (sy, ey) = span(y as int, height as int);
            r == if sx < ex && sy < ey {
                Some(ICN2037Message::FillPixels((sx as usize, sy as usize, ex as usize, ey as usize, gray)))
            } else {
                None
            }
        }),
{
    let sx = clip(x as i64);
    let ex = clip(x as i64 + width as i64);
    let sy = clip(y as i64);
    let ey = clip(y as i64 + height as i64);
    if sx < ex && sy < ey {
        Some(ICN2037Message::FillPixels((sx, sy, ex, ey, gray)))
    } else {
        None
    }
}

/// The message that fills the whole panel with gray `gray`: `Clear` for black.
pub fn clear_message(gray: u8) -> (r: ICN2037Message)
    ensures
        r == (if gray == 0 {
            ICN2037Message::Clear
        } else {
            ICN2037Message::Fullfill(gray)
        }),
{
    if gray == 0 {
        ICN2037Message::Clear
    } else {
        ICN2037Message::Fullfill(gray)
    }
}

} // verus!
