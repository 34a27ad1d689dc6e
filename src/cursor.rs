//! Cursor movement and erasing (`ESC [ n A` .. `ESC [ n K`): what the
//! operations are, where they put the cursor, and which cells they clear.
use vstd::prelude::*;
use crate::colorable::Coord;

verus! {

/// A cursor movement; counts are at least 1, rows and columns 1-based.
#[derive(Clone, Copy, Debug, PartialEq, Eq, Structural)]
pub enum CursorOp {
    Up(u32),
    Down(u32),
    Forward(u32),
    Back(u32),
    /// Row, then column.
    To(u32, u32),
}

/// Which part of the screen an erase clears.
#[derive(Clone, Copy, Debug, PartialEq, Eq, Structural)]
pub enum EraseMode {
    /// From the cursor to the end.
    ToEnd,
    /// From the start up to and including the cursor.
    ToCursor,
    /// All of it.
    All,
}

/// An erase of the cursor's line or of the whole screen buffer.
#[derive(Clone, Copy, Debug, PartialEq, Eq, Structural)]
pub enum EraseOp {
    Line(EraseMode),
    Display(EraseMode),
}

/// A run of cells to clear: its first cell and its length, row by row.
#[derive(Clone, Copy, Debug, PartialEq, Eq, Structural)]
pub struct Region {
    pub start: Coord,
    pub len: u32,
}

/// `v` moved into `0 .. n` (0 when `n` is not positive).
pub open spec fn fit(v: int, n: int) -> int {
    if n <= 0 || v < 0 {
        0
    } else if v >= n {
        n - 1
    } else {
        v
    }
}

/// The cursor position after `op`, starting from `pos`, in a buffer of
/// `size` columns (x) and rows (y); it never leaves the buffer.
pub open spec fn cursor_target(pos: Coord, size: Coord, op: CursorOp) -> Coord {
    let x = fit(pos.x as int, size.x as int);
    let y = fit(pos.y as int, size.y as int);
    let (nx, ny) = match op {
        CursorOp::Up(n) => (x, y - n),
        CursorOp::Down(n) => (x, y + n),
        CursorOp::Forward(n) => (x + n, y),
        CursorOp::Back(n) => (x - n, y),
        CursorOp::To(r, c) => (c - 1, r - 1),
    };
    Coord { x: fit(nx, size.x as int) as i16, y: fit(ny, size.y as int) as i16 }
}

fn fit_exec(v: i64, n: i16) -> (r: i16)
    ensures
        r == fit(v as int, n as int),
{
    if n <= 0 || v < 0 {
        0
    } else if v >= n as i64 {
        n - 1
    } else {
        v as i16
    }
}

/// Where the cursor goes when `op` is carried out at `pos` in a buffer of
/// `size`.
pub fn move_cursor(pos: Coord, size: Coord, op: CursorOp) -> (r: Coord)
    ensures
        r == cursor_target(pos, size, op),
{
    let x = fit_exec(pos.x as i64, size.x) as i64;
    let y = fit_exec(pos.y as i64, size.y) as i64;
    let (nx, ny): (i64, i64) = match op {
        CursorOp::Up(n) => (x, y - n as i64),
        CursorOp::Down(n) => (x, y + n as i64),
        CursorOp::Forward(n) => (x + n as i64, y),
        CursorOp::Back(n) => (x - n as i64, y),
        CursorOp::To(r, c) => (c as i64 - 1, r as i64 - 1),
    };
    Coord { x: fit_exec(nx, size.x), y: fit_exec(ny, size.y) }
}

/// The cells that `op` clears with the cursor at `pos` in a buffer of
/// `size`; the position is first moved into the buffer.
pub open spec fn erase_region(pos: Coord, size: Coord, op: EraseOp) -> Region {
    let w = if size.x > 0 { size.x as int } else { 0 };
    let h = if size.y > 0 { size.y as int } else { 0 };
    let x = fit(pos.x as int, w);
    let y = fit(pos.y as int, h);
    let (sx, sy, len) = if w == 0 || h == 0 {
        (x, y, 0)
    } else {
        match op {
            EraseOp::Line(EraseMode::ToEnd) => (x, y, w - x),
            EraseOp::Line(EraseMode::ToCursor) => (0, y, x + 1),
            EraseOp::Line(EraseMode::All) => (0, y, w),
            EraseOp::Display(EraseMode::ToEnd) => (x, y, (h - y) * w - x),
            EraseOp::Display(EraseMode::ToCursor) => (0, 0, y * w + x + 1),
            EraseOp::Display(EraseMode::All) => (0, 0, h * w),
        }
    };
    Region { start: Coord { x: sx as i16, y: sy as i16 }, len: len as u32 }
}

/// The cells to clear for `op` with the cursor at `pos` in a buffer of
/// `size`.
pub fn erase(pos: Coord, size: Coord, op: EraseOp) -> (r: Region)
    ensures
        r == erase_region(pos, size, op),
{
    let w: i64 = if size.x > 0 {
        size.x as i64
    } else {
        0
    };
    let h: i64 = if size.y > 0 {
        size.y as i64
    } else {
        0
    };
    let x = fit_exec(pos.x as i64, size.x) as i64;
    let y = fit_exec(pos.y as i64, size.y) as i64;
    assert(w <= 0x7fff && h <= 0x7fff);
    let (sx, sy, len): (i64, i64, i64) = if w == 0 || h == 0 {
        (x, y, 0)
    } else {
        assert(0 <= x < w && 0 <= y < h);
        match op {
            EraseOp::Line(EraseMode::ToEnd) => (x, y, w - x),
            EraseOp::Line(EraseMode::ToCursor) => (0, y, x + 1),
            EraseOp::Line(EraseMode::All) => (0, y, w),
            EraseOp::Display(EraseMode::ToEnd) => {
                assert((h - y) * w <= 0x7fff * 0x7fff) by (nonlinear_arith)
                    requires
                        0 <= h - y <= 0x7fff,
                        0 <= w <= 0x7fff,
                ;
                assert((h - y) * w >= w) by (nonlinear_arith)
                    requires
                        1 <= h - y,
                        0 <= w,
                ;
                (x, y, (h - y) * w - x)
            },
            EraseOp::Display(EraseMode::ToCursor) => {
                assert(y * w <= 0x7fff * 0x7fff) by (nonlinear_arith)
                    requires
                        0 <= y <= 0x7fff,
                        0 <= w <= 0x7fff,
                ;
                assert(y * w >= 0) by (nonlinear_arith)
                    requires
                        0 <= y,
                        0 <= w,
                ;
                (0, 0, y * w + x + 1)
            },
            EraseOp::Display(EraseMode::All) => {
                assert(h * w <= 0x7fff * 0x7fff) by (nonlinear_arith)
                    requires
                        0 <= h <= 0x7fff,
                        0 <= w <= 0x7fff,
                ;
                assert(h * w >= 0) by (nonlinear_arith)
                    requires
                        0 <= h,
                        0 <= w,
                ;
                (0, 0, h * w)
            },
        }
    };
    Region { start: Coord { x: sx as i16, y: sy as i16 }, len: len as u32 }
}

} // verus!
