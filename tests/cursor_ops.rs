use colorable::colorable::Coord;
use colorable::cursor::{erase, move_cursor, CursorOp, EraseMode, EraseOp, Region};

fn at(x: i16, y: i16) -> Coord {
    Coord { x, y }
}

#[test]
fn relative_moves_stay_in_buffer() {
    let size = at(80, 25);
    assert_eq!(move_cursor(at(10, 10), size, CursorOp::Up(3)), at(10, 7));
    assert_eq!(move_cursor(at(10, 10), size, CursorOp::Up(30)), at(10, 0));
    assert_eq!(move_cursor(at(10, 10), size, CursorOp::Down(4)), at(10, 14));
    assert_eq!(move_cursor(at(10, 10), size, CursorOp::Down(400)), at(10, 24));
    assert_eq!(move_cursor(at(10, 10), size, CursorOp::Forward(5)), at(15, 10));
    assert_eq!(move_cursor(at(10, 10), size, CursorOp::Forward(u32::MAX)), at(79, 10));
    assert_eq!(move_cursor(at(10, 10), size, CursorOp::Back(11)), at(0, 10));
}

#[test]
fn absolute_move_is_one_based() {
    let size = at(80, 25);
    assert_eq!(move_cursor(at(10, 10), size, CursorOp::To(1, 1)), at(0, 0));
    assert_eq!(move_cursor(at(10, 10), size, CursorOp::To(5, 7)), at(6, 4));
    assert_eq!(move_cursor(at(10, 10), size, CursorOp::To(99, 99)), at(79, 24));
}

#[test]
fn erase_regions() {
    let size = at(80, 25);
    let pos = at(10, 2);
    assert_eq!(erase(pos, size, EraseOp::Line(EraseMode::ToEnd)), Region { start: at(10, 2), len: 70 });
    assert_eq!(erase(pos, size, EraseOp::Line(EraseMode::ToCursor)), Region { start: at(0, 2), len: 11 });
    assert_eq!(erase(pos, size, EraseOp::Line(EraseMode::All)), Region { start: at(0, 2), len: 80 });
    assert_eq!(
        erase(pos, size, EraseOp::Display(EraseMode::ToEnd)),
        Region { start: at(10, 2), len: 23 * 80 - 10 }
    );
    assert_eq!(
        erase(pos, size, EraseOp::Display(EraseMode::ToCursor)),
        Region { start: at(0, 0), len: 2 * 80 + 11 }
    );
    assert_eq!(erase(pos, size, EraseOp::Display(EraseMode::All)), Region { start: at(0, 0), len: 2000 });
}

#[test]
fn erase_in_empty_buffer_clears_nothing() {
    let r = erase(at(3, 3), at(0, 0), EraseOp::Display(EraseMode::All));
    assert_eq!(r.len, 0);
}

#[test]
fn largest_buffer_fits() {
    let size = at(i16::MAX, i16::MAX);
    let r = erase(at(0, 0), size, EraseOp::Display(EraseMode::All));
    assert_eq!(r.len, 32767 * 32767);
}
