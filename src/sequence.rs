//! The escape-sequence grammar as a model: what one recognition step does to
//! the pending bytes, and what running to a fixed point produces.
use vstd::prelude::*;
use crate::cursor::{CursorOp, EraseMode, EraseOp};
use crate::graphics::{GraphicsOp, csi_params, is_param_byte, sgr_ops};

verus! {

/// Introduces every escape sequence.
pub const ESC: u8 = 0x1b;

/// Ends a string (OSC) sequence.
pub const BEL: u8 = 0x07;

/// Second byte of a save-cursor sequence.
pub const SAVE_CURSOR: u8 = 0x37;

/// Second byte of a restore-cursor sequence.
pub const RESTORE_CURSOR: u8 = 0x38;

/// Second byte of a parameterized (CSI) sequence.
pub const CSI: u8 = 0x5b;

/// Second byte of a string (OSC) sequence.
pub const OSC: u8 = 0x5d;

/// Final byte of a Select Graphic Rendition sequence.
pub const SGR: u8 = 0x6d;

/// Separates an OSC command id from its argument.
pub const SEMICOLON: u8 = 0x3b;

/// The OSC id that is recognized and deliberately does nothing.
pub const IGNORED_OSC: u32 = 105;

/// A device operation, in the order its bytes arrived.
#[derive(Clone, Debug, PartialEq, Eq)]
pub enum Command {
    /// A plain byte for the output device.
    Forward(u8),
    /// Store the device's current cursor position.
    SaveCursor,
    /// Move the cursor to the stored position.
    RestoreCursor,
    /// Set the window title to these bytes, read as UTF-8.
    SetTitle(Vec<u8>),
    /// Change the attribute word by these operations, in order.
    SetGraphics(Vec<GraphicsOp>),
    /// Move the cursor.
    MoveCursor(CursorOp),
    /// Clear part of the line or of the screen buffer.
    Erase(EraseOp),
}

/// What a `Command` stands for.
pub enum Action {
    Forward(u8),
    SaveCursor,
    RestoreCursor,
    SetTitle(Seq<u8>),
    SetGraphics(Seq<GraphicsOp>),
    MoveCursor(CursorOp),
    Erase(EraseOp),
}

impl View for Command {
    type V = Action;

    open spec fn view(&self) -> Action {
        match self {
            Command::Forward(b) => Action::Forward(*b),
            Command::SaveCursor => Action::SaveCursor,
            Command::RestoreCursor => Action::RestoreCursor,
            Command::SetTitle(t) => Action::SetTitle(t@),
            Command::SetGraphics(g) => Action::SetGraphics(g@),
            Command::MoveCursor(m) => Action::MoveCursor(*m),
            Command::Erase(e) => Action::Erase(*e),
        }
    }
}

/// Why processing stopped. Every fault is fatal to the stream: the sequence
/// that caused it is consumed and nothing after it is processed in that call.
#[derive(Clone, Copy, Debug, PartialEq, Eq, Structural)]
pub enum Fault {
    /// A known OSC command that this translator does not implement.
    UnsupportedOsc(u32),
    /// An OSC id outside every known table.
    UnknownOsc(u32),
    /// An OSC id that is empty, holds a non-digit, does not fit in 32 bits,
    /// or is not ended by `;` (the BEL came first).
    MalformedOsc,
    /// A complete CSI sequence, with its final byte, that is not
    /// implemented, or whose parameters are not supported.
    UnsupportedCsi(u8),
}

/// The result of one recognition step on the pending bytes.
pub enum Step {
    /// More bytes are needed; nothing is consumed.
    Suspend,
    /// The first `n` bytes form a complete unit, which yields the action.
    Emit(Option<Action>, nat),
    /// The first `n` bytes form a complete unit, which is a fault.
    Fail(Fault, nat),
}

/// What running the recognizer to a fixed point produces.
pub struct Outcome {
    pub actions: Seq<Action>,
    pub consumed: nat,
    pub fault: Option<Fault>,
}

/// The byte classes that end a scan.
pub enum Stop {
    Bel,
    IdEnd,
    CsiEnd,
}

pub open spec fn is_digit(b: u8) -> bool {
    0x30 <= b <= 0x39
}

/// Final bytes of a CSI sequence.
pub open spec fn is_csi_final(b: u8) -> bool {
    0x40 <= b <= 0x7e
}

pub open spec fn stops(t: Stop, b: u8) -> bool {
    match t {
        Stop::Bel => b == BEL,
        Stop::IdEnd => b == SEMICOLON || b == BEL,
        Stop::CsiEnd => is_csi_final(b),
    }
}

/// The first index at or after `i` whose byte is of class `t`, or the length.
pub open spec fn find_first(s: Seq<u8>, i: int, t: Stop) -> int
    decreases s.len() - i,
{
    if i < 0 || i >= s.len() {
        s.len() as int
    } else if stops(t, s[i]) {
        i
    } else {
        find_first(s, i + 1, t)
    }
}

pub open spec fn all_digits(s: Seq<u8>) -> bool {
    forall|i: int| 0 <= i < s.len() ==> is_digit(#[trigger] s[i])
}

/// The decimal value of a digit string.
pub open spec fn digits_value(s: Seq<u8>) -> nat
    decreases s.len(),
{
    if s.len() == 0 {
        0
    } else {
        digits_value(s.drop_last()) * 10 + (s.last() - 0x30) as nat
    }
}

/// How an OSC command id is handled.
pub enum OscKind {
    Title,
    Ignored,
    Unsupported,
    Unknown,
}

pub open spec fn osc_kind(id: u32) -> OscKind {
    if id <= 3 {
        OscKind::Title
    } else if id == IGNORED_OSC {
        OscKind::Ignored
    } else if id == 4 || id == 5 || (10 <= id <= 19) || id == 52 || id == 104 || (110 <= id
        <= 119) || id == 800 || id == 801 || id == 1337 {
        OscKind::Unsupported
    } else {
        OscKind::Unknown
    }
}

/// End of the id in an OSC body (the bytes after `ESC ]`).
pub open spec fn osc_id_end(body: Seq<u8>) -> int {
    find_first(body, 0, Stop::IdEnd)
}

/// Index of the terminating BEL in an OSC body.
pub open spec fn osc_end(body: Seq<u8>) -> int {
    find_first(body, 0, Stop::Bel)
}

/// The argument of an OSC body: between the separator and BEL, if any.
pub open spec fn osc_argument(body: Seq<u8>) -> Seq<u8> {
    if osc_id_end(body) < osc_end(body) {
        body.subrange(osc_id_end(body) + 1, osc_end(body))
    } else {
        Seq::empty()
    }
}

/// The id of an OSC body, when it is one to 32 bits of decimal digits
/// ended by `;`.
pub open spec fn osc_id(body: Seq<u8>) -> Option<u32> {
    let id_bytes = body.take(osc_id_end(body));
    if body[osc_id_end(body)] != SEMICOLON || id_bytes.len() == 0 || !all_digits(id_bytes) || digits_value(id_bytes) > u32::MAX {
        None
    } else {
        Some(digits_value(id_bytes) as u32)
    }
}

/// The result of a complete OSC sequence, given the body holds a BEL.
pub open spec fn osc_outcome(body: Seq<u8>) -> Result<Option<Action>, Fault> {
    match osc_id(body) {
        None => Err(Fault::MalformedOsc),
        Some(id) => match osc_kind(id) {
            OscKind::Title => Ok(Some(Action::SetTitle(osc_argument(body)))),
            OscKind::Ignored => Ok(None),
            OscKind::Unsupported => Err(Fault::UnsupportedOsc(id)),
            OscKind::Unknown => Err(Fault::UnknownOsc(id)),
        },
    }
}

/// Index of the final byte (0x40 to 0x7e) in a CSI body, the bytes after
/// `ESC [`; the length when none has arrived.
pub open spec fn csi_end(body: Seq<u8>) -> int {
    find_first(body, 0, Stop::CsiEnd)
}

pub open spec fn all_param_bytes(s: Seq<u8>) -> bool {
    forall|i: int| 0 <= i < s.len() ==> is_param_byte(#[trigger] s[i])
}

/// A count parameter: 0 (or absent) means 1.
pub open spec fn count(v: u32) -> u32 {
    if v == 0 {
        1
    } else {
        v
    }
}

pub open spec fn erase_mode(v: u32) -> EraseMode {
    if v == 0 {
        EraseMode::ToEnd
    } else if v == 1 {
        EraseMode::ToCursor
    } else {
        EraseMode::All
    }
}

/// The action of a CSI sequence with final byte `f` and parameters `p`,
/// or `None` when it is not supported.
pub open spec fn csi_command(f: u8, p: Seq<u32>) -> Option<Action> {
    if f == SGR {
        match sgr_ops(p) {
            Some(ops) => Some(Action::SetGraphics(ops)),
            None => None,
        }
    } else if 0x41 <= f <= 0x44 && p.len() == 1 {
        let n = count(p[0]);
        Some(
            Action::MoveCursor(
                if f == 0x41 {
                    CursorOp::Up(n)
                } else if f == 0x42 {
                    CursorOp::Down(n)
                } else if f == 0x43 {
                    CursorOp::Forward(n)
                } else {
                    CursorOp::Back(n)
                },
            ),
        )
    } else if (f == 0x48 || f == 0x66) && 1 <= p.len() <= 2 {
        let col = if p.len() == 2 {
            count(p[1])
        } else {
            1
        };
        Some(Action::MoveCursor(CursorOp::To(count(p[0]), col)))
    } else if (f == 0x4a || f == 0x4b) && p.len() == 1 && p[0] <= 2 {
        let m = erase_mode(p[0]);
        Some(
            Action::Erase(
                if f == 0x4a {
                    EraseOp::Display(m)
                } else {
                    EraseOp::Line(m)
                },
            ),
        )
    } else {
        None
    }
}

/// The result of a complete CSI sequence: a supported command with
/// parameters made of digits and `;` is carried out; any other, whatever
/// bytes its body holds, is a fault.
pub open spec fn csi_outcome(body: Seq<u8>) -> Result<Action, Fault> {
    let b = body[csi_end(body)];
    let params = body.take(csi_end(body));
    if all_param_bytes(params) && csi_command(b, csi_params(params)).is_some() {
        Ok(csi_command(b, csi_params(params)).unwrap())
    } else {
        Err(Fault::UnsupportedCsi(b))
    }
}

/// One recognition step on the pending bytes `d`.
pub open spec fn step(d: Seq<u8>) -> Step {
    if d.len() == 0 {
        Step::Suspend
    } else if d[0] != ESC {
        Step::Emit(Some(Action::Forward(d[0])), 1)
    } else if d.len() == 1 {
        Step::Suspend
    } else if d[1] == SAVE_CURSOR {
        Step::Emit(Some(Action::SaveCursor), 2)
    } else if d[1] == RESTORE_CURSOR {
        Step::Emit(Some(Action::RestoreCursor), 2)
    } else if d[1] == OSC {
        let body = d.skip(2);
        if !body.contains(BEL) {
            Step::Suspend
        } else {
            let n = (osc_end(body) + 3) as nat;
            match osc_outcome(body) {
                Ok(a) => Step::Emit(a, n),
                Err(f) => Step::Fail(f, n),
            }
        }
    } else if d[1] == CSI {
        let body = d.skip(2);
        if csi_end(body) == body.len() {
            Step::Suspend
        } else {
            let n = (csi_end(body) + 3) as nat;
            match csi_outcome(body) {
                Ok(a) => Step::Emit(Some(a), n),
                Err(f) => Step::Fail(f, n),
            }
        }
    } else {
        // An introducer that starts no known sequence is passed on as data.
        Step::Emit(Some(Action::Forward(ESC)), 1)
    }
}

pub open spec fn option_seq(a: Option<Action>) -> Seq<Action> {
    match a {
        Some(x) => seq![x],
        None => Seq::empty(),
    }
}

/// Runs the recognizer on `d` until it suspends or faults.
pub open spec fn run(d: Seq<u8>) -> Outcome
    decreases d.len(),
{
    match step(d) {
        Step::Suspend => Outcome { actions: Seq::empty(), consumed: 0, fault: None },
        Step::Emit(a, n) => {
            if 0 < n <= d.len() {
                let r = run(d.skip(n as int));
                Outcome {
                    actions: option_seq(a) + r.actions,
                    consumed: n + r.consumed,
                    fault: r.fault,
                }
            } else {
                Outcome { actions: Seq::empty(), consumed: 0, fault: None }
            }
        },
        Step::Fail(f, n) => Outcome { actions: Seq::empty(), consumed: n, fault: Some(f) },
    }
}

pub proof fn lemma_find_first(s: Seq<u8>, i: int, t: Stop)
    requires
        0 <= i <= s.len(),
    ensures
        i <= find_first(s, i, t) <= s.len(),
        forall|j: int| i <= j < find_first(s, i, t) ==> !stops(t, #[trigger] s[j]),
        find_first(s, i, t) < s.len() ==> stops(t, s[find_first(s, i, t)]),
    decreases s.len() - i,
{
    if i < s.len() && !stops(t, s[i]) {
        lemma_find_first(s, i + 1, t);
    }
}

/// The first stop byte is the one that the scan meets.
pub proof fn lemma_find_first_is(s: Seq<u8>, i: int, t: Stop, r: int)
    requires
        0 <= i <= r <= s.len(),
        forall|j: int| i <= j < r ==> !stops(t, #[trigger] s[j]),
        r < s.len() ==> stops(t, s[r]),
    ensures
        find_first(s, i, t) == r,
    decreases r - i,
{
    if i < r {
        lemma_find_first_is(s, i + 1, t, r);
    }
}

/// A stop found within `s` is found at the same place in any extension of it.
pub proof fn lemma_find_first_extend(s: Seq<u8>, e: Seq<u8>, i: int, t: Stop)
    requires
        0 <= i <= s.len(),
        find_first(s, i, t) < s.len(),
    ensures
        find_first(s + e, i, t) == find_first(s, i, t),
{
    lemma_find_first(s, i, t);
    let r = find_first(s, i, t);
    assert forall|j: int| i <= j < r implies !stops(t, #[trigger] (s + e)[j]) by {
        assert((s + e)[j] == s[j]);
    }
    lemma_find_first_is(s + e, i, t, r);
}

pub proof fn lemma_contains_find(s: Seq<u8>)
    ensures
        s.contains(BEL) <==> osc_end(s) < s.len(),
{
    lemma_find_first(s, 0, Stop::Bel);
    if s.contains(BEL) {
        let x = choose|x: int| 0 <= x < s.len() && s[x] == BEL;
        assert(stops(Stop::Bel, s[x]));
    }
    if osc_end(s) < s.len() {
        assert(s[osc_end(s)] == BEL);
    }
}

/// The id of an OSC body ends no later than its BEL.
pub proof fn lemma_osc_bounds(body: Seq<u8>)
    requires
        body.contains(BEL),
    ensures
        0 <= osc_id_end(body) <= osc_end(body) < body.len(),
        body[osc_end(body)] == BEL,
        body[osc_id_end(body)] == SEMICOLON ==> osc_id_end(body) < osc_end(body),
        body[osc_id_end(body)] == BEL ==> osc_id_end(body) == osc_end(body),
{
    lemma_contains_find(body);
    lemma_find_first(body, 0, Stop::Bel);
    lemma_find_first(body, 0, Stop::IdEnd);
    let m = osc_end(body);
    let k = osc_id_end(body);
    assert(stops(Stop::IdEnd, body[m]));
    if body[k] == BEL {
        assert forall|j: int| 0 <= j < k implies !stops(Stop::Bel, #[trigger] body[j]) by {
            assert(!stops(Stop::IdEnd, body[j]));
        }
        lemma_find_first_is(body, 0, Stop::Bel, k);
    }
}

/// A step that completes a unit consumes at least one byte and no more than
/// are pending.
pub proof fn lemma_step_bounds(d: Seq<u8>)
    ensures
        match step(d) {
            Step::Suspend => true,
            Step::Emit(_, n) => 0 < n <= d.len(),
            Step::Fail(_, n) => 0 < n <= d.len(),
        },
{
    if d.len() >= 2 && d[0] == ESC {
        let body = d.skip(2);
        if d[1] == OSC && body.contains(BEL) {
            lemma_osc_bounds(body);
        }
        lemma_find_first(body, 0, Stop::CsiEnd);
    }
}

} // verus!
