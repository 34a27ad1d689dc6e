//! One recognition step on a pushback queue, proved to do what `step` says.
use vstd::prelude::*;
use crate::bytes::{Bytes, QueueModel};
use crate::cursor::{CursorOp, EraseMode, EraseOp};
use crate::graphics::{csi_params, decode_sgr, is_param_byte, parse_params};
use crate::sequence::{
    Action, Command, Fault, OscKind, Step, Stop, BEL, CSI, ESC, IGNORED_OSC, OSC, RESTORE_CURSOR,
    SAVE_CURSOR, SEMICOLON, SGR, all_digits, count, csi_command, all_param_bytes, csi_end, csi_outcome, digits_value,
    lemma_find_first, lemma_osc_bounds, osc_argument, osc_end, osc_id, osc_id_end, osc_kind,
    osc_outcome, step, stops,
};

verus! {

/// The outcome of one recognition step.
pub enum Scan {
    /// More bytes are needed; the queue is as it was.
    Suspend,
    /// A complete unit was consumed; it may yield a command.
    Emit(Option<Command>),
    /// A complete unit was consumed, and it is a fault.
    Fail(Fault),
}

pub open spec fn option_view(c: Option<Command>) -> Option<Action> {
    match c {
        Some(x) => Some(x@),
        None => None,
    }
}

/// `q1` is `q0` after reading its first `n` pending bytes.
pub open spec fn advanced(q0: QueueModel, q1: QueueModel, n: nat) -> bool {
    &&& n <= q0.pending.len()
    &&& q1.pending == q0.pending.skip(n as int)
    &&& q1.consumed == q0.consumed + q0.pending.take(n as int)
}

/// How an OSC command id is handled.
pub fn classify_osc(id: u32) -> (r: OscKind)
    ensures
        r == osc_kind(id),
{
    if id <= 3 {
        OscKind::Title
    } else if id == IGNORED_OSC {
        OscKind::Ignored
    } else if id == 4 || id == 5 || (10 <= id && id <= 19) || id == 52 || id == 104 || (110 <= id
        && id <= 119) || id == 800 || id == 801 || id == 1337 {
        OscKind::Unsupported
    } else {
        OscKind::Unknown
    }
}

proof fn lemma_take_push(s: Seq<u8>, i: int)
    requires
        0 <= i < s.len(),
    ensures
        s.take(i + 1) == s.take(i).push(s[i]),
        s.take(i + 1).drop_last() == s.take(i),
        s.skip(i).drop_first() == s.skip(i + 1),
{
    assert(s.take(i + 1) =~= s.take(i).push(s[i]));
    assert(s.take(i + 1).drop_last() =~= s.take(i));
    assert(s.skip(i).drop_first() =~= s.skip(i + 1));
}

/// Reads an OSC body through its BEL and decodes it.
fn scan_osc(q: &mut Bytes) -> (r: Result<Option<Command>, Fault>)
    requires
        old(q).pending().contains(BEL),
    ensures
        advanced(old(q).model(), final(q).model(), (osc_end(old(q).pending()) + 1) as nat),
        match (r, osc_outcome(old(q).pending())) {
            (Ok(c), Ok(a)) => option_view(c) == a,
            (Err(f), Err(g)) => f == g,
            _ => false,
        },
{
    let ghost body = q.pending();
    let ghost c0 = q.consumed();
    let ghost k = osc_id_end(body);
    let ghost m = osc_end(body);
    proof {
        lemma_osc_bounds(body);
        lemma_find_first(body, 0, Stop::IdEnd);
        lemma_find_first(body, 0, Stop::Bel);
        assert(body.skip(0) =~= body);
        assert(c0 + body.take(0) =~= c0);
    }
    let mut id: u32 = 0;
    let mut valid = true;
    let mut seen = false;
    let ghost mut i: int = 0;
    let mut b = q.next().unwrap();
    proof { lemma_take_push(body, 0); }
    while b != SEMICOLON && b != BEL
        invariant
            0 <= i <= k,
            k <= m < body.len(),
            k == osc_id_end(body),
            stops(Stop::IdEnd, body[k]),
            forall|j: int| 0 <= j < k ==> !stops(Stop::IdEnd, #[trigger] body[j]),
            b == body[i],
            q.pending() == body.skip(i + 1),
            q.consumed() == c0 + body.take(i + 1),
            seen == (i > 0),
            valid == (all_digits(body.take(i)) && digits_value(body.take(i)) <= u32::MAX),
            valid ==> id == digits_value(body.take(i)),
        decreases k - i,
    {
        assert(i < k) by {
            if i == k {
                assert(stops(Stop::IdEnd, body[k]));
            }
        }
        proof { lemma_take_push(body, i); }
        let ghost prev = body.take(i);
        let ghost cur = body.take(i + 1);
        assert(cur.last() == b);
        assert(cur.drop_last() == prev);
        if valid {
            if 0x30 <= b && b <= 0x39 {
                let d = (b - 0x30) as u32;
                match id.checked_mul(10) {
                    Some(x) => match x.checked_add(d) {
                        Some(y) => {
                            id = y;
                        },
                        None => {
                            valid = false;
                        },
                    },
                    None => {
                        valid = false;
                    },
                }
                assert(all_digits(cur)) by {
                    assert forall|j: int| 0 <= j < cur.len() implies crate::sequence::is_digit(
                        #[trigger] cur[j],
                    ) by {
                        if j < i {
                            assert(cur[j] == prev[j]);
                        }
                    }
                }
            } else {
                valid = false;
                assert(!all_digits(cur)) by {
                    assert(cur[i] == b);
                }
            }
        } else {
            proof {
                if all_digits(cur) {
                    assert(all_digits(prev)) by {
                        assert forall|j: int| 0 <= j < prev.len() implies crate::sequence::is_digit(
                            #[trigger] prev[j],
                        ) by {
                            assert(prev[j] == cur[j]);
                        }
                    }
                    assert(digits_value(cur) >= digits_value(prev));
                }
            }
        }
        seen = true;
        proof {
            lemma_take_push(body, i + 1);
            i = i + 1;
        }
        b = q.next().unwrap();
        assert(q.consumed() =~= c0 + body.take(i + 1));
    }
    assert(i == k) by {
        if i < k {
            assert(!stops(Stop::IdEnd, body[i]));
        }
    }
    let mut arg: Vec<u8> = Vec::new();
    if b == SEMICOLON {
        let ghost mut j: int = k + 1;
        proof { lemma_take_push(body, j); }
        let mut c = q.next().unwrap();
        while c != BEL
            invariant
                0 <= k < j <= m,
                m < body.len(),
                forall|x: int| 0 <= x < m ==> !stops(Stop::Bel, #[trigger] body[x]),
                body[m] == BEL,
                c == body[j],
                q.pending() == body.skip(j + 1),
                q.consumed() == c0 + body.take(j + 1),
                arg@ == body.subrange(k + 1, j),
            decreases m - j,
        {
            assert(j < m);
            arg.push(c);
            assert(arg@ =~= body.subrange(k + 1, j + 1));
            proof {
                lemma_take_push(body, j + 1);
                j = j + 1;
            }
            c = q.next().unwrap();
            assert(q.consumed() =~= c0 + body.take(j + 1));
        }
        assert(j == m) by {
            if j < m {
                assert(!stops(Stop::Bel, body[j]));
            }
        }
        assert(arg@ == osc_argument(body));
    } else {
        assert(arg@ =~= osc_argument(body));
    }
    assert(body.take(k) =~= body.take(i));
    if b != SEMICOLON || !seen || !valid {
        Err(Fault::MalformedOsc)
    } else {
        assert(osc_id(body) == Some(id));
        match classify_osc(id) {
            OscKind::Title => Ok(Some(Command::SetTitle(arg))),
            OscKind::Ignored => Ok(None),
            OscKind::Unsupported => Err(Fault::UnsupportedOsc(id)),
            OscKind::Unknown => Err(Fault::UnknownOsc(id)),
        }
    }
}

/// Whether every byte of `s` is a digit or `;`.
fn only_param_bytes(s: &Vec<u8>) -> (r: bool)
    ensures
        r == all_param_bytes(s@),
{
    let mut i: usize = 0;
    while i < s.len()
        invariant
            i <= s@.len(),
            forall|j: int| 0 <= j < i ==> is_param_byte(#[trigger] s@[j]),
        decreases s@.len() - i,
    {
        let b = s[i];
        if !((0x30 <= b && b <= 0x39) || b == SEMICOLON) {
            assert(!is_param_byte(s@[i as int]));
            return false;
        }
        i += 1;
    }
    true
}

fn count_exec(v: u32) -> (r: u32)
    ensures
        r == count(v),
{
    if v == 0 {
        1
    } else {
        v
    }
}

/// The command of a CSI sequence with final byte `f` and parameters `p`.
fn csi_command_exec(f: u8, p: &Vec<u32>) -> (r: Option<Command>)
    requires
        p@.len() >= 1,
    ensures
        option_view(r) == csi_command(f, p@),
{
    if f == SGR {
        match decode_sgr(p) {
            Some(ops) => Some(Command::SetGraphics(ops)),
            None => None,
        }
    } else if 0x41 <= f && f <= 0x44 && p.len() == 1 {
        let n = count_exec(p[0]);
        let op = if f == 0x41 {
            CursorOp::Up(n)
        } else if f == 0x42 {
            CursorOp::Down(n)
        } else if f == 0x43 {
            CursorOp::Forward(n)
        } else {
            CursorOp::Back(n)
        };
        Some(Command::MoveCursor(op))
    } else if (f == 0x48 || f == 0x66) && p.len() <= 2 {
        let col = if p.len() == 2 {
            count_exec(p[1])
        } else {
            1
        };
        Some(Command::MoveCursor(CursorOp::To(count_exec(p[0]), col)))
    } else if (f == 0x4a || f == 0x4b) && p.len() == 1 && p[0] <= 2 {
        let m = if p[0] == 0 {
            EraseMode::ToEnd
        } else if p[0] == 1 {
            EraseMode::ToCursor
        } else {
            EraseMode::All
        };
        if f == 0x4a {
            Some(Command::Erase(EraseOp::Display(m)))
        } else {
            Some(Command::Erase(EraseOp::Line(m)))
        }
    } else {
        None
    }
}

/// Decodes a complete CSI sequence from its parameter bytes and final byte.
fn decode_csi(params: &Vec<u8>, b: u8) -> (r: Result<Command, Fault>)
    ensures
        forall|body: Seq<u8>|
            csi_end(body) < body.len() && body[csi_end(body)] == b && body.take(csi_end(body))
                == params@ ==> #[trigger] csi_outcome(body) == match r {
                Ok(c) => Ok(c@),
                Err(f) => Err(f),
            },
{
    if only_param_bytes(params) {
        let values = parse_params(params);
        assert(csi_params(params@).len() >= 1);
        match csi_command_exec(b, &values) {
            Some(c) => {
                return Ok(c);
            },
            None => {},
        }
    }
    Err(Fault::UnsupportedCsi(b))
}

/// Reads a CSI body through its final byte; if that byte has not arrived,
/// puts back everything read and returns `None`.
fn scan_csi(q: &mut Bytes) -> (r: Option<Result<Command, Fault>>)
    ensures
        csi_end(old(q).pending()) == old(q).pending().len() ==> {
            &&& r.is_none()
            &&& final(q).model() == old(q).model()
        },
        csi_end(old(q).pending()) < old(q).pending().len() ==> {
            &&& r matches Some(x) && csi_outcome(old(q).pending()) == match x {
                Ok(c) => Ok(c@),
                Err(f) => Err(f),
            }
            &&& advanced(old(q).model(), final(q).model(), (csi_end(old(q).pending()) + 1) as nat)
        },
{
    let ghost body = q.pending();
    let ghost c0 = q.consumed();
    let start = q.read_count();
    let mut params: Vec<u8> = Vec::new();
    let ghost mut i: int = 0;
    proof {
        lemma_find_first(body, 0, Stop::CsiEnd);
        assert(body.skip(0) =~= body);
        assert(c0 + body.take(0) =~= c0);
    }
    loop
        invariant
            0 <= i <= csi_end(body) <= body.len(),
            start == c0.len(),
            body == old(q).pending(),
            c0 == old(q).consumed(),
            forall|j: int| 0 <= j < csi_end(body) ==> !stops(Stop::CsiEnd, #[trigger] body[j]),
            csi_end(body) < body.len() ==> stops(Stop::CsiEnd, body[csi_end(body)]),
            q.pending() == body.skip(i),
            q.consumed() == c0 + body.take(i),
            params@ == body.take(i),
        decreases body.len() - i,
    {
        match q.next() {
            None => {
                assert(i == body.len());
                let now = q.read_count();
                q.rollback(now - start);
                assert(q.pending() =~= body);
                assert(q.consumed() =~= c0);
                return None;
            },
            Some(b) => {
                proof {
                    lemma_take_push(body, i);
                    i = i + 1;
                }
                if 0x40 <= b && b <= 0x7e {
                    assert(i - 1 == csi_end(body)) by {
                        if i - 1 < csi_end(body) {
                            assert(!stops(Stop::CsiEnd, body[i - 1]));
                        }
                    }
                    let r = decode_csi(&params, b);
                    assert(csi_outcome(body) == match r {
                        Ok(c) => Ok(c@),
                        Err(f) => Err(f),
                    });
                    return Some(r);
                }
                assert(i - 1 < csi_end(body)) by {
                    if i - 1 == csi_end(body) {
                        assert(stops(Stop::CsiEnd, body[i - 1]));
                    }
                }
                params.push(b);
            },
        }
    }
}

proof fn lemma_skip_skip(d: Seq<u8>, n: int)
    requires
        2 <= d.len(),
        0 <= n <= d.len() - 2,
    ensures
        d.skip(2).skip(n) == d.skip(n + 2),
        d.take(2) + d.skip(2).take(n) == d.take(n + 2),
{
    assert(d.skip(2).skip(n) =~= d.skip(n + 2));
    assert(d.take(2) + d.skip(2).take(n) =~= d.take(n + 2));
}

/// One recognition step: consumes one complete unit of the pending bytes,
/// or, when the unit at the head is incomplete, leaves the queue untouched.
pub fn scan(q: &mut Bytes) -> (r: Scan)
    ensures
        match step(old(q).pending()) {
            Step::Suspend => {
                &&& r is Suspend
                &&& final(q).model() == old(q).model()
            },
            Step::Emit(a, n) => {
                &&& r matches Scan::Emit(c) && option_view(c) == a
                &&& advanced(old(q).model(), final(q).model(), n)
            },
            Step::Fail(f, n) => {
                &&& r == Scan::Fail(f)
                &&& advanced(old(q).model(), final(q).model(), n)
            },
        },
{
    let ghost d = q.pending();
    let ghost c0 = q.consumed();
    let c1 = match q.next() {
        None => {
            return Scan::Suspend;
        },
        Some(c) => c,
    };
    assert(q.consumed() =~= c0 + d.take(1));
    assert(q.pending() =~= d.skip(1));
    if c1 != ESC {
        return Scan::Emit(Some(Command::Forward(c1)));
    }
    let c2 = match q.next() {
        None => {
            q.unget(c1);
            assert(q.pending() =~= d);
            assert(q.consumed() =~= c0);
            return Scan::Suspend;
        },
        Some(c) => c,
    };
    assert(d.take(2) =~= seq![c1, c2]);
    assert(q.pending() =~= d.skip(2));
    assert(q.consumed() =~= c0 + d.take(2));
    if c2 == SAVE_CURSOR {
        Scan::Emit(Some(Command::SaveCursor))
    } else if c2 == RESTORE_CURSOR {
        Scan::Emit(Some(Command::RestoreCursor))
    } else if c2 == OSC {
        if !q.contains(BEL) {
            q.unget(c2);
            q.unget(c1);
            assert(q.pending() =~= d);
            assert(q.consumed() =~= c0);
            return Scan::Suspend;
        }
        proof {
            lemma_osc_bounds(d.skip(2));
            lemma_skip_skip(d, osc_end(d.skip(2)) + 1);
        }
        let r = scan_osc(q);
        proof {
            let n = osc_end(d.skip(2)) + 1;
            assert(c0 + d.take(2) + d.skip(2).take(n) =~= c0 + d.take(n + 2));
        }
        match r {
            Ok(c) => Scan::Emit(c),
            Err(f) => Scan::Fail(f),
        }
    } else if c2 == CSI {
        proof {
            lemma_find_first(d.skip(2), 0, Stop::CsiEnd);
        }
        match scan_csi(q) {
            None => {
                q.unget(c2);
                q.unget(c1);
                assert(q.pending() =~= d);
                assert(q.consumed() =~= c0);
                Scan::Suspend
            },
            Some(x) => {
                proof {
                    let n = csi_end(d.skip(2)) + 1;
                    lemma_skip_skip(d, n);
                    assert(c0 + d.take(2) + d.skip(2).take(n) =~= c0 + d.take(n + 2));
                }
                match x {
                    Ok(c) => Scan::Emit(Some(c)),
                    Err(f) => Scan::Fail(f),
                }
            },
        }
    } else {
        q.unget(c2);
        assert(q.pending() =~= d.skip(1));
        assert(q.consumed() =~= c0 + d.take(1));
        Scan::Emit(Some(Command::Forward(ESC)))
    }
}

} // verus!
