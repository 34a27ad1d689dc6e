//! The stream adapter: accepts byte buffers, keeps incomplete sequences for
//! the next call, and hands back the device commands in arrival order.
use vstd::prelude::*;
use crate::bytes::Bytes;
use crate::graphics::{GraphicsOp, apply_graphics, apply_ops};
use crate::recognizer::{Scan, scan};
use crate::sequence::{Action, Command, Fault, Step, lemma_step_bounds, run, step};

verus! {

/// A cursor position on the console, in character cells.
#[derive(Clone, Copy, Debug, PartialEq, Eq, Structural)]
pub struct Coord {
    pub x: i16,
    pub y: i16,
}

/// What one call of `write` produced.
#[derive(Debug)]
pub struct WriteOutcome {
    /// How many bytes of the buffer were taken: always all of them.
    pub accepted: usize,
    /// The device commands, in the order their bytes arrived.
    pub commands: Vec<Command>,
    /// The fault that stopped processing, if one did.
    pub fault: Option<Fault>,
}

pub open spec fn actions_of(commands: Seq<Command>) -> Seq<Action> {
    commands.map_values(|c: Command| c@)
}

/// The translator's state for one output stream: the bytes of a sequence
/// that has not arrived whole, the saved cursor position, and the
/// attribute word the stream started with.
pub struct Colorable {
    rest: Bytes,
    saved: Coord,
    default_attr: u16,
}

impl Colorable {
    /// Bytes kept for the next call.
    pub closed spec fn pending(&self) -> Seq<u8> {
        self.rest.pending()
    }

    pub closed spec fn saved(&self) -> Coord {
        self.saved
    }

    pub closed spec fn default_attributes(&self) -> u16 {
        self.default_attr
    }

    /// A translator for a stream whose device shows `attributes` now.
    pub fn new(attributes: u16) -> (r: Colorable)
        ensures
            r.pending() == Seq::<u8>::empty(),
            r.saved() == (Coord { x: 0, y: 0 }),
            r.default_attributes() == attributes,
    {
        Colorable { rest: Bytes::new(), saved: Coord { x: 0, y: 0 }, default_attr: attributes }
    }

    /// Appends `buf` to the kept bytes and recognizes as much as possible:
    /// plain bytes become `Forward` commands, complete sequences become their
    /// commands, and an incomplete sequence at the end is kept, whole, for
    /// the next call. A fault stops processing after the sequence that
    /// caused it.
    pub fn write(&mut self, buf: &[u8]) -> (r: WriteOutcome)
        ensures
            r.accepted == buf@.len(),
            actions_of(r.commands@) == run(old(self).pending() + buf@).actions,
            r.fault == run(old(self).pending() + buf@).fault,
            final(self).pending() == (old(self).pending() + buf@).skip(
                run(old(self).pending() + buf@).consumed as int,
            ),
            final(self).saved() == old(self).saved(),
            final(self).default_attributes() == old(self).default_attributes(),
    {
        self.rest.extend(buf);
        self.rest.reset_counter();
        let ghost d = self.rest.pending();
        let ghost mut k: int = 0;
        let mut commands: Vec<Command> = Vec::new();
        assert(d.skip(0) =~= d);
        assert(actions_of(commands@) + run(d).actions =~= run(d).actions);
        loop
            invariant
                d == old(self).pending() + buf@,
                0 <= k <= d.len(),
                self.rest.pending() == d.skip(k),
                self.saved == old(self).saved,
                self.default_attr == old(self).default_attr,
                run(d).actions == actions_of(commands@) + run(d.skip(k)).actions,
                run(d).fault == run(d.skip(k)).fault,
                run(d).consumed == k + run(d.skip(k)).consumed,
            decreases d.len() - k,
        {
            let ghost cur = d.skip(k);
            proof {
                lemma_step_bounds(cur);
            }
            match scan(&mut self.rest) {
                Scan::Suspend => {
                    assert(actions_of(commands@) + run(cur).actions =~= actions_of(commands@));
                    return WriteOutcome { accepted: buf.len(), commands, fault: None };
                },
                Scan::Emit(c) => {
                    let ghost n: int = match step(cur) {
                        Step::Emit(_, n) => n as int,
                        _ => 0,
                    };
                    assert(cur.skip(n) =~= d.skip(k + n));
                    let ghost before = commands@;
                    match c {
                        Some(c) => {
                            commands.push(c);
                            assert(actions_of(commands@) =~= actions_of(before).push(c@));
                        },
                        None => {},
                    }
                    proof {
                        assert(actions_of(commands@) + run(d.skip(k + n)).actions =~= actions_of(
                            before,
                        ) + run(cur).actions);
                        k = k + n;
                    }
                },
                Scan::Fail(f) => {
                    assert(actions_of(commands@) + run(cur).actions =~= actions_of(commands@));
                    let ghost n: int = match step(cur) {
                        Step::Fail(_, n) => n as int,
                        _ => 0,
                    };
                    assert(cur.skip(n) =~= d.skip(k + n));
                    return WriteOutcome { accepted: buf.len(), commands, fault: Some(f) };
                },
            }
        }
    }

    /// Stores `pos`, the device's cursor position when a save-cursor
    /// command is carried out.
    pub fn save_cursor(&mut self, pos: Coord)
        ensures
            final(self).saved() == pos,
            final(self).pending() == old(self).pending(),
            final(self).default_attributes() == old(self).default_attributes(),
    {
        self.saved = pos;
    }

    /// The position that a restore-cursor command moves the cursor to.
    pub fn saved_cursor(&self) -> (r: Coord)
        ensures
            r == self.saved(),
    {
        self.saved
    }

    /// The attribute word after a `SetGraphics` command with `ops` is
    /// carried out on a device that shows `attr`.
    pub fn graphics_attributes(&self, attr: u16, ops: &Vec<GraphicsOp>) -> (r: u16)
        ensures
            r == apply_ops(attr, self.default_attributes(), ops@),
    {
        apply_graphics(attr, self.default_attr, ops)
    }
}

} // verus!
