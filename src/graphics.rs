//! Select Graphic Rendition (`ESC [ params m`): parameters, their decoding
//! into attribute operations, and the effect of those on an attribute word.
use vstd::prelude::*;
use crate::palette::{
    NATIVE_COLORS, ConsoleColor, blue_of, console_color, green_of, lemma_native_distinct,
    lemma_rgb_channels, native_colors_are_fixed_points, nearest_is_unique, red_of, native_color, nearest_color, nearest_native,
    nearest_palette, palette_color,
};
use crate::sequence::{
    Action, Step, Stop, CSI, ESC, SEMICOLON, SGR, all_param_bytes, csi_end, is_digit,
    lemma_find_first_is, step, stops,
};

verus! {

/// Parameter values are read up to this bound; larger ones are read as it.
pub const PARAM_CAP: u32 = 65535;

/// One change to the console attribute word.
#[derive(Clone, Copy, Debug, PartialEq, Eq, Structural)]
pub enum GraphicsOp {
    /// Back to the attributes the stream started with.
    Reset,
    /// Set the foreground intensity bit.
    Bold,
    /// Clear the foreground intensity bit.
    NotBold,
    /// Foreground bits of this native colour.
    Foreground(ConsoleColor),
    /// Background bits of this native colour.
    Background(ConsoleColor),
    /// Foreground bits of the starting attributes.
    DefaultForeground,
    /// Background bits of the starting attributes.
    DefaultBackground,
}

pub open spec fn is_param_byte(b: u8) -> bool {
    is_digit(b) || b == SEMICOLON
}

/// After reading `s`: the finished parameters and the one being read.
pub open spec fn param_state(s: Seq<u8>) -> (Seq<u32>, u32)
    decreases s.len(),
{
    if s.len() == 0 {
        (Seq::empty(), 0)
    } else {
        let (done, cur) = param_state(s.drop_last());
        if s.last() == SEMICOLON {
            (done.push(cur), 0)
        } else {
            let v = cur * 10 + (s.last() - 0x30);
            (done, if v > PARAM_CAP { PARAM_CAP } else { v as u32 })
        }
    }
}

/// The `;`-separated decimal parameters of `s`; an empty one reads as 0.
pub open spec fn csi_params(s: Seq<u8>) -> Seq<u32> {
    let (done, cur) = param_state(s);
    done.push(cur)
}

/// The decimal digits of `v`, most significant first, without leading zeros.
pub open spec fn decimal(v: nat) -> Seq<u8>
    decreases v,
{
    if v < 10 {
        seq![(0x30 + v) as u8]
    } else {
        decimal(v / 10).push((0x30 + v % 10) as u8)
    }
}

/// The parameters `vs` written in decimal and separated by `;`.
pub open spec fn param_bytes(vs: Seq<u32>) -> Seq<u8>
    decreases vs.len(),
{
    if vs.len() <= 1 {
        if vs.len() == 0 {
            Seq::empty()
        } else {
            decimal(vs[0] as nat)
        }
    } else {
        param_bytes(vs.drop_last()).push(SEMICOLON) + decimal(vs.last() as nat)
    }
}

proof fn lemma_decimal_digits(v: nat)
    ensures
        all_param_bytes(decimal(v)),
    decreases v,
{
    if v >= 10 {
        lemma_decimal_digits(v / 10);
        let d = decimal(v);
        assert forall|i: int| 0 <= i < d.len() implies is_param_byte(#[trigger] d[i]) by {
            if i < d.len() - 1 {
                assert(d[i] == decimal(v / 10)[i]);
            }
        }
    }
}

proof fn lemma_param_digits(s: Seq<u8>, v: nat)
    requires
        param_state(s).1 == 0,
        v <= PARAM_CAP,
    ensures
        param_state(s + decimal(v)) == (param_state(s).0, v as u32),
    decreases v,
{
    let t = s + decimal(v);
    if v < 10 {
        assert(t.drop_last() =~= s);
    } else {
        lemma_param_digits(s, v / 10);
        assert(t.drop_last() =~= s + decimal(v / 10));
    }
}

/// Reading parameters written in decimal gives them back.
pub proof fn lemma_param_round_trip(vs: Seq<u32>)
    requires
        vs.len() >= 1,
        forall|i: int| 0 <= i < vs.len() ==> #[trigger] vs[i] <= PARAM_CAP,
    ensures
        all_param_bytes(param_bytes(vs)),
        csi_params(param_bytes(vs)) == vs,
    decreases vs.len(),
{
    if vs.len() == 1 {
        lemma_param_digits(Seq::empty(), vs[0] as nat);
        assert(Seq::<u8>::empty() + decimal(vs[0] as nat) =~= param_bytes(vs));
        lemma_decimal_digits(vs[0] as nat);
        assert(Seq::<u32>::empty().push(vs[0]) =~= vs);
    } else {
        let init = vs.drop_last();
        lemma_param_round_trip(init);
        let s = param_bytes(init);
        let s1 = s.push(SEMICOLON);
        assert(s1.drop_last() =~= s);
        assert(param_state(s).0.push(param_state(s).1) =~= init);
        lemma_param_digits(s1, vs.last() as nat);
        lemma_decimal_digits(vs.last() as nat);
        let all = s1 + decimal(vs.last() as nat);
        assert forall|i: int| 0 <= i < all.len() implies is_param_byte(#[trigger] all[i]) by {
            if i < s.len() {
                assert(all[i] == s[i]);
            } else if i > s.len() {
                assert(all[i] == decimal(vs.last() as nat)[i - s.len() - 1]);
            }
        }
        assert(init.push(vs.last()) =~= vs);
    }
}

/// A 24-bit foreground request naming a native colour's own value, sent as
/// the bytes `ESC [ 38;2;R;G;B m`, is one complete step, whatever follows,
/// that selects exactly that native colour; carried out, it sets the
/// foreground bits to that colour's bits and keeps the others.
#[verifier::rlimit(40)]
pub proof fn true_color_request_selects_native(i: int, rest: Seq<u8>, attr: u16, default: u16)
    requires
        0 <= i < NATIVE_COLORS,
    ensures
        ({
            let c = native_color(i);
            let params = param_bytes(
                seq![38u32, 2u32, red_of(c.rgb) as u32, green_of(c.rgb) as u32, blue_of(c.rgb) as u32],
            );
            let d = seq![ESC, CSI] + params + seq![SGR] + rest;
            let ops = seq![GraphicsOp::Foreground(c)];
            &&& step(d) == Step::Emit(Some(Action::SetGraphics(ops)), params.len() + 3)
            &&& apply_ops(attr, default, ops) % 16 == c.fore_bits()
            &&& apply_ops(attr, default, ops) / 16 == attr / 16
        }),
{
    let c = native_color(i);
    lemma_native_distinct(i, (i + 1) % 16);
    lemma_rgb_channels(c.rgb);
    let vs = seq![38u32, 2u32, red_of(c.rgb) as u32, green_of(c.rgb) as u32, blue_of(c.rgb) as u32];
    lemma_param_round_trip(vs);
    let params = param_bytes(vs);
    let d = seq![ESC, CSI] + params + seq![SGR] + rest;
    let body = d.skip(2);
    assert(body =~= params + seq![SGR] + rest);
    assert forall|j: int| 0 <= j < params.len() implies !stops(Stop::CsiEnd, #[trigger] body[j]) by {
        assert(body[j] == params[j]);
        assert(is_param_byte(params[j]));
    }
    assert(body[params.len() as int] == SGR);
    lemma_find_first_is(body, 0, Stop::CsiEnd, params.len() as int);
    assert(body.take(csi_end(body)) =~= params);
    // The requested colour is the native one, which is its own nearest.
    let rgb = (vs[2] * 0x10000 + vs[3] * 0x100 + vs[4]) as u32;
    assert(rgb == c.rgb);
    native_colors_are_fixed_points(i);
    nearest_is_unique(c.rgb, i, nearest_color(c.rgb));
    assert(vs.skip(5) =~= Seq::<u32>::empty());
    assert(sgr_ops(vs.skip(5)) == Some(Seq::<GraphicsOp>::empty()));
    assert(seq![GraphicsOp::Foreground(c)] + Seq::<GraphicsOp>::empty() =~= seq![
        GraphicsOp::Foreground(c),
    ]);
    let ops = seq![GraphicsOp::Foreground(c)];
    assert(sgr_ops(vs) == Some(ops));
    lemma_apply_foreground(attr, default, c);
    assert(csi_end(body) == params.len());
    assert(all_param_bytes(params));
    assert(csi_params(params) == vs);
    assert(crate::sequence::csi_command(SGR, vs) == Some(Action::SetGraphics(ops)));
    assert(crate::sequence::csi_outcome(body) == Ok::<Action, crate::sequence::Fault>(
        Action::SetGraphics(ops),
    ));
}

proof fn lemma_apply_foreground(attr: u16, default: u16, c: ConsoleColor)
    ensures
        apply_ops(attr, default, seq![GraphicsOp::Foreground(c)]) % 16 == c.fore_bits(),
        apply_ops(attr, default, seq![GraphicsOp::Foreground(c)]) / 16 == attr / 16,
{
    let ops = seq![GraphicsOp::Foreground(c)];
    let y = apply_op(attr, default, ops[0]);
    assert(ops.skip(1) =~= Seq::<GraphicsOp>::empty());
    assert(apply_ops(y, default, ops.skip(1)) == y);
    assert(0 <= c.fore_bits() < 16);
}

/// Reads the parameters of a CSI sequence made of digits and `;`.
pub fn parse_params(s: &Vec<u8>) -> (r: Vec<u32>)
    requires
        forall|i: int| 0 <= i < s@.len() ==> is_param_byte(#[trigger] s@[i]),
    ensures
        r@ == csi_params(s@),
{
    let mut done: Vec<u32> = Vec::new();
    let mut cur: u32 = 0;
    let mut i: usize = 0;
    assert(s@.take(0) =~= Seq::<u8>::empty());
    while i < s.len()
        invariant
            i <= s@.len(),
            forall|j: int| 0 <= j < s@.len() ==> is_param_byte(#[trigger] s@[j]),
            (done@, cur) == param_state(s@.take(i as int)),
            cur <= PARAM_CAP,
        decreases s@.len() - i,
    {
        let b = s[i];
        assert(s@.take(i + 1).drop_last() =~= s@.take(i as int));
        assert(s@.take(i + 1).last() == b);
        if b == SEMICOLON {
            done.push(cur);
            cur = 0;
        } else {
            assert(is_digit(b));
            let v = cur * 10 + (b - 0x30) as u32;
            cur = if v > PARAM_CAP {
                PARAM_CAP
            } else {
                v
            };
        }
        i += 1;
    }
    assert(s@.take(s@.len() as int) =~= s@);
    done.push(cur);
    done
}

pub open spec fn color_op(foreground: bool, i: int) -> GraphicsOp {
    if foreground {
        GraphicsOp::Foreground(native_color(i))
    } else {
        GraphicsOp::Background(native_color(i))
    }
}

/// The first operation of the parameters `p`, with how many it uses.
pub open spec fn sgr_first(p: Seq<u32>) -> Option<(GraphicsOp, nat)> {
    let c = p[0];
    if c == 0 {
        Some((GraphicsOp::Reset, 1))
    } else if c == 1 {
        Some((GraphicsOp::Bold, 1))
    } else if c == 22 {
        Some((GraphicsOp::NotBold, 1))
    } else if 30 <= c <= 37 {
        Some((color_op(true, nearest_color(palette_color((c - 30) as u8))), 1))
    } else if c == 39 {
        Some((GraphicsOp::DefaultForeground, 1))
    } else if 40 <= c <= 47 {
        Some((color_op(false, nearest_color(palette_color((c - 40) as u8))), 1))
    } else if c == 49 {
        Some((GraphicsOp::DefaultBackground, 1))
    } else if 90 <= c <= 97 {
        Some((color_op(true, nearest_color(palette_color((c - 82) as u8))), 1))
    } else if 100 <= c <= 107 {
        Some((color_op(false, nearest_color(palette_color((c - 92) as u8))), 1))
    } else if (c == 38 || c == 48) && p.len() >= 3 && p[1] == 5 && p[2] <= 255 {
        Some((color_op(c == 38, nearest_color(palette_color(p[2] as u8))), 3))
    } else if (c == 38 || c == 48) && p.len() >= 5 && p[1] == 2 && p[2] <= 255 && p[3] <= 255
        && p[4] <= 255 {
        let rgb = (p[2] * 0x10000 + p[3] * 0x100 + p[4]) as u32;
        Some((color_op(c == 38, nearest_color(rgb)), 5))
    } else {
        None
    }
}

/// The operations that the parameters `p` ask for, or `None` when one of
/// them is not supported.
pub open spec fn sgr_ops(p: Seq<u32>) -> Option<Seq<GraphicsOp>>
    decreases p.len(),
{
    if p.len() == 0 {
        Some(Seq::empty())
    } else {
        match sgr_first(p) {
            None => None,
            Some((op, n)) => {
                if 0 < n <= p.len() {
                    match sgr_ops(p.skip(n as int)) {
                        Some(rest) => Some(seq![op] + rest),
                        None => None,
                    }
                } else {
                    None
                }
            },
        }
    }
}

fn first_op(p: &Vec<u32>, i: usize) -> (r: Option<(GraphicsOp, usize)>)
    requires
        i < p@.len(),
    ensures
        match (r, sgr_first(p@.skip(i as int))) {
            (None, None) => true,
            (Some((op, n)), Some((op2, n2))) => op == op2 && n == n2 && 0 < n <= p@.len() - i,
            _ => false,
        },
{
    let ghost q = p@.skip(i as int);
    assert(q[0] == p@[i as int]);
    let c = p[i];
    let left = p.len() - i;
    if c == 0 {
        Some((GraphicsOp::Reset, 1))
    } else if c == 1 {
        Some((GraphicsOp::Bold, 1))
    } else if c == 22 {
        Some((GraphicsOp::NotBold, 1))
    } else if 30 <= c && c <= 37 {
        Some((GraphicsOp::Foreground(console_color(nearest_palette((c - 30) as u8))), 1))
    } else if c == 39 {
        Some((GraphicsOp::DefaultForeground, 1))
    } else if 40 <= c && c <= 47 {
        Some((GraphicsOp::Background(console_color(nearest_palette((c - 40) as u8))), 1))
    } else if c == 49 {
        Some((GraphicsOp::DefaultBackground, 1))
    } else if 90 <= c && c <= 97 {
        Some((GraphicsOp::Foreground(console_color(nearest_palette((c - 82) as u8))), 1))
    } else if 100 <= c && c <= 107 {
        Some((GraphicsOp::Background(console_color(nearest_palette((c - 92) as u8))), 1))
    } else if (c == 38 || c == 48) && left >= 3 && p[i + 1] == 5 && p[i + 2] <= 255 {
        assert(q[1] == p@[i + 1] && q[2] == p@[i + 2]);
        let n = console_color(nearest_palette(p[i + 2] as u8));
        if c == 38 {
            Some((GraphicsOp::Foreground(n), 3))
        } else {
            Some((GraphicsOp::Background(n), 3))
        }
    } else if (c == 38 || c == 48) && left >= 5 && p[i + 1] == 2 && p[i + 2] <= 255 && p[i + 3]
        <= 255 && p[i + 4] <= 255 {
        assert(q[1] == p@[i + 1] && q[2] == p@[i + 2] && q[3] == p@[i + 3] && q[4] == p@[i
            + 4]);
        let rgb = p[i + 2] * 0x10000 + p[i + 3] * 0x100 + p[i + 4];
        let n = console_color(nearest_native(rgb));
        if c == 38 {
            Some((GraphicsOp::Foreground(n), 5))
        } else {
            Some((GraphicsOp::Background(n), 5))
        }
    } else {
        if (c == 38 || c == 48) && left >= 3 {
            assert(q[1] == p@[i + 1] && q[2] == p@[i + 2]);
        }
        if (c == 38 || c == 48) && left >= 5 {
            assert(q[1] == p@[i + 1] && q[2] == p@[i + 2] && q[3] == p@[i + 3] && q[4] == p@[i
                + 4]);
        }
        None
    }
}

pub open spec fn prepend(a: Seq<GraphicsOp>, o: Option<Seq<GraphicsOp>>) -> Option<
    Seq<GraphicsOp>,
> {
    match o {
        Some(rest) => Some(a + rest),
        None => None,
    }
}

/// Decodes SGR parameters into operations, resolving 256-colour and 24-bit
/// colours to native ones; `None` when a parameter is not supported.
pub fn decode_sgr(p: &Vec<u32>) -> (r: Option<Vec<GraphicsOp>>)
    ensures
        match (r, sgr_ops(p@)) {
            (Some(ops), Some(want)) => ops@ == want,
            (None, None) => true,
            _ => false,
        },
{
    let mut ops: Vec<GraphicsOp> = Vec::new();
    let mut i: usize = 0;
    assert(p@.skip(0) =~= p@);
    assert(prepend(ops@, sgr_ops(p@.skip(0))) =~= sgr_ops(p@));
    while i < p.len()
        invariant
            i <= p@.len(),
            sgr_ops(p@) == prepend(ops@, sgr_ops(p@.skip(i as int))),
        decreases p@.len() - i,
    {
        let ghost q = p@.skip(i as int);
        match first_op(p, i) {
            None => {
                return None;
            },
            Some((op, n)) => {
                let ghost before = ops@;
                assert(q.skip(n as int) =~= p@.skip(i + n));
                ops.push(op);
                proof {
                    match sgr_ops(q.skip(n as int)) {
                        Some(rest) => {
                            assert(before + (seq![op] + rest) =~= ops@ + rest);
                        },
                        None => {},
                    }
                }
                i = i + n;
            },
        }
    }
    assert(p@.skip(i as int) =~= Seq::<u32>::empty());
    assert(ops@ + Seq::<GraphicsOp>::empty() =~= ops@);
    Some(ops)
}

/// `attr` with its foreground bits (the low four) replaced by `f`.
pub open spec fn with_fore(attr: u16, f: int) -> u16 {
    (attr as int / 16 * 16 + f) as u16
}

/// `attr` with its background bits (the next four) replaced by `b`.
pub open spec fn with_back(attr: u16, b: int) -> u16 {
    (attr as int / 256 * 256 + b + attr as int % 16) as u16
}

/// The attribute word after one operation; `default` is the word the
/// stream started with.
pub open spec fn apply_op(attr: u16, default: u16, op: GraphicsOp) -> u16 {
    match op {
        GraphicsOp::Reset => default,
        GraphicsOp::Bold => if attr % 16 >= 8 {
            attr
        } else {
            (attr + 8) as u16
        },
        GraphicsOp::NotBold => if attr % 16 >= 8 {
            (attr - 8) as u16
        } else {
            attr
        },
        GraphicsOp::Foreground(c) => with_fore(attr, c.fore_bits()),
        GraphicsOp::Background(c) => with_back(attr, c.back_bits()),
        GraphicsOp::DefaultForeground => with_fore(attr, default as int % 16),
        GraphicsOp::DefaultBackground => with_back(attr, default as int / 16 % 16 * 16),
    }
}

/// The attribute word after the operations, applied in order.
pub open spec fn apply_ops(attr: u16, default: u16, ops: Seq<GraphicsOp>) -> u16
    decreases ops.len(),
{
    if ops.len() == 0 {
        attr
    } else {
        apply_ops(apply_op(attr, default, ops[0]), default, ops.skip(1))
    }
}

fn apply_one(attr: u16, default: u16, op: GraphicsOp) -> (r: u16)
    ensures
        r == apply_op(attr, default, op),
{
    match op {
        GraphicsOp::Reset => default,
        GraphicsOp::Bold => if attr % 16 >= 8 {
            attr
        } else {
            attr + 8
        },
        GraphicsOp::NotBold => if attr % 16 >= 8 {
            attr - 8
        } else {
            attr
        },
        GraphicsOp::Foreground(c) => {
            let f = c.attr_fore();
            attr / 16 * 16 + f
        },
        GraphicsOp::Background(c) => {
            let b = c.attr_back();
            attr / 256 * 256 + b + attr % 16
        },
        GraphicsOp::DefaultForeground => attr / 16 * 16 + default % 16,
        GraphicsOp::DefaultBackground => attr / 256 * 256 + default / 16 % 16 * 16 + attr % 16,
    }
}

/// The attribute word after applying `ops` to `attr`, where `default` is
/// the word the stream started with.
pub fn apply_graphics(attr: u16, default: u16, ops: &Vec<GraphicsOp>) -> (r: u16)
    ensures
        r == apply_ops(attr, default, ops@),
{
    let mut cur = attr;
    let mut i: usize = 0;
    assert(ops@.skip(0) =~= ops@);
    while i < ops.len()
        invariant
            i <= ops@.len(),
            apply_ops(attr, default, ops@) == apply_ops(cur, default, ops@.skip(i as int)),
        decreases ops@.len() - i,
    {
        let op = ops[i];
        assert(ops@.skip(i as int)[0] == op);
        assert(ops@.skip(i as int).skip(1) =~= ops@.skip(i + 1));
        cur = apply_one(cur, default, op);
        i += 1;
    }
    cur
}

} // verus!
