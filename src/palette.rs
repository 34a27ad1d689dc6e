//! Colour tables and the nearest-colour resolver that downgrades a 256-colour
//! index or a 24-bit colour to one of the console's 16 native colours.
use vstd::prelude::*;

verus! {

pub const FOREGROUND_BLUE: u16 = 0x0001;
pub const FOREGROUND_GREEN: u16 = 0x0002;
pub const FOREGROUND_RED: u16 = 0x0004;
pub const FOREGROUND_INTENSITY: u16 = 0x0008;
pub const BACKGROUND_BLUE: u16 = 0x0010;
pub const BACKGROUND_GREEN: u16 = 0x0020;
pub const BACKGROUND_RED: u16 = 0x0040;
pub const BACKGROUND_INTENSITY: u16 = 0x0080;

/// All foreground bits of a console attribute word.
pub const FOREGROUND_MASK: u16 = 0x000f;

/// All background bits of a console attribute word.
pub const BACKGROUND_MASK: u16 = 0x00f0;

/// Number of native console colours.
pub const NATIVE_COLORS: usize = 16;

/// A native console colour: its 24-bit value and the attribute bits that
/// select it.
#[derive(Clone, Copy, Debug, PartialEq, Eq, Structural)]
pub struct ConsoleColor {
    pub rgb: u32,
    pub red: bool,
    pub green: bool,
    pub blue: bool,
    pub intensity: bool,
}

pub open spec fn bit(b: bool, v: u16) -> int {
    if b {
        v as int
    } else {
        0
    }
}

impl ConsoleColor {
    pub fn new(rgb: u32, red: bool, green: bool, blue: bool, intensity: bool) -> (r: ConsoleColor)
        ensures
            r == (ConsoleColor { rgb, red, green, blue, intensity }),
    {
        ConsoleColor { rgb, red, green, blue, intensity }
    }

    pub open spec fn fore_bits(&self) -> int {
        bit(self.red, FOREGROUND_RED) + bit(self.green, FOREGROUND_GREEN) + bit(
            self.blue,
            FOREGROUND_BLUE,
        ) + bit(self.intensity, FOREGROUND_INTENSITY)
    }

    pub open spec fn back_bits(&self) -> int {
        bit(self.red, BACKGROUND_RED) + bit(self.green, BACKGROUND_GREEN) + bit(
            self.blue,
            BACKGROUND_BLUE,
        ) + bit(self.intensity, BACKGROUND_INTENSITY)
    }

    /// The attribute bits that show this colour as the foreground.
    pub fn attr_fore(&self) -> (r: u16)
        ensures
            r == self.fore_bits(),
            r < 16,
            r & BACKGROUND_MASK == 0,
    {
        let mut attr: u16 = 0;
        if self.red {
            attr = attr + FOREGROUND_RED;
        }
        if self.green {
            attr = attr + FOREGROUND_GREEN;
        }
        if self.blue {
            attr = attr + FOREGROUND_BLUE;
        }
        if self.intensity {
            attr = attr + FOREGROUND_INTENSITY;
        }
        assert(attr < 16);
        assert(attr < 16 ==> attr & 0xf0 == 0) by (bit_vector);
        attr
    }

    /// The attribute bits that show this colour as the background.
    pub fn attr_back(&self) -> (r: u16)
        ensures
            r == self.back_bits(),
            r % 16 == 0 && r < 256,
            r & FOREGROUND_MASK == 0,
    {
        let mut attr: u16 = 0;
        if self.red {
            attr = attr + BACKGROUND_RED;
        }
        if self.green {
            attr = attr + BACKGROUND_GREEN;
        }
        if self.blue {
            attr = attr + BACKGROUND_BLUE;
        }
        if self.intensity {
            attr = attr + BACKGROUND_INTENSITY;
        }
        assert(attr % 16 == 0 && attr < 256);
        assert(attr % 16 == 0 && attr < 256 ==> attr & 0x0f == 0) by (bit_vector);
        attr
    }
}

/// The 16 native colours, in the console's own order.
pub open spec fn native_color(i: int) -> ConsoleColor {
    let (rgb, red, green, blue, intensity) = if i == 0 {
        (0x000000u32, false, false, false, false)
    } else if i == 1 {
        (0x000080u32, false, false, true, false)
    } else if i == 2 {
        (0x008000u32, false, true, false, false)
    } else if i == 3 {
        (0x008080u32, false, true, true, false)
    } else if i == 4 {
        (0x800000u32, true, false, false, false)
    } else if i == 5 {
        (0x800080u32, true, false, true, false)
    } else if i == 6 {
        (0x808000u32, true, true, false, false)
    } else if i == 7 {
        (0xc0c0c0u32, true, true, true, false)
    } else if i == 8 {
        (0x808080u32, false, false, false, true)
    } else if i == 9 {
        (0x0000ffu32, false, false, true, true)
    } else if i == 10 {
        (0x00ff00u32, false, true, false, true)
    } else if i == 11 {
        (0x00ffffu32, false, true, true, true)
    } else if i == 12 {
        (0xff0000u32, true, false, false, true)
    } else if i == 13 {
        (0xff00ffu32, true, false, true, true)
    } else if i == 14 {
        (0xffff00u32, true, true, false, true)
    } else {
        (0xffffffu32, true, true, true, true)
    };
    ConsoleColor { rgb, red, green, blue, intensity }
}

/// The native colour at index `i`.
pub fn console_color(i: usize) -> (r: ConsoleColor)
    requires
        i < NATIVE_COLORS,
    ensures
        r == native_color(i as int),
{
    if i == 0 {
        ConsoleColor::new(0x000000, false, false, false, false)
    } else if i == 1 {
        ConsoleColor::new(0x000080, false, false, true, false)
    } else if i == 2 {
        ConsoleColor::new(0x008000, false, true, false, false)
    } else if i == 3 {
        ConsoleColor::new(0x008080, false, true, true, false)
    } else if i == 4 {
        ConsoleColor::new(0x800000, true, false, false, false)
    } else if i == 5 {
        ConsoleColor::new(0x800080, true, false, true, false)
    } else if i == 6 {
        ConsoleColor::new(0x808000, true, true, false, false)
    } else if i == 7 {
        ConsoleColor::new(0xc0c0c0, true, true, true, false)
    } else if i == 8 {
        ConsoleColor::new(0x808080, false, false, false, true)
    } else if i == 9 {
        ConsoleColor::new(0x0000ff, false, false, true, true)
    } else if i == 10 {
        ConsoleColor::new(0x00ff00, false, true, false, true)
    } else if i == 11 {
        ConsoleColor::new(0x00ffff, false, true, true, true)
    } else if i == 12 {
        ConsoleColor::new(0xff0000, true, false, false, true)
    } else if i == 13 {
        ConsoleColor::new(0xff00ff, true, false, true, true)
    } else if i == 14 {
        ConsoleColor::new(0xffff00, true, true, false, true)
    } else {
        ConsoleColor::new(0xffffff, true, true, true, true)
    }
}

/// The 16 basic colours of the 256-colour palette, in the terminal's order.
pub open spec fn basic_rgb(i: int) -> u32 {
    if i == 0 {
        0x000000
    } else if i == 1 {
        0x800000
    } else if i == 2 {
        0x008000
    } else if i == 3 {
        0x808000
    } else if i == 4 {
        0x000080
    } else if i == 5 {
        0x800080
    } else if i == 6 {
        0x008080
    } else if i == 7 {
        0xc0c0c0
    } else if i == 8 {
        0x808080
    } else if i == 9 {
        0xff0000
    } else if i == 10 {
        0x00ff00
    } else if i == 11 {
        0xffff00
    } else if i == 12 {
        0x0000ff
    } else if i == 13 {
        0xff00ff
    } else if i == 14 {
        0x00ffff
    } else {
        0xffffff
    }
}

/// The six channel levels of the 6x6x6 colour cube.
pub open spec fn cube_level(i: int) -> u32 {
    if i == 0 {
        0x00
    } else if i == 1 {
        0x5f
    } else if i == 2 {
        0x87
    } else if i == 3 {
        0xaf
    } else if i == 4 {
        0xd7
    } else {
        0xff
    }
}

/// The 24-bit value of a 256-colour palette index: 16 basic colours, a
/// 6x6x6 cube, then 24 greys from 0x08 up in steps of 10.
pub open spec fn palette_color(index: u8) -> u32 {
    let i = index as int;
    if i < 16 {
        basic_rgb(i)
    } else if i < 232 {
        let c = i - 16;
        (cube_level(c / 36) * 0x10000 + cube_level((c / 6) % 6) * 0x100 + cube_level(
            c % 6,
        )) as u32
    } else {
        let g = 8 + 10 * (i - 232);
        (g * 0x10000 + g * 0x100 + g) as u32
    }
}

fn basic_color(i: u8) -> (r: u32)
    requires
        i < 16,
    ensures
        r == basic_rgb(i as int),
{
    if i == 0 {
        0x000000
    } else if i == 1 {
        0x800000
    } else if i == 2 {
        0x008000
    } else if i == 3 {
        0x808000
    } else if i == 4 {
        0x000080
    } else if i == 5 {
        0x800080
    } else if i == 6 {
        0x008080
    } else if i == 7 {
        0xc0c0c0
    } else if i == 8 {
        0x808080
    } else if i == 9 {
        0xff0000
    } else if i == 10 {
        0x00ff00
    } else if i == 11 {
        0xffff00
    } else if i == 12 {
        0x0000ff
    } else if i == 13 {
        0xff00ff
    } else if i == 14 {
        0x00ffff
    } else {
        0xffffff
    }
}

fn level(i: u32) -> (r: u32)
    requires
        i < 6,
    ensures
        r == cube_level(i as int),
        r <= 0xff,
{
    if i == 0 {
        0x00
    } else if i == 1 {
        0x5f
    } else if i == 2 {
        0x87
    } else if i == 3 {
        0xaf
    } else if i == 4 {
        0xd7
    } else {
        0xff
    }
}

/// The 24-bit value of a 256-colour palette index.
pub fn palette_rgb(index: u8) -> (r: u32)
    ensures
        r == palette_color(index),
{
    if index < 16 {
        basic_color(index)
    } else if index < 232 {
        let c = (index - 16) as u32;
        let r = level(c / 36);
        let g = level((c / 6) % 6);
        let b = level(c % 6);
        r * 0x10000 + g * 0x100 + b
    } else {
        let g = 8 + 10 * ((index - 232) as u32);
        g * 0x10000 + g * 0x100 + g
    }
}

pub open spec fn red_of(rgb: u32) -> int {
    (rgb as int / 0x10000) % 0x100
}

pub open spec fn green_of(rgb: u32) -> int {
    (rgb as int / 0x100) % 0x100
}

pub open spec fn blue_of(rgb: u32) -> int {
    rgb as int % 0x100
}

pub open spec fn abs_diff(a: int, b: int) -> int {
    if a >= b {
        a - b
    } else {
        b - a
    }
}

/// The distance between two colours: the sum of the channel differences.
pub open spec fn color_distance(a: u32, b: u32) -> int {
    abs_diff(red_of(a), red_of(b)) + abs_diff(green_of(a), green_of(b)) + abs_diff(
        blue_of(a),
        blue_of(b),
    )
}

/// Native colour `i` is nearest to `rgb`: no native colour is closer, and
/// every native colour with a lower index is farther.
pub open spec fn is_nearest(rgb: u32, i: int) -> bool {
    &&& 0 <= i < NATIVE_COLORS
    &&& forall|j: int|
        0 <= j < NATIVE_COLORS ==> color_distance(rgb, native_color(i).rgb) <= color_distance(
            rgb,
            #[trigger] native_color(j).rgb,
        )
    &&& forall|j: int|
        0 <= j < i ==> color_distance(rgb, native_color(i).rgb) < color_distance(
            rgb,
            #[trigger] native_color(j).rgb,
        )
}

/// The native colour nearest to `rgb`.
pub open spec fn nearest_color(rgb: u32) -> int {
    choose|i: int| is_nearest(rgb, i)
}

fn channel_diff(a: u32, b: u32) -> (r: u32)
    requires
        a <= 0xff,
        b <= 0xff,
    ensures
        r == abs_diff(a as int, b as int),
        r <= 0xff,
{
    if a >= b {
        a - b
    } else {
        b - a
    }
}

/// The distance between two 24-bit colours.
pub fn distance(a: u32, b: u32) -> (r: u32)
    ensures
        r == color_distance(a, b),
{
    let dr = channel_diff(a / 0x10000 % 0x100, b / 0x10000 % 0x100);
    let dg = channel_diff(a / 0x100 % 0x100, b / 0x100 % 0x100);
    let db = channel_diff(a % 0x100, b % 0x100);
    dr + dg + db
}

/// The index of the native colour nearest to a 24-bit colour.
pub fn nearest_native(rgb: u32) -> (r: usize)
    ensures
        is_nearest(rgb, r as int),
        r == nearest_color(rgb),
{
    let mut best: usize = 0;
    let mut best_d = distance(rgb, console_color(0).rgb);
    let mut i: usize = 1;
    while i < NATIVE_COLORS
        invariant
            1 <= i <= NATIVE_COLORS,
            best < i,
            best_d == color_distance(rgb, native_color(best as int).rgb),
            forall|j: int| 0 <= j < i ==> best_d <= color_distance(rgb, #[trigger] native_color(j).rgb),
            forall|j: int| 0 <= j < best ==> best_d < color_distance(rgb, #[trigger] native_color(j).rgb),
        decreases NATIVE_COLORS - i,
    {
        let d = distance(rgb, console_color(i).rgb);
        if d < best_d {
            best = i;
            best_d = d;
        }
        i += 1;
    }
    proof {
        assert(is_nearest(rgb, best as int));
        nearest_is_unique(rgb, best as int, nearest_color(rgb));
    }
    best
}

/// The index of the native colour nearest to a 256-colour palette entry.
pub fn nearest_palette(index: u8) -> (r: usize)
    ensures
        is_nearest(palette_color(index), r as int),
        r == nearest_color(palette_color(index)),
{
    nearest_native(palette_rgb(index))
}

/// Resolution is a function of the colour alone: one colour has exactly one
/// nearest native colour, so resolving it twice gives the same answer.
pub proof fn nearest_is_unique(rgb: u32, i: int, j: int)
    requires
        is_nearest(rgb, i),
        is_nearest(rgb, j),
    ensures
        i == j,
{
    if i < j {
        assert(color_distance(rgb, native_color(j).rgb) < color_distance(rgb, native_color(i).rgb));
    } else if j < i {
        assert(color_distance(rgb, native_color(i).rgb) < color_distance(rgb, native_color(j).rgb));
    }
}

/// A 24-bit colour is made of its three channels.
pub proof fn lemma_rgb_channels(a: u32)
    requires
        a < 0x1000000,
    ensures
        a as int == red_of(a) * 0x10000 + green_of(a) * 0x100 + blue_of(a),
        0 <= red_of(a) < 0x100,
        0 <= green_of(a) < 0x100,
        0 <= blue_of(a) < 0x100,
{
}

proof fn lemma_zero_distance(a: u32, b: u32)
    requires
        a < 0x1000000,
        b < 0x1000000,
        color_distance(a, b) == 0,
    ensures
        a == b,
{
    assert(a as int == red_of(a) * 0x10000 + green_of(a) * 0x100 + blue_of(a));
    assert(b as int == red_of(b) * 0x10000 + green_of(b) * 0x100 + blue_of(b));
}

pub proof fn lemma_native_distinct(i: int, j: int)
    requires
        0 <= i < NATIVE_COLORS,
        0 <= j < NATIVE_COLORS,
        i != j,
    ensures
        native_color(i).rgb != native_color(j).rgb,
        native_color(i).rgb < 0x1000000,
{
}

/// Each native colour's own value resolves to that native colour.
pub proof fn native_colors_are_fixed_points(i: int)
    requires
        0 <= i < NATIVE_COLORS,
    ensures
        is_nearest(native_color(i).rgb, i),
{
    let c = native_color(i).rgb;
    assert forall|j: int| 0 <= j < NATIVE_COLORS && j != i implies color_distance(
        c,
        #[trigger] native_color(j).rgb,
    ) > 0 by {
        lemma_native_distinct(i, j);
        lemma_native_distinct(j, i);
        if color_distance(c, native_color(j).rgb) == 0 {
            lemma_zero_distance(c, native_color(j).rgb);
        }
    }
    assert(color_distance(c, c) == 0);
}

} // verus!
