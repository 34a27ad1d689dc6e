use colorable::palette::{
    console_color, distance, nearest_native, nearest_palette, palette_rgb, ConsoleColor,
    BACKGROUND_MASK, FOREGROUND_MASK,
};

#[test]
fn native_colors_resolve_to_themselves() {
    for i in 0..16 {
        let c = console_color(i);
        assert_eq!(nearest_native(c.rgb), i);
    }
}

#[test]
fn resolution_is_deterministic() {
    for rgb in [0x123456u32, 0xfe0101, 0x7f7f7f, 0x00c000] {
        assert_eq!(nearest_native(rgb), nearest_native(rgb));
    }
    for index in 0..=255u8 {
        assert_eq!(nearest_palette(index), nearest_palette(index));
    }
}

#[test]
fn nearest_of_known_colors() {
    assert_eq!(nearest_native(0xff0000), 12);
    assert_eq!(nearest_native(0xfe0101), 12);
    assert_eq!(nearest_native(0x000000), 0);
    assert_eq!(nearest_palette(196), 12);
    assert_eq!(nearest_palette(9), 12);
    assert_eq!(nearest_palette(4), 1);
    assert_eq!(nearest_palette(231), 15);
}

#[test]
fn ties_go_to_lowest_native_index() {
    // 0x000040 is as far from black as from dark blue.
    assert_eq!(distance(0x000040, 0x000000), distance(0x000040, 0x000080));
    assert_eq!(nearest_native(0x000040), 0);
}

#[test]
fn palette_values() {
    assert_eq!(palette_rgb(0), 0x000000);
    assert_eq!(palette_rgb(1), 0x800000);
    assert_eq!(palette_rgb(7), 0xc0c0c0);
    assert_eq!(palette_rgb(12), 0x0000ff);
    assert_eq!(palette_rgb(16), 0x000000);
    assert_eq!(palette_rgb(17), 0x00005f);
    assert_eq!(palette_rgb(22), 0x005f00);
    assert_eq!(palette_rgb(52), 0x5f0000);
    assert_eq!(palette_rgb(124), 0xaf0000);
    assert_eq!(palette_rgb(231), 0xffffff);
    assert_eq!(palette_rgb(232), 0x080808);
    assert_eq!(palette_rgb(233), 0x121212);
    assert_eq!(palette_rgb(255), 0xeeeeee);
}

#[test]
fn distance_sums_channel_differences() {
    assert_eq!(distance(0x102030, 0x000000), 0x10 + 0x20 + 0x30);
    assert_eq!(distance(0x000000, 0x102030), 0x60);
    assert_eq!(distance(0xffffff, 0x000000), 765);
}

#[test]
fn attribute_bits() {
    let c = ConsoleColor::new(0xffff00, true, true, false, true);
    assert_eq!(c.attr_fore(), 0x0004 | 0x0002 | 0x0008);
    assert_eq!(c.attr_back(), 0x0040 | 0x0020 | 0x0080);
    assert_eq!(c.attr_fore() & BACKGROUND_MASK, 0);
    assert_eq!(c.attr_back() & FOREGROUND_MASK, 0);
    let blue = console_color(1);
    assert_eq!(blue.attr_fore(), 0x0001);
    assert_eq!(blue.attr_back(), 0x0010);
}
