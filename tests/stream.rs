use colorable::colorable::{Colorable, Coord, WriteOutcome};
use colorable::cursor::{CursorOp, EraseMode, EraseOp};
use colorable::graphics::GraphicsOp;
use colorable::palette::console_color;
use colorable::sequence::{Command, Fault};

fn fwd(s: &[u8]) -> Vec<Command> {
    s.iter().map(|&b| Command::Forward(b)).collect()
}

fn title(s: &[u8]) -> Command {
    Command::SetTitle(s.to_vec())
}

fn ok(o: &WriteOutcome, len: usize) {
    assert_eq!(o.accepted, len);
    assert_eq!(o.fault, None);
}

#[test]
fn plain_text_passes_through() {
    let mut c = Colorable::new(0x07);
    let o = c.write(b"hello, world\n");
    ok(&o, 13);
    assert_eq!(o.commands, fwd(b"hello, world\n"));
}

#[test]
fn plain_text_passes_through_in_any_chunks() {
    let input = b"plain text with no escapes";
    for cut in 0..=input.len() {
        let mut c = Colorable::new(0x07);
        let mut out = c.write(&input[..cut]).commands;
        out.extend(c.write(&input[cut..]).commands);
        assert_eq!(out, fwd(input));
    }
}

#[test]
fn save_cursor_in_one_call() {
    let mut c = Colorable::new(0x07);
    let o = c.write(b"A\x1b7B");
    ok(&o, 4);
    assert_eq!(
        o.commands,
        vec![Command::Forward(b'A'), Command::SaveCursor, Command::Forward(b'B')]
    );
    c.save_cursor(Coord { x: 3, y: 5 });
    assert_eq!(c.saved_cursor(), Coord { x: 3, y: 5 });
}

#[test]
fn saved_cursor_starts_at_origin_and_restore_is_reported() {
    let mut c = Colorable::new(0x07);
    assert_eq!(c.saved_cursor(), Coord { x: 0, y: 0 });
    let o = c.write(b"\x1b8");
    ok(&o, 2);
    assert_eq!(o.commands, vec![Command::RestoreCursor]);
}

#[test]
fn osc_title_split_across_two_calls() {
    let mut c = Colorable::new(0x07);
    let o = c.write(b"A\x1b");
    ok(&o, 2);
    assert_eq!(o.commands, fwd(b"A"));
    let o = c.write(b"]0;title\x07B");
    ok(&o, 10);
    assert_eq!(o.commands, vec![title(b"title"), Command::Forward(b'B')]);
}

#[test]
fn osc_ignored_id_is_a_no_op() {
    let mut c = Colorable::new(0x07);
    let o = c.write(b"\x1b]105;x\x07Z");
    ok(&o, 9);
    assert_eq!(o.commands, fwd(b"Z"));
    let o = c.write(b"\x1b]105;\x07");
    ok(&o, 7);
    assert!(o.commands.is_empty());
}

#[test]
fn osc_id_ended_by_bel_is_malformed() {
    let mut c = Colorable::new(0x07);
    let o = c.write(b"\x1b]105\x07");
    assert!(o.commands.is_empty());
    assert_eq!(o.fault, Some(Fault::MalformedOsc));
    let mut c = Colorable::new(0x07);
    let o = c.write(b"\x1b]1\x07;");
    assert!(o.commands.is_empty());
    assert_eq!(o.fault, Some(Fault::MalformedOsc));
    // The fault consumed the sequence through its BEL; the `;` is kept.
    let o = c.write(b"x");
    assert_eq!(o.commands, fwd(b";x"));
}

#[test]
fn osc_argument_one_byte_per_call() {
    let input = b"\x1b]2;a long window title\x07";
    let mut c = Colorable::new(0x07);
    let mut all = Vec::new();
    for (i, b) in input.iter().enumerate() {
        let o = c.write(&[*b]);
        ok(&o, 1);
        if i + 1 < input.len() {
            assert!(o.commands.is_empty());
        }
        all.extend(o.commands);
    }
    assert_eq!(all, vec![title(b"a long window title")]);
}

#[test]
fn split_at_every_boundary_matches_one_call() {
    let input = b"x\x1b]1;t\x07\x1b7y\x1b8z";
    let mut whole = Colorable::new(0x07);
    let expected = whole.write(input).commands;
    assert_eq!(
        expected,
        vec![
            Command::Forward(b'x'),
            title(b"t"),
            Command::SaveCursor,
            Command::Forward(b'y'),
            Command::RestoreCursor,
            Command::Forward(b'z'),
        ]
    );
    for cut in 0..=input.len() {
        let mut c = Colorable::new(0x07);
        let mut out = c.write(&input[..cut]).commands;
        out.extend(c.write(&input[cut..]).commands);
        assert_eq!(out, expected);
    }
}

#[test]
fn empty_write_after_suspension_changes_nothing() {
    let mut c = Colorable::new(0x07);
    let o = c.write(b"ab\x1b]0;par");
    assert_eq!(o.commands, fwd(b"ab"));
    let o = c.write(b"");
    ok(&o, 0);
    assert!(o.commands.is_empty());
    let o = c.write(b"");
    assert!(o.commands.is_empty());
    let o = c.write(b"tial\x07");
    assert_eq!(o.commands, vec![title(b"partial")]);
}

#[test]
fn lone_introducer_waits_for_next_byte() {
    let mut c = Colorable::new(0x07);
    let o = c.write(b"\x1b");
    ok(&o, 1);
    assert!(o.commands.is_empty());
    let o = c.write(b"7");
    assert_eq!(o.commands, vec![Command::SaveCursor]);
}

#[test]
fn unknown_second_byte_forwards_introducer() {
    let mut c = Colorable::new(0x07);
    let o = c.write(b"\x1bq!");
    ok(&o, 3);
    assert_eq!(o.commands, fwd(b"\x1bq!"));
}

#[test]
fn osc_unsupported_id_is_a_fault() {
    let mut c = Colorable::new(0x07);
    let o = c.write(b"a\x1b]4;1;rgb:ff/00/00\x07b");
    assert_eq!(o.commands, fwd(b"a"));
    assert_eq!(o.fault, Some(Fault::UnsupportedOsc(4)));
    let o = c.write(b"\x1b]52;c;x\x07");
    assert_eq!(o.fault, Some(Fault::UnsupportedOsc(52)));
}

#[test]
fn osc_unknown_id_is_a_fault() {
    let mut c = Colorable::new(0x07);
    let o = c.write(b"\x1b]999;x\x07");
    assert!(o.commands.is_empty());
    assert_eq!(o.fault, Some(Fault::UnknownOsc(999)));
}

#[test]
fn osc_malformed_id_is_a_fault() {
    let mut c = Colorable::new(0x07);
    assert_eq!(c.write(b"\x1b]x;y\x07").fault, Some(Fault::MalformedOsc));
    let mut c = Colorable::new(0x07);
    assert_eq!(c.write(b"\x1b];y\x07").fault, Some(Fault::MalformedOsc));
    let mut c = Colorable::new(0x07);
    assert_eq!(c.write(b"\x1b]99999999999;y\x07").fault, Some(Fault::MalformedOsc));
}

#[test]
fn osc_id_is_decimal() {
    let mut c = Colorable::new(0x07);
    // Decimal 12 is a known but unsupported id; a digit sum would give 3.
    assert_eq!(c.write(b"\x1b]12;x\x07").fault, Some(Fault::UnsupportedOsc(12)));
    let mut c = Colorable::new(0x07);
    assert_eq!(c.write(b"\x1b]1337;x\x07").fault, Some(Fault::UnsupportedOsc(1337)));
}

#[test]
fn csi_waits_for_final_byte_then_faults() {
    let mut c = Colorable::new(0x07);
    let o = c.write(b"a\x1b[1;3");
    ok(&o, 6);
    assert_eq!(o.commands, fwd(b"a"));
    let o = c.write(b"");
    assert!(o.commands.is_empty());
    let o = c.write(b"1Hb");
    assert_eq!(o.fault, None);
    assert_eq!(
        o.commands,
        vec![Command::MoveCursor(CursorOp::To(1, 31)), Command::Forward(b'b')]
    );
}

#[test]
fn csi_unimplemented_final_is_a_fault() {
    let mut c = Colorable::new(0x07);
    let o = c.write(b"a\x1b[2Sb");
    assert_eq!(o.commands, fwd(b"a"));
    assert_eq!(o.fault, Some(Fault::UnsupportedCsi(b'S')));
}

#[test]
fn sgr_basic_colors_and_reset() {
    let mut c = Colorable::new(0x07);
    let o = c.write(b"\x1b[1;31;44mX\x1b[0m");
    ok(&o, 15);
    let red = console_color(4);
    let blue = console_color(1);
    assert_eq!(
        o.commands,
        vec![
            Command::SetGraphics(vec![
                GraphicsOp::Bold,
                GraphicsOp::Foreground(red),
                GraphicsOp::Background(blue),
            ]),
            Command::Forward(b'X'),
            Command::SetGraphics(vec![GraphicsOp::Reset]),
        ]
    );
    if let Command::SetGraphics(ops) = &o.commands[0] {
        assert_eq!(c.graphics_attributes(0x07, ops), 0x0014);
    }
    if let Command::SetGraphics(ops) = &o.commands[2] {
        assert_eq!(c.graphics_attributes(0x0014, ops), 0x07);
    }
}

#[test]
fn sgr_empty_parameters_mean_reset() {
    let mut c = Colorable::new(0x1e);
    let o = c.write(b"\x1b[m");
    assert_eq!(o.commands, vec![Command::SetGraphics(vec![GraphicsOp::Reset])]);
    if let Command::SetGraphics(ops) = &o.commands[0] {
        assert_eq!(c.graphics_attributes(0x4f, ops), 0x1e);
    }
}

#[test]
fn sgr_extended_colors_resolve_to_native() {
    let mut c = Colorable::new(0x07);
    let o = c.write(b"\x1b[38;5;196;48;2;0;0;250m");
    ok(&o, 24);
    assert_eq!(
        o.commands,
        vec![Command::SetGraphics(vec![
            GraphicsOp::Foreground(console_color(12)),
            GraphicsOp::Background(console_color(9)),
        ])]
    );
    if let Command::SetGraphics(ops) = &o.commands[0] {
        assert_eq!(c.graphics_attributes(0x07, ops), 0x009c);
    }
}

#[test]
fn sgr_bright_and_default_colors() {
    let mut c = Colorable::new(0x17);
    let o = c.write(b"\x1b[92;103m\x1b[39;49;22m");
    let ops0 = match &o.commands[0] {
        Command::SetGraphics(ops) => ops.clone(),
        other => panic!("unexpected {:?}", other),
    };
    assert_eq!(
        ops0,
        vec![GraphicsOp::Foreground(console_color(10)), GraphicsOp::Background(console_color(14))]
    );
    let attr = c.graphics_attributes(0x17, &ops0);
    assert_eq!(attr, 0x00ea);
    let ops1 = match &o.commands[1] {
        Command::SetGraphics(ops) => ops.clone(),
        other => panic!("unexpected {:?}", other),
    };
    assert_eq!(
        ops1,
        vec![GraphicsOp::DefaultForeground, GraphicsOp::DefaultBackground, GraphicsOp::NotBold]
    );
    assert_eq!(c.graphics_attributes(attr, &ops1), 0x17);
}

#[test]
fn sgr_unsupported_parameter_is_a_fault() {
    let mut c = Colorable::new(0x07);
    assert_eq!(c.write(b"\x1b[5m").fault, Some(Fault::UnsupportedCsi(b'm')));
    let mut c = Colorable::new(0x07);
    assert_eq!(c.write(b"\x1b[38;5;300m").fault, Some(Fault::UnsupportedCsi(b'm')));
    let mut c = Colorable::new(0x07);
    assert_eq!(c.write(b"\x1b[?25m").fault, Some(Fault::UnsupportedCsi(b'm')));
}

#[test]
fn sgr_split_byte_by_byte() {
    let input = b"\x1b[38;2;255;0;0mR";
    let mut c = Colorable::new(0x07);
    let mut all = Vec::new();
    for b in input.iter() {
        all.extend(c.write(&[*b]).commands);
    }
    assert_eq!(
        all,
        vec![
            Command::SetGraphics(vec![GraphicsOp::Foreground(console_color(12))]),
            Command::Forward(b'R'),
        ]
    );
}

#[test]
fn csi_waits_across_other_bytes_for_final_byte() {
    let mut c = Colorable::new(0x07);
    let o = c.write(b"a\x1b[1\x0a");
    assert_eq!(o.commands, fwd(b"a"));
    assert_eq!(o.fault, None);
    let o = c.write(b"");
    assert!(o.commands.is_empty());
    assert_eq!(o.fault, None);
    let o = c.write(b"\x1b\x7f");
    assert!(o.commands.is_empty());
    assert_eq!(o.fault, None);
    let o = c.write(b"m");
    assert!(o.commands.is_empty());
    assert_eq!(o.fault, Some(Fault::UnsupportedCsi(b'm')));
}

#[test]
fn csi_cursor_movement_is_decoded() {
    let mut c = Colorable::new(0x07);
    let o = c.write(b"\x1b[A\x1b[3B\x1b[0C\x1b[12D\x1b[5;7H\x1b[f\x1b[9H");
    assert_eq!(o.fault, None);
    assert_eq!(
        o.commands,
        vec![
            Command::MoveCursor(CursorOp::Up(1)),
            Command::MoveCursor(CursorOp::Down(3)),
            Command::MoveCursor(CursorOp::Forward(1)),
            Command::MoveCursor(CursorOp::Back(12)),
            Command::MoveCursor(CursorOp::To(5, 7)),
            Command::MoveCursor(CursorOp::To(1, 1)),
            Command::MoveCursor(CursorOp::To(9, 1)),
        ]
    );
}

#[test]
fn csi_erase_is_decoded() {
    let mut c = Colorable::new(0x07);
    let o = c.write(b"\x1b[K\x1b[1K\x1b[2J\x1b[0J");
    assert_eq!(o.fault, None);
    assert_eq!(
        o.commands,
        vec![
            Command::Erase(EraseOp::Line(EraseMode::ToEnd)),
            Command::Erase(EraseOp::Line(EraseMode::ToCursor)),
            Command::Erase(EraseOp::Display(EraseMode::All)),
            Command::Erase(EraseOp::Display(EraseMode::ToEnd)),
        ]
    );
    assert_eq!(c.write(b"\x1b[3J").fault, Some(Fault::UnsupportedCsi(b'J')));
    let mut c = Colorable::new(0x07);
    assert_eq!(c.write(b"\x1b[1;2A").fault, Some(Fault::UnsupportedCsi(b'A')));
}

#[test]
fn true_color_of_each_native_selects_it() {
    for i in 0..16 {
        let native = console_color(i);
        let (r, g, b) = (native.rgb >> 16, (native.rgb >> 8) & 0xff, native.rgb & 0xff);
        let input = format!("\x1b[38;2;{};{};{}mZ", r, g, b);
        let mut c = Colorable::new(0x70);
        let o = c.write(input.as_bytes());
        assert_eq!(o.fault, None);
        assert_eq!(
            o.commands,
            vec![
                Command::SetGraphics(vec![GraphicsOp::Foreground(native)]),
                Command::Forward(b'Z'),
            ]
        );
        if let Command::SetGraphics(ops) = &o.commands[0] {
            assert_eq!(c.graphics_attributes(0x70, ops), 0x70 | native.attr_fore());
        }
    }
}

#[test]
fn split_into_three_calls_matches_one_call() {
    let input = b"\x1b7a\x1b]0;name\x07\x1b8bc";
    let mut whole = Colorable::new(0x07);
    let expected = whole.write(input).commands;
    assert_eq!(
        expected,
        vec![
            Command::SaveCursor,
            Command::Forward(b'a'),
            title(b"name"),
            Command::RestoreCursor,
            Command::Forward(b'b'),
            Command::Forward(b'c'),
        ]
    );
    for i in 0..=input.len() {
        for j in i..=input.len() {
            let mut c = Colorable::new(0x07);
            let mut out = c.write(&input[..i]).commands;
            out.extend(c.write(&input[i..j]).commands);
            out.extend(c.write(&input[j..]).commands);
            assert_eq!(out, expected);
        }
    }
}
