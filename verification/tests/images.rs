use moosereader::i18n::Language;
use moosereader::images::{base64, fit, parse_row, picture_id, Kitty, Layout, Mode, Setting, TerminalEnv, MARKER};
use moosereader::pictures::{block_lines, center_on, picture_lines, transmit, Picture};
use std::io::{Cursor, Write};

fn layout(mode: Mode, max_rows: usize) -> Layout {
    Layout {
        mode,
        cell: (10, 20),
        max_rows,
        background: (0, 0, 0),
    }
}

fn env(term: &str, colorterm: &str) -> TerminalEnv {
    TerminalEnv {
        term: term.to_string(),
        tmux: String::new(),
        term_program: String::new(),
        kitty_window_id: String::new(),
        colorterm: colorterm.to_string(),
    }
}

/// An archive holding the given files.
fn archive(files: &[(&str, &[u8])]) -> Vec<u8> {
    let mut zip = zip::ZipWriter::new(Cursor::new(Vec::new()));
    for (name, body) in files {
        zip.start_file(*name, zip::write::SimpleFileOptions::default())
            .unwrap();
        zip.write_all(body).unwrap();
    }
    zip.finish().unwrap().into_inner()
}

/// A PNG of one color.
fn png(width: u32, height: u32, rgba: [u8; 4]) -> Vec<u8> {
    let mut bytes = Cursor::new(Vec::new());
    image::RgbaImage::from_pixel(width, height, image::Rgba(rgba))
        .write_to(&mut bytes, image::ImageFormat::Png)
        .unwrap();
    bytes.into_inner()
}

#[test]
fn base64_matches_rfc_4648() {
    for (plain, encoded) in [
        ("", ""),
        ("f", "Zg=="),
        ("fo", "Zm8="),
        ("foo", "Zm9v"),
        ("foobar", "Zm9vYmFy"),
    ] {
        assert_eq!(base64(plain.as_bytes()), encoded);
    }
}

#[test]
fn pictures_fit_the_text_width_and_the_screen() {
    // Natural size when it fits: 400 px over 10 px cells
    assert_eq!(fit(400, 600, 60, &layout(Mode::Kitty, 100)), (40, 30));
    // Shrunk to the screen height, keeping its shape
    assert_eq!(fit(400, 600, 60, &layout(Mode::Kitty, 20)), (27, 20));
    // Shrunk to the text width
    assert_eq!(fit(2000, 1000, 50, &layout(Mode::Kitty, 100)), (50, 13));
}

#[test]
fn kitty_transmission_is_chunked() {
    // 4096 bytes: one full chunk and a partial one
    let canvas = Picture {
        width: 32,
        height: 32,
        pixels: vec![0; 32 * 32 * 4],
    };
    let text = transmit(7, &canvas);
    let commands: Vec<&str> = text.split("\x1b\\").filter(|c| !c.is_empty()).collect();
    assert_eq!(commands.len(), 2);
    assert!(commands[0].starts_with("\x1b_Ga=t,f=32,s=32,v=32,i=7,q=2,m=1;"));
    assert_eq!(commands[0].split(';').nth(1).unwrap().len(), 4096);
    assert!(commands[1].starts_with("\x1b_Gm=0;"));
}

#[test]
fn marker_rows_round_trip() {
    let line = format!("{MARKER}3\x1f10\x1f4\x1f40\x1fOEBPS/images/a b.jpg");
    let row = parse_row(&line).unwrap();
    assert_eq!((row.row, row.rows, row.col, row.cols), (3, 10, 4, 40));
    assert_eq!(row.path, "OEBPS/images/a b.jpg");
    assert!(parse_row("plain text").is_none());
}

#[test]
fn half_blocks_paint_two_pixels_per_cell() {
    let mut pixels = vec![0u8; 2 * 2 * 4];
    pixels[0..4].copy_from_slice(&[255, 0, 0, 255]);
    pixels[8..12].copy_from_slice(&[0, 0, 255, 255]);
    let canvas = Picture {
        width: 2,
        height: 2,
        pixels,
    };
    // The right column is transparent and takes the background
    let lines = block_lines(&canvas, 1, (9, 9, 9));
    assert_eq!(
        lines,
        [
            "\x1b[38;2;255;0;0m\x1b[48;2;0;0;255m▀\x1b[38;2;9;9;9m\x1b[48;2;9;9;9m▀\x1b[39;49m"
                .to_string()
        ]
        .map(|l| format!(" {}", l))
    );
}

#[test]
fn settings_cycle_through_every_mode() {
    let mut setting = Setting::Auto;
    for _ in 0..4 {
        setting = setting.next();
    }
    assert_eq!(setting, Setting::Auto);
    assert_eq!(Setting::Auto.prev(), Setting::Off);
    let plain = env("xterm-256color", "");
    assert_eq!(Mode::from_setting(Setting::Kitty, &plain), Mode::Kitty);
    assert_eq!(Mode::from_setting(Setting::Blocks, &plain), Mode::Blocks);
    assert_eq!(Mode::from_setting(Setting::Off, &plain), Mode::Labels);
}

#[test]
fn auto_goes_by_what_the_terminal_can_draw() {
    assert_eq!(Mode::from_setting(Setting::Auto, &env("xterm-kitty", "")), Mode::Kitty);
    assert_eq!(Mode::from_setting(Setting::Auto, &env("xterm-256color", "truecolor")), Mode::Blocks);
    assert_eq!(Mode::from_setting(Setting::Auto, &env("xterm-256color", "")), Mode::Labels);
    let mut tmux = env("xterm-kitty", "24bit");
    tmux.tmux = "/tmp/tmux-1000/default,1,0".to_string();
    assert_eq!(Mode::from_setting(Setting::Auto, &tmux), Mode::Blocks);
}

#[test]
fn kitty_places_the_visible_rows_and_sends_each_picture_once() {
    let picture = png(100, 200, [0, 120, 200, 255]);
    let book = archive(&[("p.png", &picture)]);
    let layout = layout(Mode::Kitty, 30);
    // 100 x 200 px on 10 x 20 px cells: 10 columns by 10 rows
    let mut lines = vec!["text".to_string()];
    lines.extend(picture_lines(&book, "p.png", 40, 0, &layout, Language::English));
    lines.push("text".to_string());
    assert_eq!(lines.len(), 12);

    let mut kitty = Kitty::new();
    // Scrolled so the picture's first three rows are off the top
    let (frame, sent) = kitty.draw(&lines, 4, 20, &layout, &book);
    assert!(frame.contains("\x1b[1;16H"), "top row, centered: {frame:?}");
    assert!(frame.contains("y=60,w=100,h=140,c=10,r=7"), "{frame:?}");
    assert_eq!(sent.matches("a=t,").count(), 1);

    let (_, sent) = kitty.draw(&lines, 0, 20, &layout, &book);
    assert!(sent.is_empty(), "the terminal already has it");
}

#[test]
fn nothing_is_cleared_or_freed_until_a_picture_is_sent() {
    let mut kitty = Kitty::new();
    assert!(kitty.clear().is_empty());
    kitty.mark_sent(42);
    assert_eq!(kitty.clear(), "\x1b_Ga=d,d=a,q=2\x1b\\");
    let released = kitty.release();
    assert_eq!(released, "\x1b_Ga=d,d=I,i=42,q=2\x1b\\");
    assert!(!kitty.has(42));
    assert!(kitty.clear().is_empty());
}

#[test]
fn broken_or_missing_pictures_get_a_label() {
    let book = archive(&[("bad.png", b"not a picture")]);
    for mode in [Mode::Kitty, Mode::Blocks, Mode::Labels] {
        for path in ["bad.png", "missing.png"] {
            let lines = picture_lines(&book, path, 40, 2, &layout(mode, 30), Language::English);
            assert_eq!(lines, ["  \x1b[2m[Image]\x1b[22m"], "{mode:?} {path}");
        }
    }
}

#[test]
fn half_block_pictures_take_half_as_many_lines_as_pixel_rows() {
    let picture = png(20, 40, [10, 20, 30, 255]);
    let book = archive(&[("p.png", &picture)]);
    let mut l = layout(Mode::Blocks, 30);
    l.background = (1, 2, 3);
    // 20 x 40 px on 10 x 20 px cells: 2 columns by 2 rows, four pixel rows
    let lines = picture_lines(&book, "p.png", 10, 1, &l, Language::English);
    assert_eq!(lines.len(), 2);
    assert!(lines[0].starts_with("     \x1b[38;2;10;20;30m\x1b[48;2;10;20;30m▀▀"), "{:?}", lines[0]);
    assert!(lines[0].ends_with("\x1b[39;49m"));
}

#[test]
fn picture_ids_depend_on_path_and_size() {
    let a = picture_id("a.png", 100, 200);
    assert_eq!(a, picture_id("a.png", 100, 200));
    assert_ne!(a, picture_id("b.png", 100, 200));
    assert_ne!(a, picture_id("a.png", 200, 100));
    assert!(a >= 1 && a < 0x8000_0000);
}

#[test]
fn labels_layout_is_plain() {
    let l = Layout::labels();
    assert_eq!(l.mode, Mode::Labels);
    assert_eq!(l.cell, (10, 20));
    assert_eq!(l.max_rows, 24);
}

#[test]
fn pictures_never_leave_the_page() {
    // A tiny picture still takes a cell; a huge one no more than the text and the page
    assert_eq!(fit(1, 1, 0, &layout(Mode::Kitty, 0)), (1, 1));
    let (cols, rows) = fit(100_000, 3, 5, &layout(Mode::Kitty, 7));
    assert!((1..=5).contains(&cols) && (1..=7).contains(&rows));
    let (cols, rows) = fit(3, 100_000, 5, &layout(Mode::Kitty, 7));
    assert!((1..=5).contains(&cols) && (1..=7).contains(&rows));
}

#[test]
fn reserved_rows_read_back_as_written() {
    let picture = png(40, 60, [1, 2, 3, 255]);
    let book = archive(&[("OEBPS/a\x1fb.png", &picture)]);
    let lines = picture_lines(&book, "OEBPS/a\x1fb.png", 40, 3, &layout(Mode::Kitty, 30), Language::English);
    assert_eq!(lines.len(), 3);
    for (i, line) in lines.iter().enumerate() {
        let row = parse_row(line).unwrap();
        assert_eq!((row.row, row.rows, row.col, row.cols), (i, 3, 3 + (40 - 4) / 2, 4));
        assert_eq!(row.path, "OEBPS/a\x1fb.png");
    }
}

#[test]
fn a_picture_is_centered_on_a_clear_canvas() {
    let dot = Picture { width: 1, height: 1, pixels: vec![1, 2, 3, 4] };
    let c = center_on(&dot, 3, 2);
    assert_eq!((c.width, c.height), (3, 2));
    let mut expected = vec![0u8; 3 * 2 * 4];
    expected[4..8].copy_from_slice(&[1, 2, 3, 4]);
    assert_eq!(c.pixels, expected);
}
