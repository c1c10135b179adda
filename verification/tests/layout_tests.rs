use typr::text::chars_of;
use typr::ui::results::{big_glyph, big_number};
use typr::cli::Limit;
use typr::ui::mode_bar::{chip_style, mode_hint};
use typr::ui::typing::{
    cell_kind, cell_style, display_char, line_pad, primary_stat, top_pad, visible_window, CellKind, CellStyle,
};
use typr::ui::wrap::{find_line, wrap_lines};
use typr::ui::{dim_rgb, Color};

#[test]
fn wrap_breaks_at_last_space() {
    let t = chars_of("hello world foo");
    assert_eq!(wrap_lines(&t, 8), vec![(0, 6), (6, 12), (12, 15)]);
    assert_eq!(wrap_lines(&t, 100), vec![(0, 15)]);
}

#[test]
fn wrap_breaks_at_newline() {
    let t = chars_of("ab\ncd\n\nef");
    assert_eq!(wrap_lines(&t, 20), vec![(0, 3), (3, 6), (6, 7), (7, 9)]);
}

#[test]
fn wrap_hard_breaks_long_words() {
    let t = chars_of("abcdefgh");
    assert_eq!(wrap_lines(&t, 3), vec![(0, 3), (3, 6), (6, 8)]);
    assert_eq!(wrap_lines(&t, 0), (0..8).map(|i| (i, i + 1)).collect::<Vec<_>>());
    assert_eq!(wrap_lines(&[], 5), vec![(0, 0)]);
}

#[test]
fn space_only_wrap() {
    let t = chars_of("ab\ncd ef");
    assert_eq!(typr::ui::wrap_lines(&t, 6), vec![(0, 6), (6, 8)]);
    assert_eq!(typr::ui::wrap_lines(&chars_of("hello world foo"), 8), vec![(0, 6), (6, 12), (12, 15)]);
    assert_eq!(typr::ui::wrap_lines(&[], 4), vec![(0, 0)]);
}

#[test]
fn lines_cover_text() {
    let t = chars_of("the quick brown fox jumps over the lazy dog\nand more");
    for w in 0..30 {
        let lines = wrap_lines(&t, w);
        assert_eq!(lines[0].0, 0);
        assert_eq!(lines.last().unwrap().1, t.len());
        for pair in lines.windows(2) {
            assert_eq!(pair[0].1, pair[1].0);
        }
        for &(s, e) in &lines {
            assert!(s < e && e - s <= w.max(1));
            assert!(!t[s..e - 1].contains(&'\n'));
        }
    }
}

#[test]
fn finding_cursor_line() {
    let lines = vec![(0, 3), (3, 6), (6, 8)];
    assert_eq!(find_line(&lines, 0), 0);
    assert_eq!(find_line(&lines, 3), 1);
    assert_eq!(find_line(&lines, 7), 2);
    assert_eq!(find_line(&lines, 8), 2);
    assert_eq!(find_line(&lines, 50), 2);
    assert_eq!(find_line(&[], 4), 0);
    assert_eq!(find_line(&[(0, 0)], 0), 0);
}

#[test]
fn visible_lines() {
    assert_eq!(visible_window(10, 5, false, 0), (4, 7));
    assert_eq!(visible_window(10, 0, false, 0), (0, 3));
    assert_eq!(visible_window(2, 1, false, 0), (0, 2));
    assert_eq!(visible_window(100, 50, true, 10), (45, 55));
    assert_eq!(visible_window(100, 1, true, 1), (0, 3));
    assert_eq!(top_pad(10, 3, false), 2);
    assert_eq!(top_pad(10, 3, true), 3);
    assert_eq!(top_pad(2, 3, false), 0);
    assert_eq!(top_pad(7, 0, false), 3);
}

#[test]
fn cells() {
    let target = chars_of("ab c");
    let typed = chars_of("ax");
    assert_eq!(cell_kind(&target, &typed, 0), CellKind::Correct);
    assert_eq!(cell_kind(&target, &typed, 1), CellKind::Wrong);
    assert_eq!(cell_kind(&target, &typed, 2), CellKind::Cursor);
    assert_eq!(cell_kind(&target, &typed, 3), CellKind::Pending);
    assert_eq!(display_char('\n', None), '\u{21b5}');
    assert_eq!(display_char(' ', Some('x')), '_');
    assert_eq!(display_char(' ', Some(' ')), ' ');
    assert_eq!(display_char(' ', None), ' ');
    assert_eq!(display_char('q', Some('z')), 'q');
}

#[test]
fn dimming() {
    assert_eq!(dim_rgb(Color::Rgb(200, 101, 1)), Color::Rgb(100, 50, 0));
    assert_eq!(dim_rgb(Color::Gray), Color::DarkGray);
}

fn plain(fg: Color) -> CellStyle {
    CellStyle { fg, bg: None, bold: false, underlined: false }
}

#[test]
fn cell_styles() {
    let syn = Color::Rgb(200, 100, 50);
    assert_eq!(cell_style(CellKind::Correct, false, false, syn), plain(Color::Green));
    assert_eq!(cell_style(CellKind::Correct, true, true, syn), plain(syn));
    assert_eq!(
        cell_style(CellKind::Correct, false, true, syn),
        CellStyle { fg: Color::Green, bg: None, bold: true, underlined: false }
    );
    assert_eq!(
        cell_style(CellKind::Wrong, true, false, syn),
        CellStyle { fg: Color::Red, bg: None, bold: false, underlined: true }
    );
    let cursor = CellStyle { fg: Color::Black, bg: Some(Color::White), bold: true, underlined: false };
    assert_eq!(cell_style(CellKind::Cursor, true, true, syn), cursor);
    assert_eq!(cell_style(CellKind::Cursor, false, false, syn), cursor);
    assert_eq!(cell_style(CellKind::Pending, true, false, syn), plain(Color::Rgb(100, 50, 25)));
    assert_eq!(cell_style(CellKind::Pending, true, true, Color::Gray), plain(Color::DarkGray));
    assert_eq!(
        cell_style(CellKind::Pending, false, true, syn),
        CellStyle { fg: Color::Gray, bg: None, bold: true, underlined: false }
    );
    assert_eq!(cell_style(CellKind::Pending, false, false, syn), plain(Color::DarkGray));
}

#[test]
fn mode_bar_chips_and_hints() {
    let selected = CellStyle { fg: Color::Black, bg: Some(Color::Yellow), bold: true, underlined: false };
    assert_eq!(chip_style(true, false), selected);
    assert_eq!(chip_style(true, true), selected);
    assert_eq!(chip_style(false, true), plain(Color::DarkGray));
    assert_eq!(chip_style(false, false), plain(Color::Gray));
    assert_eq!(mode_hint(true, true), "    tab indent");
    assert_eq!(mode_hint(true, false), "    esc restart");
    assert_eq!(mode_hint(false, true), "    ↑↓ source · ←→ lang · tab limit");
    assert_eq!(mode_hint(false, false), "    ↑↓ source · ←→ difficulty · tab limit");
}

#[test]
fn padding_and_stat_names() {
    assert_eq!(line_pad(10, 3), 7);
    assert_eq!(line_pad(3, 3), 0);
    assert_eq!(line_pad(2, 5), 0);
    assert_eq!(primary_stat(Limit::Time(30)), "time");
    assert_eq!(primary_stat(Limit::Count(10)), "words");
    assert_eq!(primary_stat(Limit::Snippet), "chars");
}

#[test]
fn glyphs() {
    assert_eq!(big_glyph('1'), vec!["  █  ", " ██  ", "  █  ", "  █  ", " ███ "]);
    assert_eq!(big_glyph('x'), vec!["     "; 5]);
    assert_eq!(big_glyph('.')[4], "  █  ");
    let rows = big_number("10");
    assert_eq!(rows.len(), 5);
    assert_eq!(rows[0], "  █   █████");
    assert_eq!(rows[4], " ███  █████");
    assert_eq!(big_number(""), vec![String::new(); 5]);
}
