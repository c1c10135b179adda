//! Layout helpers for the typing screen: colors, line wrapping, the visible
//! window, per-character display, and the results glyphs.

pub mod mode_bar;
pub mod results;
pub mod typing;
pub mod wrap;

use vstd::prelude::*;
use crate::ui::wrap::{hard_end, is_wrapping, lemma_rfind_in, rfind_char, rfind_in};

verus! {

/// A display color.
#[derive(Copy, Clone, Debug, PartialEq, Eq, Structural)]
pub enum Color {
    Gray,
    DarkGray,
    Green,
    Red,
    Black,
    White,
    Yellow,
    Rgb(u8, u8, u8),
}

/// A syntax color dimmed: each channel halved, or dark gray for a named
/// color.
pub open spec fn dimmed(c: Color) -> Color {
    match c {
        Color::Rgb(red, green, blue) => Color::Rgb(red / 2, green / 2, blue / 2),
        _ => Color::DarkGray,
    }
}

/// The dimmed form of a syntax color: each channel halved, or dark gray for a
/// named color.
pub fn dim_rgb(c: Color) -> (r: Color)
    ensures
        r == dimmed(c),
{
    match c {
        Color::Rgb(red, green, blue) => Color::Rgb(red / 2, green / 2, blue / 2),
        _ => Color::DarkGray,
    }
}

/// Where a line starting at `start` ends when lines break only at spaces:
/// after the last space within `width` characters where the text goes on past
/// them, otherwise `width` characters on (or at the end of the text).
pub open spec fn space_line_end(t: Seq<char>, width: int, start: int) -> int {
    let len = t.len() as int;
    let h = hard_end(len, width, start);
    let e = if h < len {
        match rfind_in(t, start, h, ' ') {
            Some(p) => p + 1,
            None => h,
        }
    } else {
        h
    };
    if e == start {
        h
    } else {
        e
    }
}

/// Break `target` into `(start, end_exclusive)` ranges of at most `width`
/// chars, breaking at the last space before the limit. Always returns at
/// least one range. A zero width would never advance, so it is left out.
pub fn wrap_lines(target: &[char], width: usize) -> (r: Vec<(usize, usize)>)
    requires
        width > 0,
    ensures
        is_wrapping(r@, target@.len() as int, |s: int| space_line_end(target@, width as int, s)),
{
    let ghost end_of = |s: int| space_line_end(target@, width as int, s);
    let mut lines: Vec<(usize, usize)> = Vec::new();
    let len = target.len();
    let mut start: usize = 0;
    while start < len
        invariant
            end_of == (|s: int| space_line_end(target@, width as int, s)),
            width > 0,
            len == target@.len(),
            start <= len,
            lines@.len() == 0 ==> start == 0,
            lines@.len() > 0 ==> start > 0,
            lines@.len() > 0 ==> lines@[0].0 == 0 && lines@.last().1 == start,
            forall|i: int| 0 <= i < lines@.len() - 1 ==> #[trigger] lines@[i].1 == lines@[i + 1].0,
            forall|i: int| 0 <= i < lines@.len() ==> #[trigger] lines@[i].0 < len,
            forall|i: int|
                0 <= i < lines@.len() ==> #[trigger] lines@[i].1 == end_of(lines@[i].0 as int),
        decreases len - start,
    {
        let hard = if width >= len - start {
            len
        } else {
            start + width
        };
        proof {
            lemma_rfind_in(target@, start as int, hard as int, ' ');
        }
        let mut end = hard;
        if end < len {
            if let Some(p) = rfind_char(target, start, hard, ' ') {
                end = p + 1;
            }
        }
        if end == start {
            end = hard;
        }
        assert(end == end_of(start as int));
        let ghost before = lines@;
        lines.push((start, end));
        proof {
            assert(lines@.drop_last() == before);
            assert forall|i: int| 0 <= i < lines@.len() - 1 implies #[trigger] lines@[i].1
                == lines@[i + 1].0 by {
                if i < before.len() - 1 {
                    assert(lines@[i] == before[i] && lines@[i + 1] == before[i + 1]);
                } else {
                    assert(lines@[i] == before[i]);
                }
            }
            assert forall|i: int| 0 <= i < lines@.len() implies #[trigger] lines@[i].1 == end_of(
                lines@[i].0 as int,
            ) by {
                if i < before.len() {
                    assert(lines@[i] == before[i]);
                }
            }
            assert forall|i: int| 0 <= i < lines@.len() implies #[trigger] lines@[i].0 < len by {
                if i < before.len() {
                    assert(lines@[i] == before[i]);
                }
            }
        }
        start = end;
    }
    if lines.len() == 0 {
        lines.push((0, 0));
        proof {
            assert(lines@ =~= seq![(0usize, 0usize)]);
        }
    }
    proof {
        assert(is_wrapping(lines@, len as int, end_of));
    }
    lines
}

} // verus!
