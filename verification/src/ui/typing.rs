//! What the typing pane shows: which lines are visible, how far down they
//! start, and how each character is drawn.

use vstd::prelude::*;
use crate::cli::Limit;
use crate::ui::{dim_rgb, dimmed, Color};

verus! {

/// Lines shown around the cursor in a text test.
pub const VISIBLE_LINES: usize = 3;

/// The range of lines shown: centered on the current line, as many as the
/// pane is high (at least 3) for code, three for text.
pub open spec fn window(n_lines: int, current: int, is_code: bool, inner_h: int) -> (int, int) {
    let visible = if is_code {
        if inner_h > 3 {
            inner_h
        } else {
            3
        }
    } else {
        VISIBLE_LINES as int
    };
    let half = visible / 2;
    let s = if current > half {
        current - half
    } else {
        0
    };
    let e = if s + visible < n_lines {
        s + visible
    } else {
        n_lines
    };
    (s, e)
}

/// The first and one-past-last visible line.
pub fn visible_window(n_lines: usize, current: usize, is_code: bool, inner_h: u16) -> (r: (
    usize,
    usize,
))
    requires
        current <= n_lines,
        n_lines + inner_h + 3 <= usize::MAX,
    ensures
        (r.0 as int, r.1 as int) == window(n_lines as int, current as int, is_code, inner_h as int),
{
    let visible: usize = if is_code {
        if inner_h as usize > 3 {
            inner_h as usize
        } else {
            3
        }
    } else {
        VISIBLE_LINES
    };
    let half = visible / 2;
    let s = current.saturating_sub(half);
    let e = if s + visible < n_lines {
        s + visible
    } else {
        n_lines
    };
    (s, e)
}

/// Blank rows above the visible lines, to center them: code lines are
/// shown one per row, text lines with a blank row between each two.
pub open spec fn top_pad_of(inner_h: int, visible: int, is_code: bool) -> int {
    let used = if is_code {
        visible
    } else if visible == 0 {
        0
    } else {
        2 * visible - 1
    };
    if inner_h > used {
        (inner_h - used) / 2
    } else {
        0
    }
}

/// Blank rows above the visible lines.
pub fn top_pad(inner_h: u16, visible: usize, is_code: bool) -> (r: usize)
    ensures
        r as int == top_pad_of(inner_h as int, visible as int, is_code),
{
    let used = if is_code {
        visible
    } else {
        let doubled: usize = if visible > usize::MAX / 2 {
            usize::MAX
        } else {
            visible * 2
        };
        doubled.saturating_sub(1)
    };
    (inner_h as usize).saturating_sub(used) / 2
}

/// How a target character is drawn.
#[derive(Copy, Clone, Debug, PartialEq, Eq, Structural)]
pub enum CellKind {
    /// Typed, and typed right.
    Correct,
    /// Typed, and typed wrong.
    Wrong,
    /// The next character to type.
    Cursor,
    /// Not reached yet.
    Pending,
}

/// How position `i` of the target is drawn, given what was typed.
pub open spec fn kind_of(target: Seq<char>, typed: Seq<char>, i: int) -> CellKind {
    if i < typed.len() {
        if typed[i] == target[i] {
            CellKind::Correct
        } else {
            CellKind::Wrong
        }
    } else if i == typed.len() {
        CellKind::Cursor
    } else {
        CellKind::Pending
    }
}

/// How position `i` of the target is drawn.
pub fn cell_kind(target: &[char], typed: &[char], i: usize) -> (r: CellKind)
    requires
        i < target@.len(),
    ensures
        r == kind_of(target@, typed@, i as int),
{
    if i < typed.len() {
        if typed[i] == target[i] {
            CellKind::Correct
        } else {
            CellKind::Wrong
        }
    } else if i == typed.len() {
        CellKind::Cursor
    } else {
        CellKind::Pending
    }
}

/// The character shown for target character `ch`: a return arrow for a
/// line end, an underscore for a space typed wrong, the character otherwise.
pub open spec fn shown(ch: char, typed: Option<char>) -> char {
    if ch == '\n' {
        '\u{21b5}'
    } else if ch == ' ' && typed is Some && typed != Some(' ') {
        '_'
    } else {
        ch
    }
}

/// The character shown for target character `ch`.
pub fn display_char(ch: char, typed: Option<char>) -> (r: char)
    ensures
        r == shown(ch, typed),
{
    if ch == '\n' {
        '\u{21b5}'
    } else if ch == ' ' && match typed {
        Some(t) => t != ' ',
        None => false,
    } {
        '_'
    } else {
        ch
    }
}

/// How a cell is drawn: its foreground, its background if any, and whether it
/// is bold or underlined.
#[derive(Copy, Clone, Debug, PartialEq, Eq, Structural)]
pub struct CellStyle {
    pub fg: Color,
    pub bg: Option<Color>,
    pub bold: bool,
    pub underlined: bool,
}

/// The style of a cell of kind `kind` whose syntax color is `syntax`, on the
/// cursor's line or not: typed right in green (code in its syntax color),
/// typed wrong in underlined red, the cursor black on white and bold, and not
/// reached in gray on the cursor's line and dark gray elsewhere (code in its
/// syntax color dimmed); text on the cursor's line is bold.
pub open spec fn style_of(kind: CellKind, is_code: bool, is_current: bool, syntax: Color) -> CellStyle {
    let fg = match kind {
        CellKind::Correct => if is_code {
            syntax
        } else {
            Color::Green
        },
        CellKind::Wrong => Color::Red,
        CellKind::Cursor => Color::Black,
        CellKind::Pending => if is_code {
            dimmed(syntax)
        } else if is_current {
            Color::Gray
        } else {
            Color::DarkGray
        },
    };
    CellStyle {
        fg,
        bg: if kind == CellKind::Cursor {
            Some(Color::White)
        } else {
            None
        },
        bold: kind == CellKind::Cursor || (is_current && !is_code),
        underlined: kind == CellKind::Wrong,
    }
}

/// The style of a cell of kind `kind` whose syntax color is `syntax`.
pub fn cell_style(kind: CellKind, is_code: bool, is_current: bool, syntax: Color) -> (r: CellStyle)
    ensures
        r == style_of(kind, is_code, is_current, syntax),
{
    let mut style = match kind {
        CellKind::Correct => CellStyle {
            fg: if is_code {
                syntax
            } else {
                Color::Green
            },
            bg: None,
            bold: false,
            underlined: false,
        },
        CellKind::Wrong => CellStyle { fg: Color::Red, bg: None, bold: false, underlined: true },
        CellKind::Cursor => CellStyle {
            fg: Color::Black,
            bg: Some(Color::White),
            bold: true,
            underlined: false,
        },
        CellKind::Pending => CellStyle {
            fg: if is_code {
                dim_rgb(syntax)
            } else if is_current {
                Color::Gray
            } else {
                Color::DarkGray
            },
            bg: None,
            bold: false,
            underlined: false,
        },
    };
    if is_current && !is_code {
        style.bold = true;
    }
    style
}

/// The spaces that fill a line of `shown` cells out to `width`.
pub fn line_pad(width: usize, shown: usize) -> (r: usize)
    ensures
        r == if shown < width {
            width - shown
        } else {
            0
        },
{
    if shown < width {
        width - shown
    } else {
        0
    }
}

/// The name of the first row of the stats sidebar: the time left, the words
/// done or the characters typed, by the kind of limit.
pub fn primary_stat(limit: Limit) -> (r: &'static str)
    ensures
        r@ == (match limit {
            Limit::Time(_) => "time"@,
            Limit::Count(_) => "words"@,
            Limit::Snippet => "chars"@,
        }),
{
    match limit {
        Limit::Time(_) => "time",
        Limit::Count(_) => "words",
        Limit::Snippet => "chars",
    }
}

/// The visible lines always hold the cursor's line, lie within the text,
/// keep the cursor half a pane down (or start at the first line), and fill the pane unless the
/// text runs out: `visible` lines (three for text, the pane's height but at
/// least three for code), or all up to the last line.
pub proof fn law_window_holds_cursor(n_lines: int, current: int, is_code: bool, inner_h: int)
    requires
        0 <= current < n_lines,
    ensures
        ({
            let (s, e) = window(n_lines, current, is_code, inner_h);
            let visible = if is_code && inner_h > 3 {
                inner_h
            } else {
                3
            };
            &&& 0 <= s <= current < e <= n_lines
            &&& current - s <= visible / 2
            &&& e - s <= visible
            &&& e == n_lines || e - s == visible
            &&& current >= visible / 2 ==> current - s == visible / 2
            &&& current < visible / 2 ==> s == 0
        }),
{
}

} // verus!
