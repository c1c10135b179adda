//! The mode bar: how its chips are drawn and which keys it hints at.

use vstd::prelude::*;
use crate::ui::typing::CellStyle;
use crate::ui::Color;

verus! {

/// The style of a chip of the mode bar: the selected one black on yellow and
/// bold, the others gray before the test starts and dark gray once it runs.
pub open spec fn chip_style_of(selected: bool, started: bool) -> CellStyle {
    if selected {
        CellStyle { fg: Color::Black, bg: Some(Color::Yellow), bold: true, underlined: false }
    } else if started {
        CellStyle { fg: Color::DarkGray, bg: None, bold: false, underlined: false }
    } else {
        CellStyle { fg: Color::Gray, bg: None, bold: false, underlined: false }
    }
}

/// The style of a chip of the mode bar.
pub fn chip_style(selected: bool, started: bool) -> (r: CellStyle)
    ensures
        r == chip_style_of(selected, started),
{
    if selected {
        CellStyle { fg: Color::Black, bg: Some(Color::Yellow), bold: true, underlined: false }
    } else if started {
        CellStyle { fg: Color::DarkGray, bg: None, bold: false, underlined: false }
    } else {
        CellStyle { fg: Color::Gray, bg: None, bold: false, underlined: false }
    }
}

/// The keys the mode bar hints at: while typing, Tab to indent code or Esc to
/// restart text; before, the keys that change the configuration.
pub open spec fn hint_of(started: bool, is_code: bool) -> Seq<char> {
    if started {
        if is_code {
            "    tab indent"@
        } else {
            "    esc restart"@
        }
    } else if is_code {
        "    \u{2191}\u{2193} source \u{b7} \u{2190}\u{2192} lang \u{b7} tab limit"@
    } else {
        "    \u{2191}\u{2193} source \u{b7} \u{2190}\u{2192} difficulty \u{b7} tab limit"@
    }
}

/// The keys the mode bar hints at.
pub fn mode_hint(started: bool, is_code: bool) -> (r: &'static str)
    ensures
        r@ == hint_of(started, is_code),
{
    if started {
        if is_code {
            "    tab indent"
        } else {
            "    esc restart"
        }
    } else if is_code {
        "    \u{2191}\u{2193} source \u{b7} \u{2190}\u{2192} lang \u{b7} tab limit"
    } else {
        "    \u{2191}\u{2193} source \u{b7} \u{2190}\u{2192} difficulty \u{b7} tab limit"
    }
}

} // verus!
