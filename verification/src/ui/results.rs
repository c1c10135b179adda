//! The results screen's large digits: a 5x5 block font for the WPM figure.

use vstd::prelude::*;
use crate::text::{chars_of, join_with, push_str_chars, string_of};

verus! {

/// The five rows of the block glyph for `c`; only digits and '.' have one,
/// every other character is blank.
pub open spec fn glyph(c: char) -> Seq<Seq<char>> {
    if c == '0' {
        seq!["█████"@, "█   █"@, "█   █"@, "█   █"@, "█████"@]
    } else if c == '1' {
        seq!["  █  "@, " ██  "@, "  █  "@, "  █  "@, " ███ "@]
    } else if c == '2' {
        seq!["█████"@, "    █"@, "█████"@, "█    "@, "█████"@]
    } else if c == '3' {
        seq!["█████"@, "    █"@, " ████"@, "    █"@, "█████"@]
    } else if c == '4' {
        seq!["█   █"@, "█   █"@, "█████"@, "    █"@, "    █"@]
    } else if c == '5' {
        seq!["█████"@, "█    "@, "█████"@, "    █"@, "█████"@]
    } else if c == '6' {
        seq!["█████"@, "█    "@, "█████"@, "█   █"@, "█████"@]
    } else if c == '7' {
        seq!["█████"@, "    █"@, "   █ "@, "  █  "@, "  █  "@]
    } else if c == '8' {
        seq!["█████"@, "█   █"@, "█████"@, "█   █"@, "█████"@]
    } else if c == '9' {
        seq!["█████"@, "█   █"@, "█████"@, "    █"@, "█████"@]
    } else if c == '.' {
        seq!["     "@, "     "@, "     "@, "     "@, "  █  "@]
    } else {
        seq!["     "@, "     "@, "     "@, "     "@, "     "@]
    }
}

/// The five rows of the block glyph for `c`.
pub fn big_glyph(c: char) -> (r: Vec<&'static str>)
    ensures
        r@.len() == 5,
        forall|i: int| 0 <= i < 5 ==> #[trigger] r@[i]@ == glyph(c)[i],
{
    let r = match c {
        '0' => vec!["█████", "█   █", "█   █", "█   █", "█████"],
        '1' => vec!["  █  ", " ██  ", "  █  ", "  █  ", " ███ "],
        '2' => vec!["█████", "    █", "█████", "█    ", "█████"],
        '3' => vec!["█████", "    █", " ████", "    █", "█████"],
        '4' => vec!["█   █", "█   █", "█████", "    █", "    █"],
        '5' => vec!["█████", "█    ", "█████", "    █", "█████"],
        '6' => vec!["█████", "█    ", "█████", "█   █", "█████"],
        '7' => vec!["█████", "    █", "   █ ", "  █  ", "  █  "],
        '8' => vec!["█████", "█   █", "█████", "█   █", "█████"],
        '9' => vec!["█████", "█   █", "█████", "    █", "█████"],
        '.' => vec!["     ", "     ", "     ", "     ", "  █  "],
        _ => vec!["     ", "     ", "     ", "     ", "     "],
    };
    r
}

/// Row `i` of `s` in block glyphs: the glyph rows side by side, one space
/// between each two.
pub open spec fn big_row(s: Seq<char>, i: int) -> Seq<char> {
    join_with(s.map_values(|c: char| glyph(c)[i]), seq![' '])
}

/// `s` in 5x5 block glyphs, as five rows.
pub fn big_number(s: &str) -> (r: Vec<String>)
    ensures
        r@.len() == 5,
        forall|i: int| 0 <= i < 5 ==> #[trigger] r@[i]@ == big_row(s@, i),
{
    let cs = chars_of(s);
    let mut glyphs: Vec<Vec<&'static str>> = Vec::new();
    let mut k: usize = 0;
    while k < cs.len()
        invariant
            k <= cs@.len(),
            glyphs@.len() == k,
            forall|j: int| 0 <= j < k ==> #[trigger] glyphs@[j]@.len() == 5,
            forall|j: int, i: int|
                0 <= j < k && 0 <= i < 5 ==> #[trigger] glyphs@[j]@[i]@ == glyph(cs@[j])[i],
        decreases cs@.len() - k,
    {
        glyphs.push(big_glyph(cs[k]));
        k = k + 1;
    }
    let mut rows: Vec<String> = Vec::new();
    let mut i: usize = 0;
    while i < 5
        invariant
            i <= 5,
            rows@.len() == i,
            cs@ == s@,
            glyphs@.len() == cs@.len(),
            forall|j: int| 0 <= j < cs@.len() ==> #[trigger] glyphs@[j]@.len() == 5,
            forall|j: int, m: int|
                0 <= j < cs@.len() && 0 <= m < 5 ==> #[trigger] glyphs@[j]@[m]@ == glyph(cs@[j])[m],
            forall|m: int| 0 <= m < i ==> #[trigger] rows@[m]@ == big_row(s@, m),
        decreases 5 - i,
    {
        let ghost parts = s@.map_values(|c: char| glyph(c)[i as int]);
        let mut row: Vec<char> = Vec::new();
        let mut j: usize = 0;
        proof {
            assert(parts.take(0) =~= Seq::<Seq<char>>::empty());
        }
        while j < glyphs.len()
            invariant
                i < 5,
                j <= glyphs@.len(),
                glyphs@.len() == cs@.len(),
                cs@ == s@,
                parts == s@.map_values(|c: char| glyph(c)[i as int]),
                forall|jj: int| 0 <= jj < cs@.len() ==> #[trigger] glyphs@[jj]@.len() == 5,
                forall|jj: int, m: int|
                    0 <= jj < cs@.len() && 0 <= m < 5 ==> #[trigger] glyphs@[jj]@[m]@ == glyph(
                        cs@[jj],
                    )[m],
                row@ == join_with(parts.take(j as int), seq![' ']),
            decreases glyphs@.len() - j,
        {
            let ghost before = row@;
            if j > 0 {
                row.push(' ');
            }
            push_str_chars(&mut row, glyphs[j][i]);
            proof {
                assert(glyphs@[j as int]@[i as int]@ == parts[j as int]);
                assert(parts.take(j + 1).drop_last() =~= parts.take(j as int));
                if j == 0 {
                    assert(parts.take(1) =~= seq![parts[0]]);
                    assert(row@ =~= parts[0]);
                } else {
                    assert(row@ =~= before + seq![' '] + parts[j as int]);
                }
            }
            j = j + 1;
        }
        proof {
            assert(parts.take(j as int) =~= parts);
        }
        rows.push(string_of(row.as_slice()));
        i = i + 1;
    }
    rows
}

/// Whether cell `(row, col)` of a glyph is filled.
pub open spec fn filled(g: Seq<Seq<char>>, row: int, col: int) -> bool {
    g[row][col] == '\u{2588}'
}

/// Reads a digit (or '.', or ' ' for a blank) back from the cells of a block
/// glyph, telling the digits apart by the cells where they differ.
pub open spec fn read_glyph(g: Seq<Seq<char>>) -> char {
    if !filled(g, 0, 0) {
        if filled(g, 0, 2) {
            '1'
        } else if filled(g, 4, 2) {
            '.'
        } else {
            ' '
        }
    } else if !filled(g, 0, 1) {
        '4'
    } else if !filled(g, 2, 1) {
        if filled(g, 2, 0) {
            '0'
        } else {
            '7'
        }
    } else if !filled(g, 2, 0) {
        '3'
    } else if !filled(g, 1, 0) {
        '2'
    } else if !filled(g, 1, 4) {
        if filled(g, 3, 0) {
            '6'
        } else {
            '5'
        }
    } else if filled(g, 3, 0) {
        '8'
    } else {
        '9'
    }
}

/// Every glyph is five rows of five cells, the glyph of a digit or '.' reads
/// back as that character (so no two of these characters share a glyph, and
/// a figure drawn in glyphs can be read back digit by digit), and any other
/// character is blank.
pub proof fn law_glyphs_read_back(c: char, d: char)
    ensures
        glyph(c).len() == 5,
        forall|i: int| 0 <= i < 5 ==> #[trigger] glyph(c)[i].len() == 5,
        ('0' <= c <= '9' || c == '.') ==> read_glyph(glyph(c)) == c,
        !('0' <= c <= '9' || c == '.') ==> forall|i: int, j: int|
            0 <= i < 5 && 0 <= j < 5 ==> #[trigger] glyph(c)[i][j] == ' ',
        ('0' <= c <= '9' || c == '.') && ('0' <= d <= '9' || d == '.') && c != d ==> glyph(c)
            != glyph(d),
{
    reveal_strlit("\u{2588}\u{2588}\u{2588}\u{2588}\u{2588}");
    reveal_strlit("\u{2588}   \u{2588}");
    reveal_strlit("  \u{2588}  ");
    reveal_strlit(" \u{2588}\u{2588}  ");
    reveal_strlit(" \u{2588}\u{2588}\u{2588} ");
    reveal_strlit("    \u{2588}");
    reveal_strlit("\u{2588}    ");
    reveal_strlit(" \u{2588}\u{2588}\u{2588}\u{2588}");
    reveal_strlit("   \u{2588} ");
    reveal_strlit("     ");
    if ('0' <= d <= '9' || d == '.') && ('0' <= c <= '9' || c == '.') {
        assert(read_glyph(glyph(d)) == d);
    }
}

} // verus!
