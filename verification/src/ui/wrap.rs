//! Word-wrap helpers operating on the typing target as a `&[char]`.

use vstd::prelude::*;

verus! {

/// The first position in `[a, b)` holding `c`.
pub open spec fn find_in(t: Seq<char>, a: int, b: int, c: char) -> Option<int>
    decreases b - a,
{
    if a >= b {
        None
    } else if t[a] == c {
        Some(a)
    } else {
        find_in(t, a + 1, b, c)
    }
}

/// The last position in `[a, b)` holding `c`.
pub open spec fn rfind_in(t: Seq<char>, a: int, b: int, c: char) -> Option<int>
    decreases b - a,
{
    if a >= b {
        None
    } else if t[b - 1] == c {
        Some(b - 1)
    } else {
        rfind_in(t, a, b - 1, c)
    }
}

/// The furthest a line starting at `start` may reach: `width` characters on,
/// or the end of the text.
pub open spec fn hard_end(len: int, width: int, start: int) -> int {
    if width >= len - start {
        len
    } else {
        start + width
    }
}

/// Where the line starting at `start` ends: after the first `\n` within
/// reach; otherwise, where the text goes on past the reach, after the last
/// space within reach, or at the reach; at least one character on.
pub open spec fn line_end(t: Seq<char>, width: int, start: int) -> int {
    let len = t.len() as int;
    let h = hard_end(len, width, start);
    let e = match find_in(t, start, h, '\n') {
        Some(p) => p + 1,
        None => if h < len {
            match rfind_in(t, start, h, ' ') {
                Some(p) => p + 1,
                None => h,
            }
        } else {
            h
        },
    };
    if e == start {
        if h > start + 1 {
            h
        } else {
            start + 1
        }
    } else {
        e
    }
}

/// `lines` break the text of length `len` into consecutive ranges that start
/// within the text, each ending where `end_of` says for its start; a single
/// empty range for an empty text.
pub open spec fn is_wrapping(
    lines: Seq<(usize, usize)>,
    len: int,
    end_of: spec_fn(int) -> int,
) -> bool {
    if len == 0 {
        lines == seq![(0usize, 0usize)]
    } else {
        &&& lines.len() >= 1
        &&& lines[0].0 == 0
        &&& lines.last().1 == len
        &&& forall|i: int| 0 <= i < lines.len() - 1 ==> #[trigger] lines[i].1 == lines[i + 1].0
        &&& forall|i: int| 0 <= i < lines.len() ==> #[trigger] lines[i].0 < len
        &&& forall|i: int|
            0 <= i < lines.len() ==> #[trigger] lines[i].1 == end_of(lines[i].0 as int)
    }
}

pub proof fn lemma_find_in(t: Seq<char>, a: int, b: int, c: char)
    requires
        0 <= a,
        b <= t.len(),
    ensures
        match find_in(t, a, b, c) {
            Some(p) => a <= p < b && t[p] == c && forall|j: int| a <= j < p ==> t[j] != c,
            None => forall|j: int| a <= j < b ==> t[j] != c,
        },
    decreases b - a,
{
    if a < b && t[a] != c {
        lemma_find_in(t, a + 1, b, c);
    }
}

pub proof fn lemma_rfind_in(t: Seq<char>, a: int, b: int, c: char)
    requires
        0 <= a,
        b <= t.len(),
    ensures
        match rfind_in(t, a, b, c) {
            Some(p) => a <= p < b && t[p] == c && forall|j: int| p < j < b ==> t[j] != c,
            None => forall|j: int| a <= j < b ==> t[j] != c,
        },
    decreases b - a,
{
    if a < b && t[b - 1] != c {
        lemma_rfind_in(t, a, b - 1, c);
    }
}

/// The first `c` in `t[a..b]`.
pub(crate) fn find_char(t: &[char], a: usize, b: usize, c: char) -> (r: Option<usize>)
    requires
        a <= b <= t@.len(),
    ensures
        match r {
            Some(p) => find_in(t@, a as int, b as int, c) == Some(p as int),
            None => find_in(t@, a as int, b as int, c) is None,
        },
{
    let mut i = a;
    while i < b
        invariant
            a <= i <= b <= t@.len(),
            find_in(t@, a as int, b as int, c) == find_in(t@, i as int, b as int, c),
        decreases b - i,
    {
        if t[i] == c {
            return Some(i);
        }
        i = i + 1;
    }
    None
}

/// The last `c` in `t[a..b]`.
pub(crate) fn rfind_char(t: &[char], a: usize, b: usize, c: char) -> (r: Option<usize>)
    requires
        a <= b <= t@.len(),
    ensures
        match r {
            Some(p) => rfind_in(t@, a as int, b as int, c) == Some(p as int),
            None => rfind_in(t@, a as int, b as int, c) is None,
        },
{
    let mut j = b;
    while j > a
        invariant
            a <= j <= b <= t@.len(),
            rfind_in(t@, a as int, b as int, c) == rfind_in(t@, a as int, j as int, c),
        decreases j,
    {
        if t[j - 1] == c {
            return Some(j - 1);
        }
        j = j - 1;
    }
    None
}

/// Break `target` into `(start, end_exclusive)` ranges of at most `width`
/// chars, breaking on `\n` (hard) and at the last space before the limit
/// (soft). Always returns at least one range.
pub fn wrap_lines(target: &[char], width: usize) -> (r: Vec<(usize, usize)>)
    ensures
        is_wrapping(r@, target@.len() as int, |s: int| line_end(target@, width as int, s)),
{
    let ghost end_of = |s: int| line_end(target@, width as int, s);
    proof {
        assert(end_of =~= (|s: int| line_end(target@, width as int, s)));
    }
    let mut lines: Vec<(usize, usize)> = Vec::new();
    let len = target.len();
    let mut start: usize = 0;
    while start < len
        invariant
            end_of == (|s: int| line_end(target@, width as int, s)),
            len == target@.len(),
            start <= len,
            lines@.len() == 0 ==> start == 0,
            lines@.len() > 0 ==> start > 0,
            lines@.len() > 0 ==> lines@[0].0 == 0 && lines@.last().1 == start,
            forall|i: int| 0 <= i < lines@.len() - 1 ==> #[trigger] lines@[i].1 == lines@[i + 1].0,
            forall|i: int| 0 <= i < lines@.len() ==> #[trigger] lines@[i].0 < len,
            forall|i: int|
                0 <= i < lines@.len() ==> #[trigger] lines@[i].1 == end_of(lines@[i].0 as int),
        decreases len - start,
    {
        let hard = if width >= len - start {
            len
        } else {
            start + width
        };
        proof {
            lemma_find_in(target@, start as int, hard as int, '\n');
            lemma_rfind_in(target@, start as int, hard as int, ' ');
        }
        let end = match find_char(target, start, hard, '\n') {
            Some(p) => p + 1,
            None => {
                if hard < len {
                    match rfind_char(target, start, hard, ' ') {
                        Some(p) => p + 1,
                        None => hard,
                    }
                } else {
                    hard
                }
            },
        };
        let end = if end == start {
            if hard > start + 1 {
                hard
            } else {
                start + 1
            }
        } else {
            end
        };
        assert(end == end_of(start as int));
        let ghost before = lines@;
        lines.push((start, end));
        proof {
            assert(lines@.drop_last() == before);
            assert forall|i: int| 0 <= i < lines@.len() - 1 implies #[trigger] lines@[i].1
                == lines@[i + 1].0 by {
                if i < before.len() - 1 {
                    assert(lines@[i] == before[i] && lines@[i + 1] == before[i + 1]);
                } else {
                    assert(lines@[i] == before[i]);
                }
            }
            assert forall|i: int| 0 <= i < lines@.len() implies #[trigger] lines@[i].1 == end_of(
                lines@[i].0 as int,
            ) by {
                if i < before.len() {
                    assert(lines@[i] == before[i]);
                }
            }
            assert forall|i: int| 0 <= i < lines@.len() implies #[trigger] lines@[i].0 < len by {
                if i < before.len() {
                    assert(lines@[i] == before[i]);
                }
            }
        }
        start = end;
    }
    if lines.len() == 0 {
        lines.push((0, 0));
        proof {
            assert(lines@ =~= seq![(0usize, 0usize)]);
        }
    }
    proof {
        assert(is_wrapping(lines@, len as int, end_of));
    }
    lines
}

/// The line holding the cursor, scanning from line `k`: the first line that
/// ends after the cursor, or the last line where the cursor sits at its end;
/// the last line (or 0) where no line qualifies.
pub open spec fn line_from(lines: Seq<(usize, usize)>, cursor: int, k: int) -> int
    decreases lines.len() - k,
{
    if k >= lines.len() {
        if lines.len() == 0 {
            0
        } else {
            lines.len() - 1
        }
    } else if cursor < lines[k].1 {
        k
    } else if cursor == lines[k].1 && k + 1 == lines.len() {
        k
    } else {
        line_from(lines, cursor, k + 1)
    }
}

/// Returns the index of the line containing the cursor.
pub fn find_line(lines: &[(usize, usize)], cursor: usize) -> (r: usize)
    ensures
        r == line_from(lines@, cursor as int, 0),
{
    let mut i: usize = 0;
    while i < lines.len()
        invariant
            i <= lines@.len(),
            line_from(lines@, cursor as int, 0) == line_from(lines@, cursor as int, i as int),
        decreases lines@.len() - i,
    {
        let e = lines[i].1;
        if cursor < e {
            return i;
        }
        if cursor == e && i + 1 == lines.len() {
            return i;
        }
        i = i + 1;
    }
    if lines.len() == 0 {
        0
    } else {
        lines.len() - 1
    }
}

/// A line ends after its start and at most `width` characters on (one, for
/// a zero width), within the text; a `\n` inside it can only be its last
/// character.
pub proof fn law_line_end_bounds(t: Seq<char>, width: int, start: int)
    requires
        0 <= start < t.len(),
        0 <= width,
    ensures
        start < line_end(t, width, start) <= t.len(),
        line_end(t, width, start) - start <= if width > 1 {
            width
        } else {
            1
        },
        forall|j: int| start <= j < line_end(t, width, start) - 1 ==> t[j] != '\n',
{
    let h = hard_end(t.len() as int, width, start);
    lemma_find_in(t, start, h, '\n');
    lemma_rfind_in(t, start, h, ' ');
}

/// The line found for a cursor is a line of the list, where there is one.
pub proof fn law_find_line_in_range(lines: Seq<(usize, usize)>, cursor: int, k: int)
    requires
        lines.len() > 0,
        0 <= k,
    ensures
        0 <= line_from(lines, cursor, k) < lines.len(),
    decreases lines.len() - k,
{
    if k < lines.len() && !(cursor < lines[k].1) && !(cursor == lines[k].1 && k + 1
        == lines.len()) {
        law_find_line_in_range(lines, cursor, k + 1);
    }
}

/// Every line reaches past its start.
proof fn lemma_line_end_advances(t: Seq<char>, width: int, start: int)
    requires
        0 <= start < t.len(),
        0 <= width,
    ensures
        line_end(t, width, start) > start,
{
    let h = hard_end(t.len() as int, width, start);
    lemma_find_in(t, start, h, '\n');
    lemma_rfind_in(t, start, h, ' ');
}

/// Consecutive ranges with growing ends, the last ending at `len`, all end
/// by `len`.
proof fn lemma_ends_within(lines: Seq<(usize, usize)>, len: int, k: int)
    requires
        0 <= k < lines.len(),
        lines.last().1 == len,
        forall|i: int| 0 <= i < lines.len() ==> #[trigger] lines[i].1 > lines[i].0,
        forall|i: int| 0 <= i < lines.len() - 1 ==> #[trigger] lines[i].1 == lines[i + 1].0,
    ensures
        forall|i: int| k <= i < lines.len() ==> #[trigger] lines[i].1 <= len,
    decreases lines.len() - k,
{
    if k < lines.len() - 1 {
        lemma_ends_within(lines, len, k + 1);
        assert(lines[k].1 == lines[k + 1].0);
        assert(lines[k + 1].1 > lines[k + 1].0);
    }
}

/// The lines that `wrap_lines` gives tile a non-empty text: each is a
/// non-empty range within the text, at most `width` long (one for a zero
/// width), holding a `\n` only as its last character.
pub proof fn law_wrap_tiles(t: Seq<char>, width: int, lines: Seq<(usize, usize)>)
    requires
        t.len() > 0,
        0 <= width,
        is_wrapping(lines, t.len() as int, |s: int| line_end(t, width, s)),
    ensures
        forall|i: int|
            0 <= i < lines.len() ==> {
                &&& lines[i].0 < lines[i].1 <= t.len()
                &&& lines[i].1 - lines[i].0 <= if width > 1 {
                    width
                } else {
                    1
                }
                &&& forall|j: int| lines[i].0 <= j < lines[i].1 - 1 ==> t[j] != '\n'
            },
{
    let n = lines.len() as int;
    assert forall|i: int| 0 <= i < n implies #[trigger] lines[i].1 > lines[i].0 by {
        lemma_line_end_advances(t, width, lines[i].0 as int);
    }
    lemma_ends_within(lines, t.len() as int, 0);
    assert forall|i: int| 0 <= i < n implies {
        &&& lines[i].0 < lines[i].1 <= t.len()
        &&& lines[i].1 - lines[i].0 <= if width > 1 {
            width
        } else {
            1
        }
        &&& forall|j: int| lines[i].0 <= j < lines[i].1 - 1 ==> t[j] != '\n'
    } by {
        assert(lines[i].1 <= t.len());
        assert(lines[i].1 > lines[i].0);
        law_line_end_bounds(t, width, lines[i].0 as int);
    }
}

} // verus!
