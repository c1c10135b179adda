//! Code samples and syntax highlighting.
//!
//! A language's samples are one text, separated by lines containing only
//! `---`. Highlighting runs syntect over the text line by line and gives one
//! color per character.

use vstd::prelude::*;
use crate::cli::Lang;
use crate::rng::choose_one;
use crate::text::{chars_of, concat, copy_range, join_with, string_of, trim, trim_chars, views};
use crate::syntax::{
    bundled_syntax, bundled_theme, result_view, syntect_pieces, LineHighlighter, Syntaxes, Themes,
};
use crate::ui::Color;

verus! {

/// The first position at which `sep` occurs in `s`.
pub open spec fn find(s: Seq<char>, sep: Seq<char>) -> Option<int>
    decreases s.len(),
{
    if s.len() < sep.len() {
        None
    } else if s.take(sep.len() as int) == sep {
        Some(0)
    } else if s.len() == 0 {
        None
    } else {
        match find(s.drop_first(), sep) {
            Some(j) => Some(j + 1),
            None => None,
        }
    }
}

/// Whether `sep` occurs in `s` at position `k`.
pub open spec fn occurs_at(s: Seq<char>, sep: Seq<char>, k: int) -> bool {
    0 <= k && k + sep.len() <= s.len() && s.subrange(k, k + sep.len()) == sep
}

/// The pieces of `s` between the occurrences of `sep`, scanning from the left
/// (what `str::split` gives for a non-empty separator).
pub open spec fn split_on(s: Seq<char>, sep: Seq<char>) -> Seq<Seq<char>>
    decreases s.len(),
{
    if sep.len() == 0 {
        seq![s]
    } else {
        match find(s, sep) {
            Some(i) => if 0 <= i && i + sep.len() <= s.len() {
                seq![s.take(i)] + split_on(s.skip(i + sep.len()), sep)
            } else {
                seq![s]
            },
            None => seq![s],
        }
    }
}

/// `find` gives the first occurrence, or `None` when there is none.
pub proof fn lemma_find(s: Seq<char>, sep: Seq<char>)
    ensures
        match find(s, sep) {
            Some(k) => occurs_at(s, sep, k) && forall|j: int| 0 <= j < k ==> !occurs_at(s, sep, j),
            None => forall|j: int| 0 <= j ==> !occurs_at(s, sep, j),
        },
    decreases s.len(),
{
    if s.len() < sep.len() {
    } else if s.take(sep.len() as int) == sep {
        assert(s.subrange(0, sep.len() as int) =~= s.take(sep.len() as int));
    } else if s.len() == 0 {
    } else {
        let t = s.drop_first();
        lemma_find(t, sep);
        assert(!occurs_at(s, sep, 0)) by {
            assert(s.subrange(0, sep.len() as int) =~= s.take(sep.len() as int));
        }
        assert forall|j: int| 1 <= j implies occurs_at(s, sep, j) == occurs_at(t, sep, j - 1) by {
            if j + sep.len() <= s.len() {
                assert(s.subrange(j, j + sep.len()) =~= t.subrange(j - 1, j - 1 + sep.len()));
            }
        }
    }
}

/// The separator between samples.
pub open spec fn sample_separator() -> Seq<char> {
    seq!['\n', '-', '-', '-', '\n']
}

/// Whether `sep` occurs in `s` at position `k`.
fn occurs_here(s: &[char], sep: &[char], k: usize) -> (r: bool)
    requires
        k <= s@.len(),
    ensures
        r == occurs_at(s@, sep@, k as int),
{
    if sep.len() > s.len() - k {
        return false;
    }
    let n = s.len();
    let mut j: usize = 0;
    while j < sep.len()
        invariant
            n == s@.len(),
            k + sep@.len() <= s@.len(),
            j <= sep@.len(),
            forall|m: int| 0 <= m < j ==> s@[k + m] == sep@[m],
        decreases sep@.len() - j,
    {
        if s[k + j] != sep[j] {
            proof {
                assert(s@.subrange(k as int, k + sep@.len())[j as int] != sep@[j as int]);
            }
            return false;
        }
        j = j + 1;
    }
    proof {
        assert(s@.subrange(k as int, k + sep@.len()) =~= sep@);
    }
    true
}

/// Splits `s` at every occurrence of the non-empty `sep`.
pub fn split_chars(s: &[char], sep: &[char]) -> (r: Vec<Vec<char>>)
    requires
        sep@.len() > 0,
    ensures
        r@.map_values(|p: Vec<char>| p@) == split_on(s@, sep@),
{
    let mut pieces: Vec<Vec<char>> = Vec::new();
    let mut start: usize = 0;
    let mut i: usize = 0;
    proof {
        assert(s@.skip(0) =~= s@);
        assert(pieces@.map_values(|p: Vec<char>| p@) =~= Seq::<Seq<char>>::empty());
    }
    while i <= s.len() && sep.len() <= s.len() - i
        invariant
            sep@.len() > 0,
            start <= i <= s@.len(),
            split_on(s@, sep@) == pieces@.map_values(|p: Vec<char>| p@) + split_on(
                s@.skip(start as int),
                sep@,
            ),
            forall|j: int| start <= j < i ==> !occurs_at(s@, sep@, j),
        decreases s@.len() - i,
    {
        if occurs_here(s, sep, i) {
            let ghost t = s@.skip(start as int);
            proof {
                lemma_find(t, sep@);
                assert forall|j: int| 0 <= j implies occurs_at(t, sep@, j) == occurs_at(
                    s@,
                    sep@,
                    start + j,
                ) by {
                    if j + sep@.len() <= t.len() {
                        assert(t.subrange(j, j + sep@.len()) =~= s@.subrange(
                            start + j,
                            start + j + sep@.len(),
                        ));
                    }
                }
                let k = (i - start) as int;
                assert(occurs_at(t, sep@, k));
                match find(t, sep@) {
                    Some(f) => {
                        if f < k {
                            assert(occurs_at(s@, sep@, start + f));
                        }
                        if f > k {
                            assert(!occurs_at(t, sep@, k));
                        }
                        assert(f == k);
                    },
                    None => {
                        assert(!occurs_at(t, sep@, k));
                    },
                }
                assert(t.take(k) =~= s@.subrange(start as int, i as int));
                assert(t.skip(k + sep@.len()) =~= s@.skip(i + sep@.len()));
            }
            let piece = copy_range(s, start, i);
            let ghost before = pieces@.map_values(|p: Vec<char>| p@);
            pieces.push(piece);
            proof {
                assert(pieces@.map_values(|p: Vec<char>| p@) =~= before.push(
                    s@.subrange(start as int, i as int),
                ));
            }
            i = i + sep.len();
            start = i;
        } else {
            i = i + 1;
        }
    }
    let ghost t = s@.skip(start as int);
    proof {
        lemma_find(t, sep@);
        match find(t, sep@) {
            Some(f) => {
                assert(occurs_at(t, sep@, f));
                if start + f < i {
                    assert(t.subrange(f, f + sep@.len()) =~= s@.subrange(
                        start + f,
                        start + f + sep@.len(),
                    ));
                    assert(occurs_at(s@, sep@, start + f));
                }
                assert(false);
            },
            None => {},
        }
    }
    let last = copy_range(s, start, s.len());
    let ghost before = pieces@.map_values(|p: Vec<char>| p@);
    pieces.push(last);
    proof {
        assert(last@ =~= t);
        assert(pieces@.map_values(|p: Vec<char>| p@) =~= before.push(t));
    }
    pieces
}

/// The samples in `raw`: the pieces between separator lines, each trimmed.
pub open spec fn samples_of(raw: Seq<char>) -> Seq<Seq<char>> {
    split_on(raw, sample_separator()).map_values(|p: Seq<char>| trim(p))
}

/// Splits a language's sample text into its samples.
pub fn split_samples(raw: &str) -> (r: Vec<String>)
    ensures
        views(r@) == samples_of(raw@),
{
    let s = chars_of(raw);
    let sep: Vec<char> = vec!['\n', '-', '-', '-', '\n'];
    proof {
        assert(sep@ =~= sample_separator());
    }
    let pieces = split_chars(s.as_slice(), sep.as_slice());
    let ghost spieces = pieces@.map_values(|p: Vec<char>| p@);
    let mut out: Vec<String> = Vec::new();
    let mut i: usize = 0;
    while i < pieces.len()
        invariant
            i <= pieces@.len(),
            spieces == pieces@.map_values(|p: Vec<char>| p@),
            spieces == split_on(s@, sample_separator()),
            s@ == raw@,
            views(out@) =~= spieces.take(i as int).map_values(|p: Seq<char>| trim(p)),
        decreases pieces@.len() - i,
    {
        let t = trim_chars(pieces[i].as_slice());
        let st = string_of(t.as_slice());
        let ghost before = out@;
        out.push(st);
        proof {
            assert(spieces[i as int] == pieces@[i as int]@);
            assert(views(out@) =~= views(before).push(st@));
            assert(spieces.take(i + 1).map_values(|p: Seq<char>| trim(p)) =~= spieces.take(
                i as int,
            ).map_values(|p: Seq<char>| trim(p)).push(trim(spieces[i as int])));
        }
        i = i + 1;
    }
    proof {
        assert(spieces.take(i as int) =~= spieces);
    }
    out
}

/// One sample from `pool`, chosen at random; the empty string for an empty
/// pool.
pub fn pick_sample(pool: &[String]) -> (r: String)
    ensures
        pool@.len() == 0 ==> r@ == Seq::<char>::empty(),
        pool@.len() > 0 ==> views(pool@).contains(r@),
{
    match choose_one(pool) {
        Some(s) => {
            let r = s.clone();
            proof {
                let i = choose|i: int| 0 <= i < pool@.len() && pool@[i] == *s;
                assert(views(pool@)[i] == r@);
            }
            r
        },
        None => String::new(),
    }
}

/// The samples `picks` names, in order.
pub open spec fn picked(pool: Seq<Seq<char>>, picks: Seq<int>) -> Seq<Seq<char>> {
    picks.map_values(|i: int| pool[i])
}

/// `picks` are positions in a pool of `n` items.
pub open spec fn valid_picks(picks: Seq<int>, n: int) -> bool {
    forall|k: int| 0 <= k < picks.len() ==> 0 <= #[trigger] picks[k] < n
}

/// What `long_sample` gives for `pool` and `target`: samples joined by blank
/// lines, the first of them non-empty, the first picks shorter than `target`
/// in all, the last pick taking it to `target` or past it (no sample where the
/// pool is empty or the target is zero).
pub open spec fn is_long_sample(pool: Seq<Seq<char>>, target: int, out: Seq<char>) -> bool {
    exists|picks: Seq<int>|
        {
            &&& valid_picks(picks, pool.len() as int)
            &&& out == join_with(picked(pool, picks), seq!['\n', '\n'])
            &&& forall|k: int|
                0 <= k < picks.len() ==> join_with(
                    picked(pool, #[trigger] picks.take(k)),
                    seq!['\n', '\n'],
                ).len() < target
            &&& picks.len() == 0 ==> (target <= 0 || pool.len() == 0)
            &&& picks.len() > 0 ==> out.len() >= target && pool[picks[0]].len() > 0
        }
}

/// Whether some sample in `samples` is non-empty.
pub open spec fn has_text(samples: Seq<Seq<char>>) -> bool {
    exists|i: int| 0 <= i < samples.len() && #[trigger] samples[i].len() > 0
}

/// Whether some sample in `pool` is non-empty.
pub fn pool_has_text(pool: &[String]) -> (r: bool)
    ensures
        r == has_text(views(pool@)),
{
    let mut i: usize = 0;
    while i < pool.len()
        invariant
            i <= pool@.len(),
            forall|k: int| 0 <= k < i ==> #[trigger] pool@[k]@.len() == 0,
        decreases pool@.len() - i,
    {
        if pool[i].as_str().unicode_len() > 0 {
            proof {
                assert(views(pool@)[i as int].len() > 0);
            }
            return true;
        }
        i = i + 1;
    }
    proof {
        assert forall|k: int| 0 <= k < views(pool@).len() implies #[trigger] views(pool@)[k].len()
            == 0 by {
            assert(pool@[k]@.len() == 0);
        }
    }
    false
}

/// The non-empty samples of `pool`.
fn nonempty_of(pool: &[String]) -> (r: Vec<String>)
    ensures
        forall|j: int|
            0 <= j < r@.len() ==> #[trigger] r@[j]@.len() > 0 && exists|i: int|
                0 <= i < pool@.len() && pool@[i]@ == r@[j]@,
        r@.len() == 0 ==> forall|i: int| 0 <= i < pool@.len() ==> #[trigger] pool@[i]@.len() == 0,
{
    let mut r: Vec<String> = Vec::new();
    let mut i: usize = 0;
    while i < pool.len()
        invariant
            i <= pool@.len(),
            forall|j: int|
                0 <= j < r@.len() ==> #[trigger] r@[j]@.len() > 0 && exists|k: int|
                    0 <= k < pool@.len() && pool@[k]@ == r@[j]@,
            r@.len() == 0 ==> forall|k: int| 0 <= k < i ==> #[trigger] pool@[k]@.len() == 0,
        decreases pool@.len() - i,
    {
        if pool[i].as_str().unicode_len() > 0 {
            let ghost before = r@;
            r.push(pool[i].clone());
            proof {
                assert forall|j: int| 0 <= j < r@.len() implies #[trigger] r@[j]@.len() > 0
                    && exists|k: int| 0 <= k < pool@.len() && pool@[k]@ == r@[j]@ by {
                    if j < before.len() {
                        assert(r@[j] == before[j]);
                    } else {
                        assert(pool@[i as int]@ == r@[j]@);
                    }
                }
            }
        }
        i = i + 1;
    }
    r
}

/// Concatenates random samples with blank lines between them until reaching
/// `target_chars` characters. The first sample is a non-empty one (an empty
/// sample drawn first adds nothing and is drawn again); a later empty sample
/// adds only its blank line.
pub fn long_sample(pool: &[String], target_chars: usize) -> (r: String)
    requires
        target_chars > 0 && pool@.len() > 0 ==> has_text(views(pool@)),
    ensures
        is_long_sample(views(pool@), target_chars as int, r@),
{
    let ghost vp = views(pool@);
    let ghost sep = seq!['\n', '\n'];
    let firsts = nonempty_of(pool);
    let mut out: Vec<char> = Vec::new();
    let ghost mut picks: Seq<int> = Seq::empty();
    proof {
        assert(picked(vp, picks) =~= Seq::<Seq<char>>::empty());
    }
    while out.len() < target_chars
        invariant
            vp == views(pool@),
            sep == seq!['\n', '\n'],
            target_chars > 0 && pool@.len() > 0 ==> has_text(vp),
            forall|j: int|
                0 <= j < firsts@.len() ==> #[trigger] firsts@[j]@.len() > 0 && exists|i: int|
                    0 <= i < pool@.len() && pool@[i]@ == firsts@[j]@,
            firsts@.len() == 0 ==> forall|i: int|
                0 <= i < pool@.len() ==> #[trigger] pool@[i]@.len() == 0,
            valid_picks(picks, pool@.len() as int),
            picks.len() > 0 ==> vp[picks[0]].len() > 0,
            out@ == join_with(picked(vp, picks), sep),
            picks.len() == 0 <==> out@.len() == 0,
            forall|k: int|
                0 <= k < picks.len() ==> join_with(picked(vp, #[trigger] picks.take(k)), sep).len()
                    < target_chars,
        ensures
            out@.len() >= target_chars || pool@.len() == 0,
        decreases (if out@.len() < target_chars {
            target_chars - out@.len()
        } else {
            0
        }),
    {
        let first = out.len() == 0;
        let drawn = if first {
            choose_one(firsts.as_slice())
        } else {
            choose_one(pool)
        };
        let s = match drawn {
            Some(s) => s,
            None => {
                proof {
                    if first && pool@.len() > 0 {
                        let i = choose|i: int| 0 <= i < vp.len() && #[trigger] vp[i].len() > 0;
                        assert(pool@[i]@.len() == 0);
                    }
                }
                break ;
            },
        };
        proof {
            if first {
                let j = choose|j: int| 0 <= j < firsts@.len() && firsts@[j] == *s;
                assert(firsts@[j]@.len() > 0);
                let k = choose|k: int| 0 <= k < pool@.len() && pool@[k]@ == firsts@[j]@;
                assert(vp[k] == s@);
            } else {
                let k = choose|k: int| 0 <= k < pool@.len() && pool@[k] == *s;
                assert(vp[k] == s@);
            }
        }
        let ghost i = choose|i: int| 0 <= i < pool@.len() && vp[i] == s@;
        let ghost old_picks = picks;
        let ghost old_out = out@;
        if !first {
            out.push('\n');
            out.push('\n');
        }
        let mut cs = chars_of(s.as_str());
        out.append(&mut cs);
        proof {
            picks = old_picks.push(i);
            assert(picks.take(old_picks.len() as int) =~= old_picks);
            assert forall|k: int| 0 <= k < picks.len() implies join_with(
                picked(vp, #[trigger] picks.take(k)),
                sep,
            ).len() < target_chars by {
                if k < old_picks.len() {
                    assert(picks.take(k) =~= old_picks.take(k));
                }
            }
            assert(vp[i] == s@);
            assert(picked(vp, picks).drop_last() =~= picked(vp, old_picks));
            assert(picked(vp, picks).last() == s@);
            if old_picks.len() == 0 {
                assert(picked(vp, picks) =~= seq![s@]);
                assert(out@ =~= s@);
                assert(picks[0] == i);
            } else {
                assert(out@ =~= old_out + sep + s@);
                assert(picks[0] == old_picks[0]);
            }
            assert(valid_picks(picks, pool@.len() as int));
        }
    }
    proof {
        assert(out@.len() >= target_chars || pool@.len() == 0);
        if picks.len() == 0 {
            assert(out@.len() == 0);
        }
        assert(picks.len() > 0 ==> views(pool@)[picks[0]].len() > 0);
    }
    let r = string_of(out.as_slice());
    proof {
        assert(r@ == join_with(picked(views(pool@), picks), seq!['\n', '\n']));
        assert(valid_picks(picks, views(pool@).len() as int));
        assert(forall|k: int|
                0 <= k < picks.len() ==> join_with(
                    picked(views(pool@), #[trigger] picks.take(k)),
                    seq!['\n', '\n'],
                ).len() < target_chars);
        assert(picks.len() == 0 ==> (target_chars <= 0 || views(pool@).len() == 0));
        assert(picks.len() > 0 ==> r@.len() >= target_chars);
    }
    r
}

/// Splits `text` into lines, each keeping its `\n` (what syntect's
/// `LinesWithEndings` gives): the lines make up the text, none is empty, and a
/// line holds a `\n` only as its last character, which every line but the
/// last has.
pub open spec fn is_lines_of(lines: Seq<Seq<char>>, text: Seq<char>) -> bool {
    &&& concat(lines) == text
    &&& forall|i: int| 0 <= i < lines.len() ==> #[trigger] lines[i].len() > 0
    &&& forall|i: int, j: int|
        0 <= i < lines.len() && 0 <= j < lines[i].len() - 1 ==> #[trigger] lines[i][j] != '\n'
    &&& forall|i: int| 0 <= i < lines.len() - 1 ==> #[trigger] lines[i].last() == '\n'
}

/// Lines that are each non-empty hold at least one character apiece.
proof fn lemma_concat_len_ge(lines: Seq<Seq<char>>)
    requires
        forall|i: int| 0 <= i < lines.len() ==> #[trigger] lines[i].len() > 0,
    ensures
        concat(lines).len() >= lines.len(),
    decreases lines.len(),
{
    if lines.len() > 0 {
        assert forall|i: int| 0 <= i < lines.drop_last().len() implies #[trigger] lines.drop_last()[i].len()
            > 0 by {
            assert(lines.drop_last()[i] == lines[i]);
        }
        lemma_concat_len_ge(lines.drop_last());
    }
}

/// The last line of `a` is no longer than the last line of `b` where both
/// are the lines of the same text.
proof fn lemma_last_line_not_shorter(a: Seq<Seq<char>>, b: Seq<Seq<char>>, t: Seq<char>)
    requires
        is_lines_of(a, t),
        is_lines_of(b, t),
        a.len() > 0,
        b.len() > 0,
    ensures
        a.last().len() >= b.last().len(),
{
    let pa = concat(a.drop_last());
    let pb = concat(b.drop_last());
    let la = a.last();
    let lb = b.last();
    assert(t == pa + la);
    assert(t == pb + lb);
    if la.len() < lb.len() {
        assert(a.len() >= 2) by {
            if a.len() == 1 {
                assert(a.drop_last() =~= Seq::<Seq<char>>::empty());
                assert(pa.len() == 0);
            }
        }
        let prev = a.drop_last();
        assert(prev.last() == a[a.len() - 2]);
        assert(prev.last().last() == '\n');
        assert(pa == concat(prev.drop_last()) + prev.last());
        assert(pa.last() == '\n');
        let k = pa.len() - 1;
        let j = k - pb.len();
        assert(t[k] == pa[k]);
        assert(0 <= j < lb.len() - 1);
        assert(t[k] == lb[j]);
        assert(b[b.len() - 1] == lb);
        assert(lb[j] != '\n');
    }
}

/// The lines of a text are determined by the text.
pub proof fn lemma_lines_unique(a: Seq<Seq<char>>, b: Seq<Seq<char>>, t: Seq<char>)
    requires
        is_lines_of(a, t),
        is_lines_of(b, t),
    ensures
        a == b,
    decreases a.len(),
{
    if a.len() == 0 || b.len() == 0 {
        lemma_concat_len_ge(a);
        lemma_concat_len_ge(b);
        if a.len() > 0 {
            assert(concat(a).len() >= a.last().len());
        }
        if b.len() > 0 {
            assert(concat(b).len() >= b.last().len());
        }
        assert(a =~= b);
    } else {
        lemma_last_line_not_shorter(a, b, t);
        lemma_last_line_not_shorter(b, a, t);
        let pa = concat(a.drop_last());
        let pb = concat(b.drop_last());
        assert(t == pa + a.last());
        assert(t == pb + b.last());
        assert(pa =~= t.take(pa.len() as int));
        assert(pb =~= t.take(pb.len() as int));
        assert(a.last() =~= t.skip(pa.len() as int));
        assert(b.last() =~= t.skip(pb.len() as int));
        let da = a.drop_last();
        let db = b.drop_last();
        assert(is_lines_of(da, pa)) by {
            assert forall|i: int| 0 <= i < da.len() implies #[trigger] da[i].len() > 0 by {
                assert(da[i] == a[i]);
            }
            assert forall|i: int, j: int|
                0 <= i < da.len() && 0 <= j < da[i].len() - 1 implies #[trigger] da[i][j] != '\n' by {
                assert(da[i] == a[i]);
            }
            assert forall|i: int| 0 <= i < da.len() - 1 implies #[trigger] da[i].last() == '\n' by {
                assert(da[i] == a[i]);
            }
        }
        assert(is_lines_of(db, pb)) by {
            assert forall|i: int| 0 <= i < db.len() implies #[trigger] db[i].len() > 0 by {
                assert(db[i] == b[i]);
            }
            assert forall|i: int, j: int|
                0 <= i < db.len() && 0 <= j < db[i].len() - 1 implies #[trigger] db[i][j] != '\n' by {
                assert(db[i] == b[i]);
            }
            assert forall|i: int| 0 <= i < db.len() - 1 implies #[trigger] db[i].last() == '\n' by {
                assert(db[i] == b[i]);
            }
        }
        lemma_lines_unique(da, db, pa);
        assert(a =~= da.push(a.last()));
        assert(b =~= db.push(b.last()));
    }
}

/// The lines of `text`, each with its line ending.
pub fn lines_with_endings(text: &[char]) -> (r: Vec<Vec<char>>)
    ensures
        is_lines_of(r@.map_values(|l: Vec<char>| l@), text@),
{
    let mut lines: Vec<Vec<char>> = Vec::new();
    let mut cur: Vec<char> = Vec::new();
    let mut i: usize = 0;
    while i < text.len()
        invariant
            i <= text@.len(),
            concat(lines@.map_values(|l: Vec<char>| l@)) + cur@ == text@.take(i as int),
            forall|k: int| 0 <= k < lines@.len() ==> #[trigger] lines@[k]@.len() > 0,
            forall|k: int, j: int|
                0 <= k < lines@.len() && 0 <= j < lines@[k]@.len() - 1 ==> #[trigger] lines@[k]@[j]
                    != '\n',
            forall|k: int| 0 <= k < lines@.len() ==> #[trigger] lines@[k]@.last() == '\n',
            forall|j: int| 0 <= j < cur@.len() ==> #[trigger] cur@[j] != '\n',
        decreases text@.len() - i,
    {
        let c = text[i];
        cur.push(c);
        let ghost before = lines@.map_values(|l: Vec<char>| l@);
        if c == '\n' {
            let line = cur;
            cur = Vec::new();
            lines.push(line);
            proof {
                assert(lines@.map_values(|l: Vec<char>| l@) =~= before.push(line@));
                assert(lines@.map_values(|l: Vec<char>| l@).drop_last() =~= before);
            }
        }
        i = i + 1;
        proof {
            assert(text@.take(i as int) =~= text@.take(i - 1) + seq![c]);
        }
    }
    let ghost before = lines@.map_values(|l: Vec<char>| l@);
    if cur.len() > 0 {
        let line = cur;
        lines.push(line);
        proof {
            assert(lines@.map_values(|l: Vec<char>| l@) =~= before.push(line@));
            assert(lines@.map_values(|l: Vec<char>| l@).drop_last() =~= before);
        }
    } else {
        proof {
            assert(cur@ =~= Seq::<char>::empty());
            assert(concat(before) + cur@ =~= concat(before));
        }
    }
    proof {
        assert(text@.take(i as int) =~= text@);
    }
    lines
}

/// `count` copies of `c`.
pub open spec fn repeat_color(c: Color, count: nat) -> Seq<Color> {
    Seq::new(count, |i: int| c)
}

/// `raw` cut or padded with gray to exactly `total` colors.
pub open spec fn fit(raw: Seq<Color>, total: nat) -> Seq<Color> {
    if raw.len() >= total {
        raw.take(total as int)
    } else {
        raw + repeat_color(Color::Gray, (total - raw.len()) as nat)
    }
}

/// Cuts or pads `colors` with gray to exactly `total` entries.
pub fn fit_colors(colors: Vec<Color>, total: usize) -> (r: Vec<Color>)
    ensures
        r@ == fit(colors@, total as nat),
{
    let mut colors = colors;
    let ghost raw = colors@;
    if colors.len() < total {
        while colors.len() < total
            invariant
                raw.len() < total,
                raw.len() <= colors@.len() <= total,
                colors@ =~= raw + repeat_color(Color::Gray, (colors@.len() - raw.len()) as nat),
            decreases total - colors@.len(),
        {
            colors.push(Color::Gray);
        }
    } else {
        colors.truncate(total);
    }
    colors
}

/// The file extension whose syntax highlights `lang`.
pub open spec fn ext_of(lang: Lang) -> Seq<char> {
    match lang {
        Lang::Rust => "rs"@,
        Lang::Python => "py"@,
        Lang::Js => "js"@,
        Lang::Go => "go"@,
    }
}

/// Extension of the syntax used for `lang`.
pub fn lang_extension(lang: Lang) -> (r: &'static str)
    ensures
        r@ == ext_of(lang),
{
    match lang {
        Lang::Rust => "rs",
        Lang::Python => "py",
        Lang::Js => "js",
        Lang::Go => "go",
    }
}

/// The colors of one styled piece: its color once per character.
pub open spec fn piece_run(p: (u8, u8, u8, Seq<char>)) -> Seq<Color> {
    repeat_color(Color::Rgb(p.0, p.1, p.2), p.3.len())
}

/// The colors of a highlighted line, piece after piece.
pub open spec fn pieces_run(pieces: Seq<(u8, u8, u8, Seq<char>)>) -> Seq<Color> {
    concat(pieces.map_values(|p: (u8, u8, u8, Seq<char>)| piece_run(p)))
}

/// The colors of a line of `len` characters from what syntect gave for it:
/// its pieces' colors, cut or padded with gray to the line's length; all gray
/// where syntect reported an error.
pub open spec fn line_run(pieces: Option<Seq<(u8, u8, u8, Seq<char>)>>, len: nat) -> Seq<Color> {
    match pieces {
        Some(p) => fit(pieces_run(p), len),
        None => repeat_color(Color::Gray, len),
    }
}

/// The colors of `lines` highlighted one after another by one highlighter for
/// `syntax` and `theme`.
pub open spec fn highlighted_lines(
    syntax: Option<Seq<char>>,
    theme: Option<Seq<char>>,
    lines: Seq<Seq<char>>,
) -> Seq<Color>
    decreases lines.len(),
{
    if lines.len() == 0 {
        Seq::empty()
    } else {
        highlighted_lines(syntax, theme, lines.drop_last()) + line_run(
            syntect_pieces(syntax, theme, lines.drop_last(), lines.last()),
            lines.last().len(),
        )
    }
}

/// The theme highlighting uses by name.
pub open spec fn preferred_theme() -> Seq<char> {
    "base16-ocean.dark"@
}

/// The syntax highlighting uses for `lang`: the bundled one for its
/// extension, or plain text.
pub open spec fn syntax_for(lang: Lang) -> Option<Seq<char>> {
    if bundled_syntax(ext_of(lang)) {
        Some(ext_of(lang))
    } else {
        None
    }
}

/// `r` is `text` highlighted as `lang`: its lines (which the text determines,
/// see [`lemma_lines_unique`]) run through one highlighter for the language's
/// syntax and `base16-ocean.dark`, or, where that theme is not bundled, the
/// first bundled theme (all gray if there is none).
pub open spec fn is_highlight_of(r: Seq<Color>, text: Seq<char>, lang: Lang) -> bool {
    exists|lines: Seq<Seq<char>>|
        #![trigger is_lines_of(lines, text)]
        is_lines_of(lines, text) && if bundled_theme(preferred_theme()) {
            r == highlighted_lines(syntax_for(lang), Some(preferred_theme()), lines)
        } else if exists|n: Seq<char>| bundled_theme(n) {
            r == highlighted_lines(syntax_for(lang), None, lines)
        } else {
            r == repeat_color(Color::Gray, text.len())
        }
}

/// `highlighted_lines` gives one color per character.
pub proof fn lemma_highlighted_len(
    syntax: Option<Seq<char>>,
    theme: Option<Seq<char>>,
    lines: Seq<Seq<char>>,
)
    ensures
        highlighted_lines(syntax, theme, lines).len() == concat(lines).len(),
    decreases lines.len(),
{
    if lines.len() > 0 {
        lemma_highlighted_len(syntax, theme, lines.drop_last());
    }
}

/// Appends the colors of a line of `len` characters from what syntect gave
/// for it: each piece's color once per character of the piece, cut or padded
/// with gray to `len`; all gray where syntect reported an error.
pub fn line_colors(pieces: &Option<Vec<(u8, u8, u8, String)>>, len: usize, colors: &mut Vec<Color>)
    ensures
        final(colors)@ == old(colors)@ + line_run(result_view(*pieces), len as nat),
{
    let mut run: Vec<Color> = Vec::new();
    match pieces {
        Some(ps) => {
            let mut k: usize = 0;
            let ghost pv = crate::syntax::pieces_view(ps@);
            let ghost runs = pv.map_values(|p: (u8, u8, u8, Seq<char>)| piece_run(p));
            proof {
                assert(runs.take(0) =~= Seq::<Seq<Color>>::empty());
            }
            while k < ps.len()
                invariant
                    k <= ps@.len(),
                    pv == crate::syntax::pieces_view(ps@),
                    runs == pv.map_values(|p: (u8, u8, u8, Seq<char>)| piece_run(p)),
                    run@ == concat(runs.take(k as int)),
                decreases ps@.len() - k,
            {
                let c = Color::Rgb(ps[k].0, ps[k].1, ps[k].2);
                let n = ps[k].3.as_str().unicode_len();
                let ghost base = run@;
                let mut m: usize = 0;
                proof {
                    assert(run@ =~= base + repeat_color(c, 0));
                }
                while m < n
                    invariant
                        m <= n,
                        run@ == base + repeat_color(c, m as nat),
                    decreases n - m,
                {
                    run.push(c);
                    m = m + 1;
                    proof {
                        assert(run@ =~= base + repeat_color(c, m as nat));
                    }
                }
                proof {
                    assert(pv[k as int] == (ps@[k as int].0, ps@[k as int].1, ps@[k as int].2, ps@[k as int].3@));
                    assert(runs[k as int] =~= repeat_color(c, n as nat));
                    assert(runs.take(k + 1).drop_last() =~= runs.take(k as int));
                    assert(runs.take(k + 1).last() == runs[k as int]);
                }
                k = k + 1;
            }
            proof {
                assert(runs.take(k as int) =~= runs);
            }
        },
        None => {},
    }
    let fitted = fit_colors(run, len);
    let ghost before = colors@;
    let mut i: usize = 0;
    while i < fitted.len()
        invariant
            i <= fitted@.len(),
            colors@ == before + fitted@.take(i as int),
        decreases fitted@.len() - i,
    {
        colors.push(fitted[i]);
        i = i + 1;
        proof {
            assert(fitted@.take(i as int) =~= fitted@.take(i - 1) + seq![fitted@[i - 1]]);
        }
    }
    proof {
        assert(fitted@.take(i as int) =~= fitted@);
        if pieces.is_none() {
            assert(fit(Seq::<Color>::empty(), len as nat) =~= repeat_color(Color::Gray, len as nat));
        }
    }
}

/// Returns one [`Color`] per character of `text`: each line of it is
/// highlighted by syntect for the language's syntax, its pieces' colors cut or
/// padded with gray to the line's length, and a line syntect reports an error
/// on is all gray. The bundled syntaxes and themes are loaded for the call.
pub fn highlight(text: &str, lang: Lang) -> (r: Vec<Color>)
    ensures
        r@.len() == text@.len(),
        is_highlight_of(r@, text@, lang),
{
    let syntaxes = Syntaxes::load();
    let themes = Themes::load();
    highlight_with(text, lang, &syntaxes, &themes)
}

/// [`highlight`] with bundled syntaxes and themes already loaded.
pub fn highlight_with(text: &str, lang: Lang, syntaxes: &Syntaxes, themes: &Themes) -> (r: Vec<Color>)
    ensures
        r@.len() == text@.len(),
        is_highlight_of(r@, text@, lang),
{
    let chars = chars_of(text);
    let total = chars.len();
    let lines = lines_with_endings(chars.as_slice());
    let ghost lv = lines@.map_values(|l: Vec<char>| l@);
    let syntax = match syntaxes.by_extension(lang_extension(lang)) {
        Some(s) => s,
        None => syntaxes.plain_text(),
    };
    let theme = match themes.named("base16-ocean.dark") {
        Some(t) => t,
        None => match themes.first() {
            Some(t) => t,
            None => {
                let r = fit_colors(Vec::new(), total);
                proof {
                    assert(r@ =~= repeat_color(Color::Gray, text@.len()));
                    assert(is_lines_of(lv, text@));
                }
                return r;
            },
        },
    };
    let mut h = LineHighlighter::new(&syntax, &theme);
    let mut colors: Vec<Color> = Vec::new();
    let mut i: usize = 0;
    proof {
        assert(lv.take(0) =~= Seq::<Seq<char>>::empty());
    }
    while i < lines.len()
        invariant
            i <= lines@.len(),
            lv == lines@.map_values(|l: Vec<char>| l@),
            h@ == (syntax@, theme@, lv.take(i as int)),
            colors@ == highlighted_lines(syntax@, theme@, lv.take(i as int)),
        decreases lines@.len() - i,
    {
        let line = string_of(lines[i].as_slice());
        let pieces = h.highlight_line(line.as_str(), syntaxes);
        line_colors(&pieces, lines[i].len(), &mut colors);
        proof {
            assert(lv.take(i + 1).drop_last() =~= lv.take(i as int));
            assert(lv.take(i + 1).last() == lines@[i as int]@);
            assert(lv.take(i as int).push(line@) =~= lv.take(i + 1));
        }
        i = i + 1;
    }
    proof {
        assert(lv.take(i as int) =~= lv);
        assert(is_lines_of(lv, text@));
        lemma_highlighted_len(syntax@, theme@, lv);
    }
    colors
}

/// Each language is highlighted by the bundled syntax for its own file
/// extension (`rs`, `py`, `js`, `go`) where there is one, and as plain text
/// otherwise; different languages have different extensions, so two
/// languages whose syntaxes are bundled are highlighted by different
/// syntaxes.
pub proof fn law_syntax_per_language(a: Lang, b: Lang)
    ensures
        bundled_syntax(ext_of(a)) ==> syntax_for(a) == Some(ext_of(a)),
        !bundled_syntax(ext_of(a)) ==> syntax_for(a) is None,
        ext_of(Lang::Rust) == "rs"@,
        ext_of(Lang::Python) == "py"@,
        ext_of(Lang::Js) == "js"@,
        ext_of(Lang::Go) == "go"@,
        a != b ==> ext_of(a) != ext_of(b),
        a != b && bundled_syntax(ext_of(a)) && bundled_syntax(ext_of(b)) ==> syntax_for(a)
            != syntax_for(b),
{
    reveal_strlit("rs");
    reveal_strlit("py");
    reveal_strlit("js");
    reveal_strlit("go");
    if a != b {
        assert(ext_of(a) != ext_of(b)) by {
            assert(ext_of(a)[0] != ext_of(b)[0] || ext_of(a)[1] != ext_of(b)[1]);
        }
    }
}

} // verus!
