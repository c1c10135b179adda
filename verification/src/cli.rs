//! Configuration enums (source, lang, limit, difficulty), the command-line
//! options they come from, the `--limit` parser, labels, and list rotation.

use vstd::prelude::*;
use vstd::laws_eq::obeys_concrete_eq;
use vstd::std_specs::cmp::PartialEqSpecImpl;
use crate::text::{
    chars_of, decimal, int_error_message, int_error_text, lemma_decimal_digits,
    lemma_digits_of_decimal, lemma_trim_fixed, parse_u32, parse_u32_chars, push_decimal,
    string_of, trim, trim_chars,
};

verus! {

/// Where the test text comes from.
#[derive(Copy, Clone, Debug, Eq)]
pub enum Source {
    Text,
    Code,
}

/// Size of the word list that text tests draw from.
#[derive(Copy, Clone, Debug, Eq)]
pub enum Difficulty {
    E200,
    E1k,
    E5k,
    E10k,
}

/// Language of the code samples.
#[derive(Copy, Clone, Debug, Eq)]
pub enum Lang {
    Rust,
    Python,
    Js,
    Go,
}

/// A test-completion condition.
///
/// `Time(secs)` ends when the clock runs out, `Count(words)` ends after the
/// user has typed N whitespace-separated words, `Snippet` ends when the user
/// types through the entire target.
#[derive(Copy, Clone, Debug, Eq)]
pub enum Limit {
    Time(u32),
    Count(u32),
    Snippet,
}

impl PartialEq for Source {
    fn eq(&self, other: &Source) -> (r: bool) {
        match (self, other) {
            (Source::Text, Source::Text) | (Source::Code, Source::Code) => true,
            _ => false,
        }
    }
}

impl PartialEqSpecImpl for Source {
    open spec fn obeys_eq_spec() -> bool {
        true
    }

    open spec fn eq_spec(&self, other: &Source) -> bool {
        *self == *other
    }
}

impl PartialEq for Difficulty {
    fn eq(&self, other: &Difficulty) -> (r: bool) {
        match (self, other) {
            (Difficulty::E200, Difficulty::E200)
            | (Difficulty::E1k, Difficulty::E1k)
            | (Difficulty::E5k, Difficulty::E5k)
            | (Difficulty::E10k, Difficulty::E10k) => true,
            _ => false,
        }
    }
}

impl PartialEqSpecImpl for Difficulty {
    open spec fn obeys_eq_spec() -> bool {
        true
    }

    open spec fn eq_spec(&self, other: &Difficulty) -> bool {
        *self == *other
    }
}

impl PartialEq for Lang {
    fn eq(&self, other: &Lang) -> (r: bool) {
        match (self, other) {
            (Lang::Rust, Lang::Rust)
            | (Lang::Python, Lang::Python)
            | (Lang::Js, Lang::Js)
            | (Lang::Go, Lang::Go) => true,
            _ => false,
        }
    }
}

impl PartialEqSpecImpl for Lang {
    open spec fn obeys_eq_spec() -> bool {
        true
    }

    open spec fn eq_spec(&self, other: &Lang) -> bool {
        *self == *other
    }
}

impl PartialEq for Limit {
    fn eq(&self, other: &Limit) -> (r: bool) {
        match (self, other) {
            (Limit::Time(a), Limit::Time(b)) => *a == *b,
            (Limit::Count(a), Limit::Count(b)) => *a == *b,
            (Limit::Snippet, Limit::Snippet) => true,
            _ => false,
        }
    }
}

impl PartialEqSpecImpl for Limit {
    open spec fn obeys_eq_spec() -> bool {
        true
    }

    open spec fn eq_spec(&self, other: &Limit) -> bool {
        *self == *other
    }
}

impl Limit {
    /// The length of a timed test, in seconds.
    pub fn time_secs(&self) -> (r: Option<u32>)
        ensures
            r == (match *self {
                Limit::Time(n) => Some(n),
                _ => None,
            }),
    {
        match self {
            Limit::Time(n) => Some(*n),
            _ => None,
        }
    }
}

/// The command-line options.
pub struct Cli {
    pub source: Source,
    pub lang: Lang,
    pub difficulty: Difficulty,
    pub limit: Limit,
}

impl Default for Cli {
    /// Text source, Rust, the 200-word list, 30 seconds.
    fn default() -> (r: Cli)
        ensures
            r.source == Source::Text,
            r.lang == Lang::Rust,
            r.difficulty == Difficulty::E200,
            r.limit == Limit::Time(30),
    {
        Cli {
            source: Source::Text,
            lang: Lang::Rust,
            difficulty: Difficulty::E200,
            limit: Limit::Time(30),
        }
    }
}

/// What `limit` means on the command line: `snippet` in any ASCII case, `<n>s`
/// (seconds), `<n>w` (words), or a bare `<n>` (seconds), after trimming
/// whitespace. An unreadable number gives `std`'s integer error.
pub open spec fn limit_of(s: Seq<char>) -> Result<Limit, Seq<char>> {
    let t = trim(s);
    if is_snippet_word(t) {
        Ok(Limit::Snippet)
    } else if t.len() > 0 && t.last() == 's' {
        match parse_u32(t.drop_last()) {
            Ok(n) => Ok(Limit::Time(n)),
            Err(e) => Err(int_error_text(e)),
        }
    } else if t.len() > 0 && t.last() == 'w' {
        match parse_u32(t.drop_last()) {
            Ok(n) => Ok(Limit::Count(n)),
            Err(e) => Err(int_error_text(e)),
        }
    } else {
        match parse_u32(t) {
            Ok(n) => Ok(Limit::Time(n)),
            Err(e) => Err(int_error_text(e)),
        }
    }
}

/// `t` equals `snippet` ignoring ASCII case.
pub open spec fn is_snippet_word(t: Seq<char>) -> bool {
    &&& t.len() == 7
    &&& forall|i: int|
        0 <= i < 7 ==> #[trigger] t[i] == "snippet"@[i] || t[i] == "SNIPPET"@[i]
}

fn snippet_word(t: &[char]) -> (r: bool)
    ensures
        r == is_snippet_word(t@),
{
    proof {
        reveal_strlit("snippet");
        reveal_strlit("SNIPPET");
    }
    if t.len() != 7 {
        return false;
    }
    let lower = chars_of("snippet");
    let upper = chars_of("SNIPPET");
    let mut i: usize = 0;
    while i < 7
        invariant
            t@.len() == 7,
            lower@ == "snippet"@,
            upper@ == "SNIPPET"@,
            lower@.len() == 7,
            upper@.len() == 7,
            i <= 7,
            forall|j: int|
                0 <= j < i ==> #[trigger] t@[j] == "snippet"@[j] || t@[j] == "SNIPPET"@[j],
        decreases 7 - i,
    {
        if t[i] != lower[i] && t[i] != upper[i] {
            return false;
        }
        i = i + 1;
    }
    true
}

/// Parses the `--limit` option.
pub fn parse_limit(s: &str) -> (r: Result<Limit, String>)
    ensures
        match (r, limit_of(s@)) {
            (Ok(a), Ok(b)) => a == b,
            (Err(m), Err(e)) => m@ == e,
            _ => false,
        },
{
    let raw = chars_of(s);
    let t = trim_chars(raw.as_slice());
    if snippet_word(t.as_slice()) {
        return Ok(Limit::Snippet);
    }
    let n = t.len();
    let (digits, is_count) = if n > 0 && t[n - 1] == 's' {
        (crate::text::copy_range(t.as_slice(), 0, n - 1), false)
    } else if n > 0 && t[n - 1] == 'w' {
        (crate::text::copy_range(t.as_slice(), 0, n - 1), true)
    } else {
        (crate::text::copy_range(t.as_slice(), 0, n), false)
    };
    proof {
        if n > 0 && (t@[n - 1] == 's' || t@[n - 1] == 'w') {
            assert(digits@ =~= t@.drop_last());
        } else {
            assert(digits@ =~= t@);
        }
    }
    match parse_u32_chars(digits.as_slice()) {
        Ok(v) => {
            if is_count {
                Ok(Limit::Count(v))
            } else {
                Ok(Limit::Time(v))
            }
        },
        Err(e) => Err(int_error_message(e)),
    }
}

/// The sources, in the order the selector shows them.
pub open spec fn all_sources() -> Seq<Source> {
    seq![Source::Text, Source::Code]
}

/// The languages, in the order the selector shows them.
pub open spec fn all_langs() -> Seq<Lang> {
    seq![Lang::Rust, Lang::Python, Lang::Js, Lang::Go]
}

/// The difficulties, in the order the selector shows them.
pub open spec fn all_difficulties() -> Seq<Difficulty> {
    seq![Difficulty::E200, Difficulty::E1k, Difficulty::E5k, Difficulty::E10k]
}

/// The limits offered for `s`.
pub open spec fn limits_of(s: Source) -> Seq<Limit> {
    match s {
        Source::Text => seq![
            Limit::Time(15),
            Limit::Time(30),
            Limit::Time(60),
            Limit::Time(120),
            Limit::Count(10),
            Limit::Count(25),
            Limit::Count(50),
            Limit::Count(100),
        ],
        Source::Code => seq![
            Limit::Time(15),
            Limit::Time(30),
            Limit::Time(60),
            Limit::Time(120),
            Limit::Snippet,
        ],
    }
}

/// All sources.
pub fn sources() -> (r: Vec<Source>)
    ensures
        r@ == all_sources(),
{
    vec![Source::Text, Source::Code]
}

/// All languages.
pub fn langs() -> (r: Vec<Lang>)
    ensures
        r@ == all_langs(),
{
    vec![Lang::Rust, Lang::Python, Lang::Js, Lang::Go]
}

/// All difficulties.
pub fn difficulties() -> (r: Vec<Difficulty>)
    ensures
        r@ == all_difficulties(),
{
    vec![Difficulty::E200, Difficulty::E1k, Difficulty::E5k, Difficulty::E10k]
}

/// The limits offered for source `s`.
pub fn limits_for(s: Source) -> (r: Vec<Limit>)
    ensures
        r@ == limits_of(s),
{
    match s {
        Source::Text => vec![
            Limit::Time(15),
            Limit::Time(30),
            Limit::Time(60),
            Limit::Time(120),
            Limit::Count(10),
            Limit::Count(25),
            Limit::Count(50),
            Limit::Count(100),
        ],
        Source::Code => vec![
            Limit::Time(15),
            Limit::Time(30),
            Limit::Time(60),
            Limit::Time(120),
            Limit::Snippet,
        ],
    }
}

/// The label of a source.
pub fn source_label(s: Source) -> (r: &'static str)
    ensures
        r@ == (match s {
            Source::Text => "text"@,
            Source::Code => "code"@,
        }),
{
    match s {
        Source::Text => "text",
        Source::Code => "code",
    }
}

/// The label of a language.
pub fn lang_label(l: Lang) -> (r: &'static str)
    ensures
        r@ == (match l {
            Lang::Rust => "rust"@,
            Lang::Python => "python"@,
            Lang::Js => "js"@,
            Lang::Go => "go"@,
        }),
{
    match l {
        Lang::Rust => "rust",
        Lang::Python => "python",
        Lang::Js => "js",
        Lang::Go => "go",
    }
}

/// The label of a difficulty.
pub fn difficulty_label(d: Difficulty) -> (r: &'static str)
    ensures
        r@ == (match d {
            Difficulty::E200 => "200"@,
            Difficulty::E1k => "1k"@,
            Difficulty::E5k => "5k"@,
            Difficulty::E10k => "10k"@,
        }),
{
    match d {
        Difficulty::E200 => "200",
        Difficulty::E1k => "1k",
        Difficulty::E5k => "5k",
        Difficulty::E10k => "10k",
    }
}

/// The label of a limit: `<n>s`, `<n>` for a word count, or `snippet`.
pub open spec fn limit_text(l: Limit) -> Seq<char> {
    match l {
        Limit::Time(n) => decimal(n as nat).push('s'),
        Limit::Count(n) => decimal(n as nat),
        Limit::Snippet => "snippet"@,
    }
}

/// The label of a limit.
pub fn limit_label(l: Limit) -> (r: String)
    ensures
        r@ == limit_text(l),
{
    match l {
        Limit::Time(n) => {
            let mut v: Vec<char> = Vec::new();
            push_decimal(n, &mut v);
            v.push('s');
            proof {
                assert(v@ =~= decimal(n as nat).push('s'));
            }
            string_of(v.as_slice())
        },
        Limit::Count(n) => {
            let mut v: Vec<char> = Vec::new();
            push_decimal(n, &mut v);
            proof {
                assert(v@ =~= decimal(n as nat));
            }
            string_of(v.as_slice())
        },
        Limit::Snippet => String::from_str("snippet"),
    }
}

/// Position of the first `x` in `list`, or `None`.
pub open spec fn first_index<T>(list: Seq<T>, x: T) -> Option<int>
    decreases list.len(),
{
    if list.len() == 0 {
        None
    } else if list.last() == x && first_index(list.drop_last(), x) is None {
        Some(list.len() - 1)
    } else {
        first_index(list.drop_last(), x)
    }
}

/// The element after `current` in `list`, wrapping at the end; the first
/// element where `current` is not in `list`; `current` for an empty list.
pub open spec fn next_of<T>(list: Seq<T>, current: T) -> T {
    if list.len() == 0 {
        current
    } else {
        match first_index(list, current) {
            Some(p) => list[(p + 1) % (list.len() as int)],
            None => list[0],
        }
    }
}

/// The element before `current` in `list`, wrapping at the start; the first
/// element where `current` is not in `list`; `current` for an empty list.
pub open spec fn prev_of<T>(list: Seq<T>, current: T) -> T {
    if list.len() == 0 {
        current
    } else {
        match first_index(list, current) {
            Some(p) => list[if p == 0 {
                list.len() - 1
            } else {
                p - 1
            }],
            None => list[0],
        }
    }
}

pub proof fn lemma_first_index<T>(list: Seq<T>, x: T)
    ensures
        match first_index(list, x) {
            Some(p) => 0 <= p < list.len() && list[p] == x && forall|j: int|
                0 <= j < p ==> list[j] != x,
            None => forall|j: int| 0 <= j < list.len() ==> list[j] != x,
        },
    decreases list.len(),
{
    if list.len() > 0 {
        lemma_first_index(list.drop_last(), x);
        match first_index(list.drop_last(), x) {
            Some(p) => {
                assert(list.drop_last()[p] == list[p]);
                assert forall|j: int| 0 <= j < p implies list[j] != x by {
                    assert(list.drop_last()[j] == list[j]);
                }
            },
            None => {
                assert forall|j: int| 0 <= j < list.len() - 1 implies list[j] != x by {
                    assert(list.drop_last()[j] == list[j]);
                }
            },
        }
    }
}

/// Finds the first position of `current` in `list`.
fn position_of<T: PartialEq + Copy>(list: &[T], current: T) -> (r: Option<usize>)
    requires
        obeys_concrete_eq::<T>(),
    ensures
        match r {
            Some(p) => first_index(list@, current) == Some(p as int),
            None => first_index(list@, current) is None,
        },
{
    proof {
        reveal(obeys_concrete_eq);
        lemma_first_index(list@, current);
    }
    let mut i: usize = 0;
    while i < list.len()
        invariant
            obeys_concrete_eq::<T>(),
            i <= list@.len(),
            forall|j: int| 0 <= j < i ==> list@[j] != current,
        decreases list@.len() - i,
    {
        if list[i] == current {
            proof {
                lemma_first_index(list@, current);
                reveal(obeys_concrete_eq);
            }
            return Some(i);
        }
        proof {
            reveal(obeys_concrete_eq);
        }
        i = i + 1;
    }
    None
}

/// Returns the next element in `list` after `current`, wrapping at the end.
/// If `current` is not in the list, returns the first element.
pub fn next_in<T: PartialEq + Copy>(list: &[T], current: T) -> (r: T)
    requires
        obeys_concrete_eq::<T>(),
    ensures
        r == next_of(list@, current),
{
    if list.len() == 0 {
        return current;
    }
    match position_of(list, current) {
        Some(p) => {
            proof {
                lemma_first_index(list@, current);
            }
            let ghost len = list@.len() as int;
            if p + 1 == list.len() {
                assert((p + 1) % len == 0) by (nonlinear_arith)
                    requires
                        p + 1 == len,
                        len > 0,
                ;
                list[0]
            } else {
                assert((p + 1) % len == p + 1) by (nonlinear_arith)
                    requires
                        p + 1 < len,
                        0 <= p,
                ;
                list[p + 1]
            }
        },
        None => list[0],
    }
}

/// Returns the previous element in `list`, wrapping at the start.
/// If `current` is not in the list, returns the first element.
pub fn prev_in<T: PartialEq + Copy>(list: &[T], current: T) -> (r: T)
    requires
        obeys_concrete_eq::<T>(),
    ensures
        r == prev_of(list@, current),
{
    if list.len() == 0 {
        return current;
    }
    match position_of(list, current) {
        Some(p) => {
            proof {
                lemma_first_index(list@, current);
            }
            if p == 0 {
                list[list.len() - 1]
            } else {
                list[p - 1]
            }
        },
        None => list[0],
    }
}

/// The position of any element of a list without duplicates is where it
/// first occurs.
proof fn lemma_first_index_distinct<T>(list: Seq<T>, q: int)
    requires
        list.no_duplicates(),
        0 <= q < list.len(),
    ensures
        first_index(list, list[q]) == Some(q),
{
    lemma_first_index(list, list[q]);
}

/// Rotation visits the list: for a non-empty list, `next_in` and `prev_in`
/// always give one of its elements.
pub proof fn law_rotation_stays_in_list<T>(list: Seq<T>, x: T)
    requires
        list.len() > 0,
    ensures
        list.contains(next_of(list, x)),
        list.contains(prev_of(list, x)),
{
    lemma_first_index(list, x);
    let len = list.len() as int;
    match first_index(list, x) {
        Some(p) => {
            assert(0 <= (p + 1) % len < len) by (nonlinear_arith)
                requires
                    len > 0,
            ;
            assert(list[(p + 1) % len] == next_of(list, x));
            let q = if p == 0 {
                len - 1
            } else {
                p - 1
            };
            assert(list[q] == prev_of(list, x));
        },
        None => {
            assert(list[0] == next_of(list, x));
        },
    }
}

/// Stepping back undoes stepping forward, and the other way round, for any
/// element of a list without duplicates.
pub proof fn law_prev_undoes_next<T>(list: Seq<T>, x: T)
    requires
        list.no_duplicates(),
        list.contains(x),
    ensures
        prev_of(list, next_of(list, x)) == x,
        next_of(list, prev_of(list, x)) == x,
{
    let p = choose|p: int| 0 <= p < list.len() && list[p] == x;
    lemma_first_index_distinct(list, p);
    let len = list.len() as int;
    let n = if p + 1 == len {
        0
    } else {
        p + 1
    };
    assert((p + 1) % len == n) by (nonlinear_arith)
        requires
            0 <= p < len,
            n == (if p + 1 == len {
                0
            } else {
                p + 1
            }),
    ;
    lemma_first_index_distinct(list, n);
    let b = if p == 0 {
        len - 1
    } else {
        p - 1
    };
    lemma_first_index_distinct(list, b);
    let m = if b + 1 == len {
        0
    } else {
        b + 1
    };
    assert((b + 1) % len == m) by (nonlinear_arith)
        requires
            0 <= b < len,
            m == (if b + 1 == len {
                0
            } else {
                b + 1
            }),
    ;
}

/// `parse_limit` reads back what `limit_label` writes for timed and snippet
/// limits; a word-count label has no `w` and reads back as that many seconds.
pub proof fn law_limit_label_round_trip(l: Limit)
    ensures
        !(l is Count) ==> limit_of(limit_text(l)) == Ok::<Limit, Seq<char>>(l),
        l matches Limit::Count(n) ==> limit_of(limit_text(l)) == Ok::<Limit, Seq<char>>(
            Limit::Time(n),
        ),
{
    reveal_strlit("snippet");
    reveal_strlit("SNIPPET");
    match l {
        Limit::Time(n) => {
            let d = decimal(n as nat);
            let t = d.push('s');
            lemma_decimal_digits(n as nat);
            assert(t[0] == d[0]);
            lemma_trim_fixed(t);
            assert(!is_snippet_word(t)) by {
                if t.len() == 7 {
                    assert(t[0] != "snippet"@[0] && t[0] != "SNIPPET"@[0]);
                }
            }
            assert(t.drop_last() =~= d);
            lemma_digits_of_decimal(n as nat, Seq::empty());
            assert(d + Seq::<char>::empty() =~= d);
        },
        Limit::Count(n) => {
            let d = decimal(n as nat);
            lemma_decimal_digits(n as nat);
            lemma_trim_fixed(d);
            assert(!is_snippet_word(d)) by {
                if d.len() == 7 {
                    assert(d[0] != "snippet"@[0] && d[0] != "SNIPPET"@[0]);
                }
            }
            lemma_digits_of_decimal(n as nat, Seq::empty());
            assert(d + Seq::<char>::empty() =~= d);
        },
        Limit::Snippet => {
            let t = "snippet"@;
            assert(t.len() == 7);
            lemma_trim_fixed(t);
        },
    }
}

} // verus!
