//! Test session state, scoring, and lifecycle.
//!
//! `App` holds both configuration (`source`, `limit`, `lang`, `difficulty`)
//! and per-run state (`typed`, counters, timestamps). The invariant
//! `colors.len() == target.len()` is kept by all constructors and relied on
//! by the renderer; `inv` states it with the counters' meaning.
//!
//! Times are whole nanoseconds since the first keystroke.

use vstd::prelude::*;
use std::time::Instant;
use crate::cli::{
    all_difficulties, all_langs, all_sources, difficulties, langs, law_rotation_stays_in_list,
    limits_for, limits_of, next_in, next_of, prev_in, prev_of, sources, Difficulty, Lang, Limit,
    Source,
};
use crate::clock::{instant_now, nanos_since};
use crate::code::{
    has_text, highlight_with, is_highlight_of, is_long_sample, long_sample, pick_sample, picked,
    pool_has_text, valid_picks,
};
use crate::corpus::Corpus;
use crate::rng::choose_one;
use crate::text::{chars_of, is_space, is_whitespace, join_with, views};
use crate::ui::Color;
use vstd::laws_eq::obeys_concrete_eq;

verus! {

/// Nanoseconds in a second.
pub const NANOS_PER_SEC: u64 = 1_000_000_000;

/// Characters of code to generate per second of a timed test.
pub const CODE_CHARS_PER_SECOND: u64 = 25;

/// The least number of code characters generated for a timed or counted test.
pub const CODE_BUFFER_FLOOR: usize = 2000;

/// Number of words drawn for a text test that is not limited by word count.
pub const TEXT_POOL_FOR_TIME: usize = 500;

/// Number of positions where `typed` agrees with `target`.
pub open spec fn matches_count(typed: Seq<char>, target: Seq<char>) -> nat
    decreases typed.len(),
{
    if typed.len() == 0 {
        0
    } else {
        matches_count(typed.drop_last(), target) + if typed.last() == target[typed.len() - 1] {
            1nat
        } else {
            0nat
        }
    }
}

/// No more matches than typed characters.
pub proof fn lemma_matches_bound(typed: Seq<char>, target: Seq<char>)
    ensures
        matches_count(typed, target) <= typed.len(),
    decreases typed.len(),
{
    if typed.len() > 0 {
        lemma_matches_bound(typed.drop_last(), target);
    }
}

/// Number of words of `s[..n]` that a whitespace character has ended: the
/// positions `i < n` holding whitespace right after a non-whitespace character.
pub open spec fn words_ended(s: Seq<char>, n: int) -> nat
    decreases n,
{
    if n <= 1 {
        0
    } else {
        words_ended(s, n - 1) + if is_space(s[n - 1]) && !is_space(s[n - 2]) {
            1nat
        } else {
            0nat
        }
    }
}

/// Whether a test with this limit is over: the time is up, enough words are
/// done (or the whole target is typed), or the whole snippet is typed.
pub open spec fn is_done(
    limit: Limit,
    live: u64,
    words: nat,
    target_words: nat,
    typed_len: nat,
    target_len: nat,
) -> bool {
    match limit {
        Limit::Time(n) => live >= n * NANOS_PER_SEC,
        Limit::Count(_) => words >= target_words || typed_len >= target_len,
        Limit::Snippet => typed_len >= target_len,
    }
}

/// The elapsed time kept at the end of a test: the live time, cut to the
/// limit for a timed test.
pub open spec fn frozen(limit: Limit, live: u64) -> u64 {
    match limit {
        Limit::Time(n) => if live < n * NANOS_PER_SEC {
            live
        } else {
            (n * NANOS_PER_SEC) as u64
        },
        _ => live,
    }
}

/// Nanoseconds left after `elapsed` in a test with this limit: the limit
/// less the elapsed time, or zero; zero for untimed tests.
pub open spec fn time_left_of(limit: Limit, elapsed: u64) -> u64 {
    match limit {
        Limit::Time(n) => if n * NANOS_PER_SEC > elapsed {
            (n * NANOS_PER_SEC - elapsed) as u64
        } else {
            0
        },
        _ => 0,
    }
}

/// Number of words a text test draws.
pub open spec fn text_word_count(limit: Limit) -> nat {
    match limit {
        Limit::Count(n) => n as nat,
        _ => TEXT_POOL_FOR_TIME as nat,
    }
}

/// The text of a text test: the words separated by single spaces, with one
/// more space at the end for a word-count test.
pub open spec fn text_of(words: Seq<Seq<char>>, trailing: bool) -> Seq<char> {
    join_with(words, seq![' ']) + if trailing {
        seq![' ']
    } else {
        Seq::<char>::empty()
    }
}

/// Number of code characters a test with this limit asks for.
pub open spec fn code_target_len(limit: Limit) -> int {
    match limit {
        Limit::Time(secs) => {
            let t = secs * CODE_CHARS_PER_SECOND;
            let capped = if t > usize::MAX {
                usize::MAX as int
            } else {
                t
            };
            if capped < CODE_BUFFER_FLOOR {
                CODE_BUFFER_FLOOR as int
            } else {
                capped
            }
        },
        _ => CODE_BUFFER_FLOOR as int,
    }
}

/// `target` is text drawn from `words` for `limit`.
pub open spec fn is_text_target(words: Seq<Seq<char>>, limit: Limit, target: Seq<char>) -> bool {
    exists|picks: Seq<int>|
        {
            &&& picks.len() == text_word_count(limit)
            &&& valid_picks(picks, words.len() as int)
            &&& target == text_of(picked(words, picks), limit is Count)
        }
}

/// `target` is code drawn from `samples` for `limit`: one sample for a
/// snippet test (none from an empty pool), otherwise samples up to the
/// length the limit asks for (none where every sample is empty).
pub open spec fn is_code_target(samples: Seq<Seq<char>>, limit: Limit, target: Seq<char>) -> bool {
    match limit {
        Limit::Snippet => if samples.len() == 0 {
            target.len() == 0
        } else {
            samples.contains(target)
        },
        _ => if has_text(samples) {
            is_long_sample(samples, code_target_len(limit), target)
        } else {
            target.len() == 0
        },
    }
}

/// Colors that are all gray.
pub open spec fn all_gray(colors: Seq<Color>) -> bool {
    forall|i: int| 0 <= i < colors.len() ==> colors[i] == Color::Gray
}

/// One typing test.
pub struct App {
    pub target: Vec<char>,
    pub typed: Vec<char>,
    pub colors: Vec<Color>,
    pub correct: usize,
    pub incorrect: usize,
    pub keystrokes: usize,
    pub start: Option<Instant>,
    pub finished: bool,
    pub end_elapsed: Option<u64>,
    pub source: Source,
    pub limit: Limit,
    pub lang: Lang,
    pub difficulty: Difficulty,
    pub target_words: usize,
    pub corpus: Corpus,
}

impl App {
    /// The state is consistent: one color per target character, no more typed
    /// than the target, `correct` counting the typed characters that match,
    /// `incorrect` the others, every typed character a keystroke, a frozen
    /// time exactly when finished, and a start time once anything is typed or
    /// the test is finished.
    pub open spec fn inv(&self) -> bool {
        &&& self.colors@.len() == self.target@.len()
        &&& self.typed@.len() <= self.target@.len()
        &&& self.correct == matches_count(self.typed@, self.target@)
        &&& self.correct + self.incorrect == self.typed@.len()
        &&& self.typed@.len() <= self.keystrokes
        &&& self.finished == (self.end_elapsed is Some)
        &&& self.finished ==> self.start is Some
        &&& self.start is None ==> self.typed@.len() == 0
        &&& self.corpus.wf()
    }

    /// Number of words typed past.
    pub open spec fn words_done_spec(&self) -> nat {
        let n = if self.typed@.len() < self.target@.len() {
            self.typed@.len()
        } else {
            self.target@.len()
        };
        words_ended(self.target@, n as int)
    }

    /// The target and its colors are what the configuration draws from the
    /// corpus.
    pub open spec fn built(&self) -> bool {
        match self.source {
            Source::Text => {
                &&& self.target_words == text_word_count(self.limit)
                &&& is_text_target(
                    views(self.corpus.words_of(self.difficulty)),
                    self.limit,
                    self.target@,
                )
                &&& all_gray(self.colors@)
            },
            Source::Code => {
                &&& self.target_words == 0
                &&& is_code_target(views(self.corpus.samples_of(self.lang)), self.limit, self.target@)
                &&& is_highlight_of(self.colors@, self.target@, self.lang)
            },
        }
    }

    /// No typing has happened.
    pub open spec fn fresh(&self) -> bool {
        &&& self.typed@.len() == 0
        &&& self.correct == 0
        &&& self.incorrect == 0
        &&& self.keystrokes == 0
        &&& self.start is None
        &&& !self.finished
        &&& self.end_elapsed is None
    }

    /// `new` is a fresh test with configuration `(s, l, lg, d)` over the corpus
    /// of `old`.
    pub open spec fn restarted_as(
        old: App,
        new: App,
        s: Source,
        l: Limit,
        lg: Lang,
        d: Difficulty,
    ) -> bool {
        &&& new.source == s
        &&& new.limit == l
        &&& new.lang == lg
        &&& new.difficulty == d
        &&& new.corpus == old.corpus
        &&& new.inv()
        &&& new.fresh()
        &&& new.built()
    }

    /// The target, its colors, the configuration and the corpus agree.
    pub open spec fn same_setup(a: App, b: App) -> bool {
        &&& a.target@ == b.target@
        &&& a.colors@ == b.colors@
        &&& a.source == b.source
        &&& a.limit == b.limit
        &&& a.lang == b.lang
        &&& a.difficulty == b.difficulty
        &&& a.target_words == b.target_words
        &&& a.corpus == b.corpus
    }

    /// Nothing observable differs.
    pub open spec fn unchanged(a: App, b: App) -> bool {
        &&& App::same_setup(a, b)
        &&& a.typed@ == b.typed@
        &&& a.correct == b.correct
        &&& a.incorrect == b.incorrect
        &&& a.keystrokes == b.keystrokes
        &&& a.start == b.start
        &&& a.finished == b.finished
        &&& a.end_elapsed == b.end_elapsed
    }

    /// Whether the test is over at live time `live`, and if so the frozen
    /// time, as `app` records it.
    pub open spec fn settled(app: App, live: u64) -> bool {
        &&& app.finished == is_done(
            app.limit,
            live,
            app.words_done_spec(),
            app.target_words as nat,
            app.typed@.len(),
            app.target@.len(),
        )
        &&& app.end_elapsed == if app.finished {
            Some(frozen(app.limit, live))
        } else {
            None
        }
    }

    /// What typing `c` does: nothing once finished; otherwise the clock
    /// starts, and where the target is not fully typed `c` is recorded against
    /// the next target character and the test ends if its limit is reached at
    /// some live time.
    pub open spec fn push_post(old: App, new: App, c: char) -> bool {
        &&& App::same_setup(old, new)
        &&& new.inv()
        &&& old.finished ==> App::unchanged(old, new)
        &&& !old.finished ==> {
            &&& new.start is Some
            &&& old.start is Some ==> new.start == old.start
            &&& if old.typed@.len() >= old.target@.len() {
                &&& new.typed@ == old.typed@
                &&& new.correct == old.correct
                &&& new.incorrect == old.incorrect
                &&& new.keystrokes == old.keystrokes
                &&& new.finished == old.finished
                &&& new.end_elapsed == old.end_elapsed
            } else {
                let hit = old.target@[old.typed@.len() as int] == c;
                &&& new.typed@ == old.typed@.push(c)
                &&& new.correct == old.correct + if hit {
                    1int
                } else {
                    0int
                }
                &&& new.incorrect == old.incorrect + if hit {
                    0int
                } else {
                    1int
                }
                &&& new.keystrokes == old.keystrokes + 1
                &&& exists|live: u64| #[trigger] App::settled(new, live)
            }
        }
    }

    /// What a backspace does: the last typed character goes, and with it its
    /// count as correct or incorrect.
    pub open spec fn backspace_post(old: App, new: App) -> bool {
        &&& App::same_setup(old, new)
        &&& new.inv()
        &&& new.keystrokes == old.keystrokes
        &&& new.start == old.start
        &&& new.finished == old.finished
        &&& new.end_elapsed == old.end_elapsed
        &&& if old.typed@.len() == 0 {
            &&& new.typed@ == old.typed@
            &&& new.correct == old.correct
            &&& new.incorrect == old.incorrect
        } else {
            let hit = old.typed@.last() == old.target@[old.typed@.len() - 1];
            &&& new.typed@ == old.typed@.drop_last()
            &&& new.correct == old.correct - if hit {
                1int
            } else {
                0int
            }
            &&& new.incorrect == old.incorrect - if hit {
                0int
            } else {
                1int
            }
        }
    }

    /// What a clock tick at live time `live` does: a running timed test whose
    /// time is up ends, with its time cut to the limit.
    pub open spec fn tick_post(old: App, new: App, live: u64) -> bool {
        &&& App::same_setup(old, new)
        &&& new.inv()
        &&& new.typed@ == old.typed@
        &&& new.correct == old.correct
        &&& new.incorrect == old.incorrect
        &&& new.keystrokes == old.keystrokes
        &&& new.start == old.start
        &&& if !old.finished && old.start is Some && (old.limit matches Limit::Time(n) && live >= n
            * NANOS_PER_SEC) {
            &&& new.finished
            &&& new.end_elapsed == Some(frozen(old.limit, live))
        } else {
            &&& new.finished == old.finished
            &&& new.end_elapsed == old.end_elapsed
        }
    }

    /// Starts a test with the given configuration, drawing its text from
    /// `corpus`.
    pub fn new(source: Source, limit: Limit, lang: Lang, difficulty: Difficulty, corpus: Corpus) -> (r:
        App)
        requires
            corpus.wf(),
        ensures
            r.source == source,
            r.limit == limit,
            r.lang == lang,
            r.difficulty == difficulty,
            r.corpus == corpus,
            r.inv(),
            r.fresh(),
            r.built(),
    {
        let (target, colors, target_words) = match source {
            Source::Code => build_code(&corpus, lang, limit),
            Source::Text => build_text(corpus.word_pool(difficulty), limit),
        };
        let r = App {
            target,
            typed: Vec::new(),
            colors,
            correct: 0,
            incorrect: 0,
            keystrokes: 0,
            start: None,
            finished: false,
            end_elapsed: None,
            source,
            limit,
            lang,
            difficulty,
            target_words,
            corpus,
        };
        r
    }

    /// Recreate the session with the current config, discarding typing
    /// progress.
    pub fn restart(&mut self)
        requires
            old(self).inv(),
        ensures
            App::restarted_as(
                *old(self),
                *final(self),
                old(self).source,
                old(self).limit,
                old(self).lang,
                old(self).difficulty,
            ),
    {
        let (target, colors, target_words) = match self.source {
            Source::Code => build_code(&self.corpus, self.lang, self.limit),
            Source::Text => build_text(self.corpus.word_pool(self.difficulty), self.limit),
        };
        self.target = target;
        self.colors = colors;
        self.target_words = target_words;
        self.typed = Vec::new();
        self.correct = 0;
        self.incorrect = 0;
        self.keystrokes = 0;
        self.start = None;
        self.finished = false;
        self.end_elapsed = None;
    }

    /// Moves to the next limit offered for the source and restarts.
    pub fn cycle_limit_next(&mut self)
        requires
            old(self).inv(),
        ensures
            App::restarted_as(
                *old(self),
                *final(self),
                old(self).source,
                next_of(limits_of(old(self).source), old(self).limit),
                old(self).lang,
                old(self).difficulty,
            ),
            limits_of(final(self).source).contains(final(self).limit),
    {
        proof {
            reveal(obeys_concrete_eq);
            law_rotation_stays_in_list(limits_of(self.source), self.limit);
        }
        let limits = limits_for(self.source);
        self.limit = next_in(limits.as_slice(), self.limit);
        self.restart();
    }

    /// Moves to the previous limit offered for the source and restarts.
    pub fn cycle_limit_prev(&mut self)
        requires
            old(self).inv(),
        ensures
            App::restarted_as(
                *old(self),
                *final(self),
                old(self).source,
                prev_of(limits_of(old(self).source), old(self).limit),
                old(self).lang,
                old(self).difficulty,
            ),
            limits_of(final(self).source).contains(final(self).limit),
    {
        proof {
            reveal(obeys_concrete_eq);
            law_rotation_stays_in_list(limits_of(self.source), self.limit);
        }
        let limits = limits_for(self.source);
        self.limit = prev_in(limits.as_slice(), self.limit);
        self.restart();
    }

    /// Moves to the next source, keeps the limit where the new source offers
    /// it (its first limit otherwise), and restarts.
    pub fn cycle_source_next(&mut self)
        requires
            old(self).inv(),
        ensures
            App::restarted_as(
                *old(self),
                *final(self),
                next_of(all_sources(), old(self).source),
                clamped(old(self).limit, next_of(all_sources(), old(self).source)),
                old(self).lang,
                old(self).difficulty,
            ),
            limits_of(final(self).source).contains(final(self).limit),
    {
        proof {
            reveal(obeys_concrete_eq);
        }
        let list = sources();
        let new_source = next_in(list.as_slice(), self.source);
        self.source = new_source;
        self.limit = clamp_limit(self.limit, new_source);
        self.restart();
    }

    /// Moves to the previous source, keeps the limit where the new source
    /// offers it (its first limit otherwise), and restarts.
    pub fn cycle_source_prev(&mut self)
        requires
            old(self).inv(),
        ensures
            App::restarted_as(
                *old(self),
                *final(self),
                prev_of(all_sources(), old(self).source),
                clamped(old(self).limit, prev_of(all_sources(), old(self).source)),
                old(self).lang,
                old(self).difficulty,
            ),
            limits_of(final(self).source).contains(final(self).limit),
    {
        proof {
            reveal(obeys_concrete_eq);
        }
        let list = sources();
        let new_source = prev_in(list.as_slice(), self.source);
        self.source = new_source;
        self.limit = clamp_limit(self.limit, new_source);
        self.restart();
    }

    /// Lang for Code, difficulty for Text: moves to the next one and restarts.
    pub fn cycle_secondary_next(&mut self)
        requires
            old(self).inv(),
        ensures
            App::restarted_as(
                *old(self),
                *final(self),
                old(self).source,
                old(self).limit,
                if old(self).source == Source::Code {
                    next_of(all_langs(), old(self).lang)
                } else {
                    old(self).lang
                },
                if old(self).source == Source::Text {
                    next_of(all_difficulties(), old(self).difficulty)
                } else {
                    old(self).difficulty
                },
            ),
    {
        proof {
            reveal(obeys_concrete_eq);
        }
        match self.source {
            Source::Code => {
                let list = langs();
                self.lang = next_in(list.as_slice(), self.lang);
            },
            Source::Text => {
                let list = difficulties();
                self.difficulty = next_in(list.as_slice(), self.difficulty);
            },
        }
        self.restart();
    }

    /// Lang for Code, difficulty for Text: moves to the previous one and
    /// restarts.
    pub fn cycle_secondary_prev(&mut self)
        requires
            old(self).inv(),
        ensures
            App::restarted_as(
                *old(self),
                *final(self),
                old(self).source,
                old(self).limit,
                if old(self).source == Source::Code {
                    prev_of(all_langs(), old(self).lang)
                } else {
                    old(self).lang
                },
                if old(self).source == Source::Text {
                    prev_of(all_difficulties(), old(self).difficulty)
                } else {
                    old(self).difficulty
                },
            ),
    {
        proof {
            reveal(obeys_concrete_eq);
        }
        match self.source {
            Source::Code => {
                let list = langs();
                self.lang = prev_in(list.as_slice(), self.lang);
            },
            Source::Text => {
                let list = difficulties();
                self.difficulty = prev_in(list.as_slice(), self.difficulty);
            },
        }
        self.restart();
    }

    /// Nanoseconds since the first keystroke, read from the clock; zero before
    /// the first keystroke.
    fn live_nanos(&self) -> (r: u64)
        ensures
            self.start is None ==> r == 0,
    {
        match &self.start {
            Some(s) => nanos_since(s),
            None => 0,
        }
    }

    /// Nanoseconds the test has run: the frozen time once finished, the live
    /// time while running, zero before the first keystroke.
    pub fn elapsed_nanos(&self) -> (r: u64)
        ensures
            self.end_elapsed matches Some(e) ==> r == e,
            self.end_elapsed is None && self.start is None ==> r == 0,
    {
        match self.end_elapsed {
            Some(e) => e,
            None => self.live_nanos(),
        }
    }

    /// Nanoseconds left in a timed test, given the elapsed time: the limit less
    /// the elapsed time, or zero; zero for other limits.
    pub fn time_left_after(&self, elapsed: u64) -> (r: u64)
        ensures
            r == time_left_of(self.limit, elapsed),
    {
        match self.limit {
            Limit::Time(n) => {
                let total: u64 = n as u64 * NANOS_PER_SEC;
                total.saturating_sub(elapsed)
            },
            _ => 0,
        }
    }

    /// Nanoseconds left in a timed test; zero for other limits.
    pub fn time_left_nanos(&self) -> (r: u64)
        ensures
            exists|e: u64|
                {
                    &&& r == #[trigger] time_left_of(self.limit, e)
                    &&& self.end_elapsed matches Some(x) ==> e == x
                    &&& self.end_elapsed is None && self.start is None ==> e == 0
                },
    {
        let e = self.elapsed_nanos();
        let r = self.time_left_after(e);
        proof {
            assert(r == time_left_of(self.limit, e));
        }
        r
    }

    /// Count of whitespace-terminated words in `target` that the user has
    /// fully typed past.
    pub fn words_done(&self) -> (r: usize)
        ensures
            r == self.words_done_spec(),
    {
        let n = if self.typed.len() < self.target.len() {
            self.typed.len()
        } else {
            self.target.len()
        };
        if n == 0 {
            return 0;
        }
        let mut count: usize = 0;
        let mut in_word = false;
        let mut i: usize = 0;
        while i < n
            invariant
                n <= self.target@.len(),
                i <= n,
                count == words_ended(self.target@, i as int),
                count <= i,
                in_word == (i > 0 && !is_space(self.target@[i - 1])),
            decreases n - i,
        {
            let ch = self.target[i];
            if is_whitespace(ch) {
                if in_word {
                    count = count + 1;
                    in_word = false;
                }
            } else {
                in_word = true;
            }
            i = i + 1;
        }
        count
    }

    /// Ends the test at live time `live`, keeping that time (cut to the limit
    /// for a timed test).
    fn finish_at(&mut self, live: u64)
        requires
            old(self).inv(),
            !old(self).finished,
            old(self).start is Some,
        ensures
            App::same_setup(*old(self), *final(self)),
            final(self).inv(),
            final(self).typed@ == old(self).typed@,
            final(self).correct == old(self).correct,
            final(self).incorrect == old(self).incorrect,
            final(self).keystrokes == old(self).keystrokes,
            final(self).start == old(self).start,
            final(self).finished,
            final(self).end_elapsed == Some(frozen(old(self).limit, live)),
    {
        let frozen_at = match self.limit {
            Limit::Time(n) => {
                let cap: u64 = n as u64 * NANOS_PER_SEC;
                if live < cap {
                    live
                } else {
                    cap
                }
            },
            _ => live,
        };
        self.end_elapsed = Some(frozen_at);
        self.finished = true;
    }

    /// Ends a running test whose limit is reached at live time `live`.
    pub fn check_done_at(&mut self, live: u64)
        requires
            old(self).inv(),
            !old(self).finished,
            old(self).start is Some,
        ensures
            App::same_setup(*old(self), *final(self)),
            final(self).inv(),
            final(self).typed@ == old(self).typed@,
            final(self).correct == old(self).correct,
            final(self).incorrect == old(self).incorrect,
            final(self).keystrokes == old(self).keystrokes,
            final(self).start == old(self).start,
            App::settled(*final(self), live),
    {
        let done = match self.limit {
            Limit::Time(n) => live >= n as u64 * NANOS_PER_SEC,
            Limit::Count(_) => self.words_done() >= self.target_words || self.typed.len()
                >= self.target.len(),
            Limit::Snippet => self.typed.len() >= self.target.len(),
        };
        if done {
            self.finish_at(live);
        }
    }

    /// Records the typed character `c` against the target.
    pub fn push(&mut self, c: char)
        requires
            old(self).inv(),
            old(self).keystrokes < usize::MAX,
        ensures
            App::push_post(*old(self), *final(self), c),
    {
        if self.finished {
            return ;
        }
        if self.start.is_none() {
            self.start = Some(instant_now());
        }
        let idx = self.typed.len();
        if idx >= self.target.len() {
            return ;
        }
        proof {
            assert(self.typed@.push(c).drop_last() =~= self.typed@);
        }
        if self.target[idx] == c {
            self.correct = self.correct + 1;
        } else {
            self.incorrect = self.incorrect + 1;
        }
        self.keystrokes = self.keystrokes + 1;
        self.typed.push(c);
        let live = self.live_nanos();
        self.check_done_at(live);
        proof {
            assert(App::settled(*self, live));
        }
    }

    /// Removes the last typed character.
    pub fn backspace(&mut self)
        requires
            old(self).inv(),
        ensures
            App::backspace_post(*old(self), *final(self)),
    {
        if let Some(c) = self.typed.pop() {
            let idx = self.typed.len();
            proof {
                assert(old(self).typed@.drop_last() =~= self.typed@);
            }
            proof {
                lemma_matches_bound(self.typed@, self.target@);
                assert(c == old(self).typed@.last());
                assert(matches_count(old(self).typed@, self.target@) == matches_count(
                    self.typed@,
                    self.target@,
                ) + if c == self.target@[idx as int] {
                    1nat
                } else {
                    0nat
                });
            }
            if self.target[idx] == c {
                self.correct = self.correct.saturating_sub(1);
            } else {
                self.incorrect = self.incorrect.saturating_sub(1);
            }
        }
    }

    /// Ends a running timed test whose time is up at live time `live`.
    pub fn tick_at(&mut self, live: u64)
        requires
            old(self).inv(),
        ensures
            App::tick_post(*old(self), *final(self), live),
    {
        if self.finished {
            return ;
        }
        if let Some(n) = self.limit.time_secs() {
            if self.start.is_some() && live >= n as u64 * NANOS_PER_SEC {
                self.finish_at(live);
            }
        }
    }

    /// Ends a running timed test whose time is up.
    pub fn tick(&mut self)
        requires
            old(self).inv(),
        ensures
            exists|live: u64| #[trigger] App::tick_post(*old(self), *final(self), live),
    {
        if self.finished {
            proof {
                assert(App::tick_post(*old(self), *self, 0));
            }
            return ;
        }
        let live = self.live_nanos();
        self.tick_at(live);
        proof {
            assert(App::tick_post(*old(self), *self, live));
        }
    }

    /// Whether the test types code.
    pub fn is_code(&self) -> (r: bool)
        ensures
            r == (self.source == Source::Code),
    {
        match self.source {
            Source::Code => true,
            Source::Text => false,
        }
    }
}

/// The limit kept when switching to `source`: the current one where the
/// source offers it, the source's first limit otherwise.
pub open spec fn clamped(current: Limit, source: Source) -> Limit {
    if limits_of(source).contains(current) {
        current
    } else {
        limits_of(source)[0]
    }
}

/// The limit kept when switching to `source`.
pub fn clamp_limit(current: Limit, source: Source) -> (r: Limit)
    ensures
        r == clamped(current, source),
        limits_of(source).contains(r),
{
    let allowed = limits_for(source);
    let mut i: usize = 0;
    while i < allowed.len()
        invariant
            allowed@ == limits_of(source),
            i <= allowed@.len(),
            forall|j: int| 0 <= j < i ==> allowed@[j] != current,
        decreases allowed@.len() - i,
    {
        if allowed[i] == current {
            return current;
        }
        i = i + 1;
    }
    proof {
        assert(limits_of(source).contains(allowed@[0]));
    }
    allowed[0]
}

/// Draws the code for a test from the corpus's samples for `lang` and
/// highlights it.
fn build_code(corpus: &Corpus, lang: Lang, limit: Limit) -> (r: (Vec<char>, Vec<Color>, usize))
    ensures
        r.2 == 0,
        is_code_target(views(corpus.samples_of(lang)), limit, r.0@),
        r.1@.len() == r.0@.len(),
        is_highlight_of(r.1@, r.0@, lang),
{
    let pool = corpus.code_pool(lang);
    let s = match limit {
        Limit::Snippet => pick_sample(pool.as_slice()),
        _ if !pool_has_text(pool.as_slice()) => String::new(),
        Limit::Time(secs) => {
            let wanted: u64 = secs as u64 * CODE_CHARS_PER_SECOND;
            let capped: usize = if wanted > usize::MAX as u64 {
                usize::MAX
            } else {
                wanted as usize
            };
            let n = if capped < CODE_BUFFER_FLOOR {
                CODE_BUFFER_FLOOR
            } else {
                capped
            };
            long_sample(pool.as_slice(), n)
        },
        Limit::Count(_) => long_sample(pool.as_slice(), CODE_BUFFER_FLOOR),
    };
    let colors = highlight_with(s.as_str(), lang, corpus.syntaxes(), corpus.themes());
    let target = chars_of(s.as_str());
    (target, colors, 0)
}

/// Draws the words for a test from `pool`.
fn build_text(pool: &Vec<String>, limit: Limit) -> (r: (Vec<char>, Vec<Color>, usize))
    requires
        pool@.len() > 0,
    ensures
        r.2 == text_word_count(limit),
        is_text_target(views(pool@), limit, r.0@),
        r.1@.len() == r.0@.len(),
        all_gray(r.1@),
{
    let count: usize = match limit {
        Limit::Count(n) => n as usize,
        _ => TEXT_POOL_FOR_TIME,
    };
    let ghost vp = views(pool@);
    let mut out: Vec<char> = Vec::new();
    let ghost mut picks: Seq<int> = Seq::empty();
    let mut k: usize = 0;
    proof {
        assert(picked(vp, picks) =~= Seq::<Seq<char>>::empty());
    }
    while k < count
        invariant
            vp == views(pool@),
            pool@.len() > 0,
            k <= count,
            picks.len() == k,
            valid_picks(picks, pool@.len() as int),
            out@ == join_with(picked(vp, picks), seq![' ']),
        decreases count - k,
    {
        if let Some(w) = choose_one(pool.as_slice()) {
            let ghost i = choose|i: int| 0 <= i < pool@.len() && pool@[i] == *w;
            let ghost old_out = out@;
            let ghost old_picks = picks;
            if k > 0 {
                out.push(' ');
            }
            let mut cs = chars_of(w.as_str());
            out.append(&mut cs);
            proof {
                picks = old_picks.push(i);
                assert(vp[i] == w@);
                assert(picked(vp, picks).drop_last() =~= picked(vp, old_picks));
                assert(picked(vp, picks).last() == w@);
                if k == 0 {
                    assert(picked(vp, picks) =~= seq![w@]);
                    assert(out@ =~= w@);
                } else {
                    assert(out@ =~= old_out + seq![' '] + w@);
                }
                assert(valid_picks(picks, pool@.len() as int));
            }
        }
        k = k + 1;
    }
    let trailing = match limit {
        Limit::Count(_) => true,
        _ => false,
    };
    let ghost joined = out@;
    if trailing {
        out.push(' ');
    }
    proof {
        assert(out@ =~= text_of(picked(vp, picks), trailing));
    }
    let mut colors: Vec<Color> = Vec::new();
    while colors.len() < out.len()
        invariant
            colors@.len() <= out@.len(),
            all_gray(colors@),
        decreases out@.len() - colors@.len(),
    {
        colors.push(Color::Gray);
    }
    (out, colors, count)
}

/// A backspace undoes a keystroke: after typing a character into a running
/// test with target left to type, and then a backspace, the typed text and the
/// correct and incorrect counts are what they were (the keystroke count keeps
/// the keystroke).
pub proof fn law_backspace_undoes_push(a0: App, a1: App, a2: App, c: char)
    requires
        a0.inv(),
        !a0.finished,
        a0.typed@.len() < a0.target@.len(),
        App::push_post(a0, a1, c),
        App::backspace_post(a1, a2),
    ensures
        a2.typed@ == a0.typed@,
        a2.correct == a0.correct,
        a2.incorrect == a0.incorrect,
        a2.keystrokes == a0.keystrokes + 1,
        App::same_setup(a0, a2),
{
    assert(a1.typed@.drop_last() =~= a0.typed@);
}

/// Once a test is finished, typing and clock ticks change nothing.
pub proof fn law_finished_is_final(a0: App, a1: App, a2: App, c: char, live: u64)
    requires
        a0.inv(),
        a0.finished,
        App::push_post(a0, a1, c),
        App::tick_post(a0, a2, live),
    ensures
        App::unchanged(a0, a1),
        App::unchanged(a0, a2),
{
}

/// Every state that the operations produce keeps the counters exact: the
/// correct and incorrect counts add up to the typed length, and there is one
/// color per target character.
pub proof fn law_counts_add_up(a: App)
    requires
        a.inv(),
    ensures
        a.correct + a.incorrect == a.typed@.len(),
        a.correct <= a.typed@.len(),
        a.colors@.len() == a.target@.len(),
        a.typed@.len() <= a.target@.len(),
{
    lemma_matches_bound(a.typed@, a.target@);
}

/// The time recorded for a finished timed test never exceeds its limit, and
/// is the live time when the test ended earlier.
pub proof fn law_frozen_within_limit(limit: Limit, live: u64)
    ensures
        limit matches Limit::Time(n) ==> frozen(limit, live) <= n * NANOS_PER_SEC,
        limit matches Limit::Time(n) ==> (live <= n * NANOS_PER_SEC ==> frozen(limit, live)
            == live),
        !(limit is Time) ==> frozen(limit, live) == live,
{
}

/// Ending words never goes backwards along a text.
proof fn lemma_words_ended_monotone(s: Seq<char>, m: int, n: int)
    requires
        m <= n,
    ensures
        words_ended(s, m) <= words_ended(s, n),
    decreases n - m,
{
    if m < n {
        lemma_words_ended_monotone(s, m, n - 1);
    }
}

/// The words done depend on the target and on how far the typing has got,
/// not on what was typed: two states with the same target and as many typed
/// characters count the same words, whether those characters were right or
/// wrong; and typing further never lowers the count.
pub proof fn law_words_done_by_position(a: App, b: App)
    requires
        a.target@ == b.target@,
    ensures
        a.typed@.len() == b.typed@.len() ==> a.words_done_spec() == b.words_done_spec(),
        a.typed@.len() <= b.typed@.len() ==> a.words_done_spec() <= b.words_done_spec(),
{
    let t = a.target@.len();
    let na = if a.typed@.len() < t { a.typed@.len() } else { t };
    let nb = if b.typed@.len() < t { b.typed@.len() } else { t };
    if na <= nb {
        lemma_words_ended_monotone(a.target@, na as int, nb as int);
    }
}

/// Nothing typed, no word done; and typing one more character of the target
/// finishes a word exactly when that target character is whitespace right
/// after a non-whitespace one.
pub proof fn law_words_done_step(a: App, b: App)
    requires
        a.target@ == b.target@,
    ensures
        a.typed@.len() == 0 ==> a.words_done_spec() == 0,
        b.typed@.len() == a.typed@.len() + 1 && b.typed@.len() <= a.target@.len() ==> {
            let k = a.typed@.len() as int;
            let t = a.target@;
            b.words_done_spec() == a.words_done_spec() + if k > 0 && is_space(t[k]) && !is_space(
                t[k - 1],
            ) {
                1int
            } else {
                0int
            }
        },
{
}

} // verus!
