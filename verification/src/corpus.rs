//! The texts a test draws from: one word list per difficulty and one pool of
//! code samples per language.

use vstd::prelude::*;
use crate::cli::{Difficulty, Lang};
use crate::code::{samples_of, split_samples};
use crate::syntax::{Syntaxes, Themes};
use crate::text::views;
use crate::words;

verus! {

/// Word lists, code samples, and the bundled syntaxes and themes that
/// highlight the samples (loaded once).
pub struct Corpus {
    e200: Vec<String>,
    e1k: Vec<String>,
    e5k: Vec<String>,
    e10k: Vec<String>,
    rust: Vec<String>,
    python: Vec<String>,
    js: Vec<String>,
    go: Vec<String>,
    syntaxes: Syntaxes,
    themes: Themes,
}

impl Corpus {
    /// The word list for a difficulty.
    pub closed spec fn words_of(&self, d: Difficulty) -> Seq<String> {
        match d {
            Difficulty::E200 => self.e200@,
            Difficulty::E1k => self.e1k@,
            Difficulty::E5k => self.e5k@,
            Difficulty::E10k => self.e10k@,
        }
    }

    /// The stored sample list for a language.
    pub closed spec fn pool_of(&self, l: Lang) -> Vec<String> {
        match l {
            Lang::Rust => self.rust,
            Lang::Python => self.python,
            Lang::Js => self.js,
            Lang::Go => self.go,
        }
    }

    /// The code samples for a language.
    pub open spec fn samples_of(&self, l: Lang) -> Seq<String> {
        self.pool_of(l)@
    }

    /// Every word list has a word.
    pub open spec fn wf(&self) -> bool {
        forall|d: Difficulty| #[trigger] self.words_of(d).len() > 0
    }

    /// Builds a corpus from the parsed word lists (`None` where a list did not
    /// parse) and the raw sample text of each language. Word lists that are
    /// missing or empty fall back to the built-in words; each language's
    /// samples are the pieces of its sample text.
    pub fn new(
        e200: Option<Vec<String>>,
        e1k: Option<Vec<String>>,
        e5k: Option<Vec<String>>,
        e10k: Option<Vec<String>>,
        rust: &str,
        python: &str,
        js: &str,
        go: &str,
    ) -> (r: Corpus)
        ensures
            r.wf(),
            views(r.words_of(Difficulty::E200)) == words::words_from(e200),
            views(r.words_of(Difficulty::E1k)) == words::words_from(e1k),
            views(r.words_of(Difficulty::E5k)) == words::words_from(e5k),
            views(r.words_of(Difficulty::E10k)) == words::words_from(e10k),
            views(r.samples_of(Lang::Rust)) == samples_of(rust@),
            views(r.samples_of(Lang::Python)) == samples_of(python@),
            views(r.samples_of(Lang::Js)) == samples_of(js@),
            views(r.samples_of(Lang::Go)) == samples_of(go@),
    {
        Corpus {
            e200: words::pool(e200),
            e1k: words::pool(e1k),
            e5k: words::pool(e5k),
            e10k: words::pool(e10k),
            rust: split_samples(rust),
            python: split_samples(python),
            js: split_samples(js),
            go: split_samples(go),
            syntaxes: Syntaxes::load(),
            themes: Themes::load(),
        }
    }

    /// The word list for a difficulty.
    pub fn word_pool(&self, d: Difficulty) -> (r: &Vec<String>)
        ensures
            r@ == self.words_of(d),
    {
        match d {
            Difficulty::E200 => &self.e200,
            Difficulty::E1k => &self.e1k,
            Difficulty::E5k => &self.e5k,
            Difficulty::E10k => &self.e10k,
        }
    }

    /// The bundled syntaxes the corpus loaded.
    pub closed spec fn syntax_set(&self) -> Syntaxes {
        self.syntaxes
    }

    /// The bundled themes the corpus loaded.
    pub closed spec fn theme_set(&self) -> Themes {
        self.themes
    }

    /// The bundled syntaxes, the same on every call.
    pub fn syntaxes(&self) -> (r: &Syntaxes)
        ensures
            *r == self.syntax_set(),
    {
        &self.syntaxes
    }

    /// The bundled themes, the same on every call.
    pub fn themes(&self) -> (r: &Themes)
        ensures
            *r == self.theme_set(),
    {
        &self.themes
    }

    /// The code samples for a language: the list the corpus stores, the same
    /// on every call.
    pub fn code_pool(&self, l: Lang) -> (r: &Vec<String>)
        ensures
            *r == self.pool_of(l),
            r@ == self.samples_of(l),
    {
        match l {
            Lang::Rust => &self.rust,
            Lang::Python => &self.python,
            Lang::Js => &self.js,
            Lang::Go => &self.go,
        }
    }
}

} // verus!
