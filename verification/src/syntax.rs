//! syntect's bundled syntaxes and themes, and its line highlighter.
//!
//! Each value here remembers, as ghost state, which bundled syntax or theme it
//! stands for and which lines it has highlighted, so that the pieces syntect
//! gives for a line can be named by those values. Only the calls into syntect
//! make these values and set that state.

use vstd::prelude::*;
use syntect::easy::HighlightLines;
use syntect::highlighting::{Theme, ThemeSet};
use syntect::parsing::{SyntaxReference, SyntaxSet};

verus! {

#[verifier::external_type_specification]
#[verifier::external_body]
pub struct ExSyntaxSet(SyntaxSet);

#[verifier::external_type_specification]
#[verifier::external_body]
pub struct ExSyntaxReference(SyntaxReference);

#[verifier::external_type_specification]
#[verifier::external_body]
pub struct ExTheme(Theme);

#[verifier::external_type_specification]
#[verifier::external_body]
pub struct ExThemeSet(ThemeSet);

#[verifier::external_type_specification]
#[verifier::external_body]
pub struct ExHighlightLines<'a>(HighlightLines<'a>);

/// Whether the bundled syntaxes hold one for the file extension `ext`
/// (what `SyntaxSet::find_syntax_by_extension` finds in the bundled set).
pub uninterp spec fn bundled_syntax(ext: Seq<char>) -> bool;

/// Whether the bundled themes hold one named `name`.
pub uninterp spec fn bundled_theme(name: Seq<char>) -> bool;

/// The pieces that `HighlightLines::highlight_line` gives for `line` with the
/// bundled syntaxes, each as the red, green and blue of its foreground and its
/// text, or `None` where it reports an error. `syntax` is the extension the
/// bundled syntax was found by (`None` for plain text), `theme` the bundled
/// theme's name (`None` for the first bundled theme), and `earlier` the lines
/// that the same highlighter took before.
pub uninterp spec fn syntect_pieces(
    syntax: Option<Seq<char>>,
    theme: Option<Seq<char>>,
    earlier: Seq<Seq<char>>,
    line: Seq<char>,
) -> Option<Seq<(u8, u8, u8, Seq<char>)>>;

/// The pieces of a highlighted line, their texts taken by view.
pub open spec fn pieces_view(v: Seq<(u8, u8, u8, String)>) -> Seq<(u8, u8, u8, Seq<char>)> {
    v.map_values(|p: (u8, u8, u8, String)| (p.0, p.1, p.2, p.3@))
}

/// What a highlighted line came back as, taken by view.
pub open spec fn result_view(r: Option<Vec<(u8, u8, u8, String)>>) -> Option<
    Seq<(u8, u8, u8, Seq<char>)>,
> {
    match r {
        Some(v) => Some(pieces_view(v@)),
        None => None,
    }
}

/// The syntaxes bundled with syntect.
pub struct Syntaxes {
    set: SyntaxSet,
}

/// A syntax of the bundled set, with the extension it was found by (`None`
/// for plain text).
pub struct SyntaxPick<'a> {
    syntax: &'a SyntaxReference,
    key: Ghost<Option<Seq<char>>>,
}

impl<'a> View for SyntaxPick<'a> {
    type V = Option<Seq<char>>;

    closed spec fn view(&self) -> Option<Seq<char>> {
        self.key@
    }
}

/// The themes bundled with syntect.
pub struct Themes {
    set: ThemeSet,
}

/// A theme of the bundled set, with the name it was found by (`None` for the
/// first theme).
pub struct ThemePick<'a> {
    theme: &'a Theme,
    key: Ghost<Option<Seq<char>>>,
}

impl<'a> View for ThemePick<'a> {
    type V = Option<Seq<char>>;

    closed spec fn view(&self) -> Option<Seq<char>> {
        self.key@
    }
}

/// A syntect line highlighter, with the syntax and theme it was made with and
/// the lines it has taken so far.
pub struct LineHighlighter<'a> {
    lines: HighlightLines<'a>,
    syntax: Ghost<Option<Seq<char>>>,
    theme: Ghost<Option<Seq<char>>>,
    fed: Ghost<Seq<Seq<char>>>,
}

impl<'a> View for LineHighlighter<'a> {
    type V = (Option<Seq<char>>, Option<Seq<char>>, Seq<Seq<char>>);

    closed spec fn view(&self) -> (Option<Seq<char>>, Option<Seq<char>>, Seq<Seq<char>>) {
        (self.syntax@, self.theme@, self.fed@)
    }
}

impl Syntaxes {
    /// `SyntaxSet::load_defaults_newlines`: the syntaxes bundled with syntect.
    #[verifier::external_body]
    pub(crate) fn load() -> (r: Syntaxes) {
        Syntaxes { set: SyntaxSet::load_defaults_newlines() }
    }

    /// `SyntaxSet::find_syntax_by_extension` on the bundled set: found exactly
    /// where the bundled set has a syntax for `ext`, and then labelled with
    /// `ext`.
    #[verifier::external_body]
    pub(crate) fn by_extension(&self, ext: &str) -> (r: Option<SyntaxPick<'_>>)
        ensures
            r is Some <==> bundled_syntax(ext@),
            r matches Some(p) ==> p@ == Some(ext@),
    {
        match self.set.find_syntax_by_extension(ext) {
            Some(syntax) => Some(SyntaxPick { syntax, key: Ghost(Some(ext@)) }),
            None => None,
        }
    }

    /// `SyntaxSet::find_syntax_plain_text`, labelled `None`. It panics on a
    /// set without the plain text syntax; the bundled set, the only one a
    /// [`Syntaxes`] holds, has it.
    #[verifier::external_body]
    pub(crate) fn plain_text(&self) -> (r: SyntaxPick<'_>)
        ensures
            r@ == None::<Seq<char>>,
    {
        SyntaxPick { syntax: self.set.find_syntax_plain_text(), key: Ghost(None) }
    }
}

impl Themes {
    /// `ThemeSet::load_defaults`: the themes bundled with syntect.
    #[verifier::external_body]
    pub(crate) fn load() -> (r: Themes) {
        Themes { set: ThemeSet::load_defaults() }
    }

    /// `BTreeMap::get` on the themes of the bundled set: found exactly where
    /// the set has a theme named `name`, and then labelled with `name`.
    #[verifier::external_body]
    pub(crate) fn named(&self, name: &str) -> (r: Option<ThemePick<'_>>)
        ensures
            r is Some <==> bundled_theme(name@),
            r matches Some(p) ==> p@ == Some(name@),
    {
        match self.set.themes.get(name) {
            Some(theme) => Some(ThemePick { theme, key: Ghost(Some(name@)) }),
            None => None,
        }
    }

    /// `BTreeMap::first_key_value` on the themes of the bundled set: the
    /// theme with the first name, labelled `None`; none exactly where the set
    /// has no theme.
    #[verifier::external_body]
    pub(crate) fn first(&self) -> (r: Option<ThemePick<'_>>)
        ensures
            r is Some <==> exists|n: Seq<char>| bundled_theme(n),
            r matches Some(p) ==> p@ == None::<Seq<char>>,
    {
        match self.set.themes.first_key_value() {
            Some((_, theme)) => Some(ThemePick { theme, key: Ghost(None) }),
            None => None,
        }
    }
}

impl<'a> LineHighlighter<'a> {
    /// `HighlightLines::new` for the syntax and theme of two picks, labelled
    /// with their labels and no line taken yet.
    #[verifier::external_body]
    pub(crate) fn new(syntax: &SyntaxPick, theme: &ThemePick<'a>) -> (r: LineHighlighter<'a>)
        ensures
            r@ == (syntax@, theme@, Seq::<Seq<char>>::empty()),
    {
        LineHighlighter {
            lines: HighlightLines::new(syntax.syntax, theme.theme),
            syntax: Ghost(syntax@),
            theme: Ghost(theme@),
            fed: Ghost(Seq::empty()),
        }
    }

    /// `HighlightLines::highlight_line`: the styled pieces of `line`, each as
    /// the red, green and blue of its foreground and its text, or `None` where
    /// syntect reports an error. They are what syntect gives for this syntax
    /// and theme after the lines taken before, and `line` is taken too.
    #[verifier::external_body]
    pub(crate) fn highlight_line(&mut self, line: &str, syntaxes: &Syntaxes) -> (r: Option<
        Vec<(u8, u8, u8, String)>,
    >)
        ensures
            result_view(r) == syntect_pieces(old(self)@.0, old(self)@.1, old(self)@.2, line@),
            final(self)@ == (old(self)@.0, old(self)@.1, old(self)@.2.push(line@)),
    {
        let r = match self.lines.highlight_line(line, &syntaxes.set) {
            Ok(ranges) => Some(ranges.into_iter().map(
                |(style, s)| (style.foreground.r, style.foreground.g, style.foreground.b, s.to_string()),
            ).collect()),
            Err(_) => None,
        };
        self.fed = Ghost(self.fed@.push(line@));
        r
    }
}

} // verus!
