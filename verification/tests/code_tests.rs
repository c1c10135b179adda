use typr::cli::Lang;
use typr::code::{
    fit_colors, highlight, highlight_with, lang_extension, line_colors, pool_has_text, lines_with_endings, long_sample, pick_sample, split_chars,
    split_samples,
};
use typr::corpus::Corpus;
use typr::text::chars_of;
use typr::ui::Color;

#[test]
fn splitting_samples() {
    assert_eq!(split_samples("a\n---\nb "), vec!["a".to_string(), "b".to_string()]);
    assert_eq!(split_samples("  x  "), vec!["x".to_string()]);
    assert_eq!(split_samples(""), vec!["".to_string()]);
    assert_eq!(
        split_samples("fn a() {}\n---\n\n---\n  let x = 1;\n"),
        vec!["fn a() {}".to_string(), "".to_string(), "let x = 1;".to_string()]
    );
    assert_eq!(split_samples("a---b\n--\n-"), vec!["a---b\n--\n-".to_string()]);
}

#[test]
fn splitting_on_separator() {
    let parts = split_chars(&chars_of("a,,b,"), &[',']);
    assert_eq!(parts, vec![vec!['a'], vec![], vec!['b'], vec![]]);
    let parts = split_chars(&chars_of("xyz"), &['x', 'y', 'z', 'w']);
    assert_eq!(parts, vec![vec!['x', 'y', 'z']]);
}

#[test]
fn corpus_keeps_samples() {
    let c = Corpus::new(None, None, None, None, "a\n---\n\n---\nb", "", "  ", "one");
    assert_eq!(c.code_pool(Lang::Rust), &vec!["a".to_string(), "".to_string(), "b".to_string()]);
    assert_eq!(c.code_pool(Lang::Python), &vec!["".to_string()]);
    assert_eq!(c.code_pool(Lang::Js), &vec!["".to_string()]);
    assert_eq!(c.code_pool(Lang::Go), &vec!["one".to_string()]);
    assert_eq!(c.word_pool(typr::cli::Difficulty::E5k).len(), 20);
    let c = Corpus::new(None, None, None, None, "a\n---\n", "\n---\n", "x", "y");
    assert_eq!(c.code_pool(Lang::Rust), &vec!["a".to_string(), "".to_string()]);
    assert_eq!(c.code_pool(Lang::Python), &vec!["".to_string(), "".to_string()]);
}

#[test]
fn pool_text() {
    assert!(!pool_has_text(&[]));
    assert!(!pool_has_text(&["".to_string(), "".to_string()]));
    assert!(pool_has_text(&["".to_string(), "a".to_string()]));
}

#[test]
fn picking_samples() {
    assert_eq!(pick_sample(&[]), "");
    let pool = vec!["x".to_string(), "y".to_string()];
    for _ in 0..20 {
        let s = pick_sample(&pool);
        assert!(pool.contains(&s));
    }
}

#[test]
fn long_samples_reach_target() {
    let pool = vec!["abc".to_string()];
    assert_eq!(long_sample(&pool, 5), "abc\n\nabc");
    assert_eq!(long_sample(&pool, 3), "abc");
    assert_eq!(long_sample(&pool, 4), "abc\n\nabc");
    assert_eq!(long_sample(&pool, 0), "");
    assert_eq!(long_sample(&[], 100), "");
    let pool = vec!["ab".to_string(), "cde".to_string()];
    let s = long_sample(&pool, 50);
    assert!(s.chars().count() >= 50);
    for piece in s.split("\n\n") {
        assert!(pool.iter().any(|p| p == piece));
    }
}

#[test]
fn long_samples_with_empty_samples() {
    let pool = vec!["".to_string(), "abc".to_string()];
    for _ in 0..20 {
        assert_eq!(long_sample(&pool, 3), "abc");
        let s = long_sample(&pool, 5);
        assert!(s == "abc\n\n" || s == "abc\n\nabc");
        let s = long_sample(&pool, 20);
        assert!(s.starts_with("abc"));
        assert!(s.chars().count() >= 20);
        for piece in s.split("\n\n") {
            assert!(pool.iter().any(|p| p == piece));
        }
    }
    assert_eq!(long_sample(&pool, 0), "");
}

#[test]
fn lines_keep_endings() {
    let lines = lines_with_endings(&chars_of("foo\nbar\nbaz"));
    assert_eq!(lines, vec![chars_of("foo\n"), chars_of("bar\n"), chars_of("baz")]);
    assert_eq!(lines_with_endings(&chars_of("a\n")), vec![chars_of("a\n")]);
    assert!(lines_with_endings(&[]).is_empty());
    assert_eq!(lines_with_endings(&chars_of("\n\n")), vec![vec!['\n'], vec!['\n']]);
}

#[test]
fn fitting_colors() {
    let red = Color::Rgb(200, 0, 0);
    assert_eq!(fit_colors(vec![red], 3), vec![red, Color::Gray, Color::Gray]);
    assert_eq!(fit_colors(vec![red, red, red], 2), vec![red, red]);
    assert_eq!(fit_colors(Vec::new(), 0), Vec::<Color>::new());
}

#[test]
fn highlight_gives_one_color_per_char() {
    let text = "fn main() {\n    let é = \"ü\";\n}\n";
    let colors = highlight(text, Lang::Rust);
    assert_eq!(colors.len(), text.chars().count());
    assert!(colors.iter().any(|c| matches!(c, Color::Rgb(_, _, _))));
    assert!(highlight("", Lang::Go).is_empty());
    let py = "def f(x):\n    return x\n";
    assert_eq!(highlight(py, Lang::Python).len(), py.chars().count());
    assert_eq!(highlight("let a = 1", Lang::Js).len(), 9);
}

#[test]
fn line_colors_follow_pieces() {
    let a = Color::Rgb(1, 2, 3);
    let b = Color::Rgb(4, 5, 6);
    let pieces = Some(vec![(1, 2, 3, "aé".to_string()), (4, 5, 6, "c".to_string())]);
    let mut colors = vec![Color::Red];
    line_colors(&pieces, 3, &mut colors);
    assert_eq!(colors, vec![Color::Red, a, a, b]);
    let mut colors = Vec::new();
    line_colors(&pieces, 2, &mut colors);
    assert_eq!(colors, vec![a, a]);
    let mut colors = Vec::new();
    line_colors(&pieces, 5, &mut colors);
    assert_eq!(colors, vec![a, a, b, Color::Gray, Color::Gray]);
    let mut colors = vec![b];
    line_colors(&None, 2, &mut colors);
    assert_eq!(colors, vec![b, Color::Gray, Color::Gray]);
    let mut colors = Vec::new();
    line_colors(&Some(Vec::new()), 1, &mut colors);
    assert_eq!(colors, vec![Color::Gray]);
}

#[test]
fn highlight_colors_code() {
    let text = "fn main() {}\nlet x = 1;\n";
    let colors = highlight(text, Lang::Rust);
    assert_eq!(colors.len(), text.chars().count());
    assert!(colors.iter().all(|c| matches!(c, Color::Rgb(_, _, _))));
    let again = highlight(text, Lang::Rust);
    assert_eq!(colors, again);
    let keyword = highlight("fn", Lang::Rust);
    assert_eq!(keyword[0], keyword[1]);
    let c = Corpus::new(None, None, None, None, "", "", "", "");
    assert_eq!(highlight_with(text, Lang::Rust, c.syntaxes(), c.themes()), colors);
    let py = "x = 1\n";
    assert_eq!(highlight_with(py, Lang::Python, c.syntaxes(), c.themes()), highlight(py, Lang::Python));
}

#[test]
fn extensions() {
    assert_eq!(lang_extension(Lang::Rust), "rs");
    assert_eq!(lang_extension(Lang::Python), "py");
    assert_eq!(lang_extension(Lang::Js), "js");
    assert_eq!(lang_extension(Lang::Go), "go");
}
