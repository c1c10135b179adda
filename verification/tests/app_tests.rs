use typr::app::{clamp_limit, App};
use typr::cli::{Difficulty, Lang, Limit, Source};
use typr::corpus::Corpus;
use typr::event_loop::{handle_key, key_decision, Key, KeyDecision};
use typr::text::chars_of;
use typr::ui::Color;

fn corpus(word: &str, code: &str) -> Corpus {
    let w = Some(vec![word.to_string()]);
    Corpus::new(w.clone(), w.clone(), w.clone(), w, code, code, code, code)
}

fn text_app(limit: Limit) -> App {
    App::new(Source::Text, limit, Lang::Rust, Difficulty::E200, corpus("ab", "x"))
}

fn type_str(app: &mut App, s: &str) {
    for c in s.chars() {
        app.push(c);
    }
}

#[test]
fn new_text_test_by_count() {
    let app = text_app(Limit::Count(3));
    assert_eq!(app.target, chars_of("ab ab ab "));
    assert_eq!(app.target_words, 3);
    assert_eq!(app.colors, vec![Color::Gray; 9]);
    assert!(app.typed.is_empty());
    assert_eq!((app.correct, app.incorrect, app.keystrokes), (0, 0, 0));
    assert!(app.start.is_none() && !app.finished && app.end_elapsed.is_none());
}

#[test]
fn new_text_test_by_time() {
    let app = text_app(Limit::Time(30));
    assert_eq!(app.target_words, 500);
    assert_eq!(app.target.len(), 500 * 3 - 1);
    assert_eq!(*app.target.last().unwrap(), 'b');
}

#[test]
fn new_text_draws_from_pool() {
    let w = Some(vec!["x".to_string(), "yy".to_string()]);
    let c = Corpus::new(w.clone(), w.clone(), w.clone(), w, "", "", "", "");
    let app = App::new(Source::Text, Limit::Count(10), Lang::Go, Difficulty::E1k, c);
    let s: String = app.target.iter().collect();
    assert!(s.ends_with(' '));
    let words: Vec<&str> = s.trim_end().split(' ').collect();
    assert_eq!(words.len(), 10);
    assert!(words.iter().all(|w| *w == "x" || *w == "yy"));
}

#[test]
fn new_code_snippet() {
    let app = App::new(Source::Code, Limit::Snippet, Lang::Rust, Difficulty::E200, corpus("a", "fn f() {}\n"));
    assert_eq!(app.target, chars_of("fn f() {}"));
    assert_eq!(app.colors.len(), app.target.len());
    assert_eq!(app.target_words, 0);
    assert!(app.is_code());
}

#[test]
fn new_code_timed_fills_buffer() {
    let app = App::new(Source::Code, Limit::Time(15), Lang::Go, Difficulty::E200, corpus("a", "x := 1"));
    assert!(app.target.len() >= 2000);
    assert!(app.target.len() < 2000 + 8);
    assert_eq!(app.colors.len(), app.target.len());
    let app = App::new(Source::Code, Limit::Time(120), Lang::Go, Difficulty::E200, corpus("a", "x := 1"));
    assert!(app.target.len() >= 3000);
}

#[test]
fn empty_code_pool_gives_empty_target() {
    let app = App::new(Source::Code, Limit::Snippet, Lang::Js, Difficulty::E200, corpus("a", ""));
    assert!(app.target.is_empty() && app.colors.is_empty());
}

#[test]
fn blank_code_pool_gives_empty_target() {
    for limit in [Limit::Snippet, Limit::Time(15), Limit::Count(10)] {
        let app = App::new(Source::Code, limit, Lang::Rust, Difficulty::E200, corpus("a", "\n---\n  \n"));
        assert!(app.target.is_empty() && app.colors.is_empty());
    }
    let app = App::new(Source::Code, Limit::Time(15), Lang::Rust, Difficulty::E200, corpus("a", "\n---\nab"));
    assert!(app.target.starts_with(&['a', 'b']));
    assert!(app.target.len() >= 2000);
}

#[test]
fn typing_counts() {
    let mut app = text_app(Limit::Count(3));
    type_str(&mut app, "ax a");
    assert_eq!(app.typed, chars_of("ax a"));
    assert_eq!((app.correct, app.incorrect, app.keystrokes), (3, 1, 4));
    assert!(app.start.is_some());
    assert_eq!(app.words_done(), 1);
    assert!(!app.finished);
}

#[test]
fn backspace_undoes_typing() {
    let mut app = text_app(Limit::Count(3));
    type_str(&mut app, "a");
    app.push('q');
    assert_eq!((app.correct, app.incorrect), (1, 1));
    app.backspace();
    assert_eq!(app.typed, chars_of("a"));
    assert_eq!((app.correct, app.incorrect, app.keystrokes), (1, 0, 2));
    app.backspace();
    app.backspace();
    assert!(app.typed.is_empty());
    assert_eq!((app.correct, app.incorrect), (0, 0));
}

#[test]
fn count_test_finishes_after_words() {
    let mut app = text_app(Limit::Count(3));
    type_str(&mut app, "ab ab ab");
    assert!(!app.finished);
    app.push(' ');
    assert!(app.finished);
    assert!(app.end_elapsed.is_some());
    assert_eq!(app.words_done(), 3);
    app.push('z');
    assert_eq!(app.typed.len(), 9);
    assert_eq!(app.keystrokes, 9);
}

#[test]
fn snippet_finishes_at_end() {
    let mut app = App::new(Source::Code, Limit::Snippet, Lang::Rust, Difficulty::E200, corpus("a", "ok"));
    app.push('o');
    assert!(!app.finished);
    app.push('x');
    assert!(app.finished);
    assert_eq!((app.correct, app.incorrect), (1, 1));
}

#[test]
fn zero_second_test_ends_on_first_key() {
    let mut app = text_app(Limit::Time(0));
    assert_eq!(app.elapsed_nanos(), 0);
    assert_eq!(app.time_left_nanos(), 0);
    app.push('a');
    assert!(app.finished);
    assert_eq!(app.end_elapsed, Some(0));
    assert_eq!(app.elapsed_nanos(), 0);
}

#[test]
fn tick_ends_timed_test() {
    let mut app = text_app(Limit::Time(0));
    app.tick();
    assert!(!app.finished);
    let mut app = text_app(Limit::Time(5));
    app.push('a');
    app.tick_at(4_999_999_999);
    assert!(!app.finished);
    app.tick_at(7_000_000_000);
    assert!(app.finished);
    assert_eq!(app.end_elapsed, Some(5_000_000_000));
    app.tick_at(9_000_000_000);
    assert_eq!(app.end_elapsed, Some(5_000_000_000));
}

#[test]
fn check_done_freezes_time() {
    let mut app = text_app(Limit::Time(2));
    app.push('a');
    app.check_done_at(1_000);
    assert!(!app.finished);
    app.check_done_at(3_000_000_000);
    assert!(app.finished);
    assert_eq!(app.end_elapsed, Some(2_000_000_000));
}

#[test]
fn time_left() {
    let app = text_app(Limit::Time(30));
    assert_eq!(app.time_left_nanos(), 30_000_000_000);
    assert_eq!(app.time_left_after(10_000_000_000), 20_000_000_000);
    assert_eq!(app.time_left_after(40_000_000_000), 0);
    assert_eq!(text_app(Limit::Count(10)).time_left_nanos(), 0);
}

#[test]
fn words_done_counts_word_ends() {
    let mut app = text_app(Limit::Count(3));
    assert_eq!(app.words_done(), 0);
    type_str(&mut app, "ab");
    assert_eq!(app.words_done(), 0);
    type_str(&mut app, " ");
    assert_eq!(app.words_done(), 1);
    type_str(&mut app, "ab ");
    assert_eq!(app.words_done(), 2);
}

#[test]
fn restart_keeps_config() {
    let mut app = text_app(Limit::Count(3));
    type_str(&mut app, "ab");
    app.restart();
    assert!(app.typed.is_empty() && app.start.is_none());
    assert_eq!(app.limit, Limit::Count(3));
    assert_eq!(app.target, chars_of("ab ab ab "));
}

#[test]
fn cycling_config() {
    let mut app = text_app(Limit::Time(30));
    app.cycle_limit_next();
    assert_eq!(app.limit, Limit::Time(60));
    app.cycle_limit_prev();
    app.cycle_limit_prev();
    assert_eq!(app.limit, Limit::Time(15));
    app.cycle_limit_prev();
    assert_eq!(app.limit, Limit::Count(100));
    app.cycle_source_next();
    assert_eq!(app.source, Source::Code);
    assert_eq!(app.limit, Limit::Time(15));
    app.cycle_secondary_next();
    assert_eq!(app.lang, Lang::Python);
    app.cycle_secondary_prev();
    app.cycle_secondary_prev();
    assert_eq!(app.lang, Lang::Go);
    app.cycle_source_prev();
    assert_eq!(app.source, Source::Text);
    app.cycle_secondary_next();
    assert_eq!(app.difficulty, Difficulty::E1k);
    assert_eq!(app.lang, Lang::Go);
}

#[test]
fn clamping_limits() {
    assert_eq!(clamp_limit(Limit::Count(25), Source::Code), Limit::Time(15));
    assert_eq!(clamp_limit(Limit::Time(60), Source::Code), Limit::Time(60));
    assert_eq!(clamp_limit(Limit::Snippet, Source::Text), Limit::Time(15));
    assert_eq!(clamp_limit(Limit::Count(7), Source::Text), Limit::Time(15));
}

#[test]
fn keys_before_start() {
    let mut app = text_app(Limit::Time(30));
    assert!(!handle_key(&mut app, Key::Tab));
    assert_eq!(app.limit, Limit::Time(60));
    assert!(!handle_key(&mut app, Key::BackTab));
    assert_eq!(app.limit, Limit::Time(30));
    assert!(!handle_key(&mut app, Key::Down));
    assert_eq!(app.source, Source::Code);
    assert!(!handle_key(&mut app, Key::Right));
    assert_eq!(app.lang, Lang::Python);
    assert!(!handle_key(&mut app, Key::Left));
    assert!(!handle_key(&mut app, Key::Up));
    assert_eq!(app.source, Source::Text);
    assert!(!handle_key(&mut app, Key::Enter));
    assert!(app.typed.is_empty());
    assert!(!handle_key(&mut app, Key::Other));
    assert!(handle_key(&mut app, Key::Esc));
}

#[test]
fn keys_while_typing() {
    let mut app = text_app(Limit::Count(3));
    assert!(!handle_key(&mut app, Key::Char('a')));
    assert!(!handle_key(&mut app, Key::Char('c')));
    assert_eq!(app.typed, chars_of("ac"));
    assert!(!handle_key(&mut app, Key::Backspace));
    assert_eq!(app.typed, chars_of("a"));
    assert!(!handle_key(&mut app, Key::Down));
    assert_eq!(app.source, Source::Text);
    assert!(!handle_key(&mut app, Key::Tab));
    assert!(app.typed.is_empty() && app.start.is_none());
    handle_key(&mut app, Key::Char('a'));
    assert!(!handle_key(&mut app, Key::Esc));
    assert!(app.start.is_none());
}

#[test]
fn config_keys_ignored_while_typing() {
    let mut app = App::new(Source::Code, Limit::Time(30), Lang::Go, Difficulty::E1k, corpus("ab", "x y"));
    handle_key(&mut app, Key::Char('x'));
    let start = app.start;
    for key in [Key::BackTab, Key::Up, Key::Down, Key::Left, Key::Right] {
        assert!(!handle_key(&mut app, key));
        assert_eq!(app.source, Source::Code);
        assert_eq!(app.limit, Limit::Time(30));
        assert_eq!(app.lang, Lang::Go);
        assert_eq!(app.difficulty, Difficulty::E1k);
        assert_eq!(app.typed, chars_of("x"));
        assert_eq!(app.keystrokes, 1);
        assert_eq!(app.start, start);
        assert!(!app.finished);
    }
}

#[test]
fn enter_and_tab_in_code() {
    let mut app = App::new(Source::Code, Limit::Snippet, Lang::Rust, Difficulty::E200, corpus("a", "a\n  \tb"));
    assert_eq!(app.target, chars_of("a\n  \tb"));
    handle_key(&mut app, Key::Char('a'));
    handle_key(&mut app, Key::Enter);
    assert_eq!(app.typed, chars_of("a\n"));
    handle_key(&mut app, Key::Tab);
    assert_eq!(app.typed, chars_of("a\n  \t"));
    assert_eq!(app.correct, 5);
    handle_key(&mut app, Key::Tab);
    assert_eq!(app.typed.len(), 5);
    handle_key(&mut app, Key::Char('b'));
    assert!(app.finished);
    handle_key(&mut app, Key::Backspace);
    assert_eq!(app.typed.len(), 6);
    handle_key(&mut app, Key::Char('z'));
    assert_eq!(app.typed.len(), 6);
    assert!(!handle_key(&mut app, Key::Enter));
    assert!(app.typed.is_empty() && !app.finished);
}

#[test]
fn finished_then_cycle_and_esc() {
    let mut app = App::new(Source::Code, Limit::Snippet, Lang::Rust, Difficulty::E200, corpus("a", "k"));
    handle_key(&mut app, Key::Char('k'));
    assert!(app.finished);
    assert!(!handle_key(&mut app, Key::Tab));
    assert_eq!(app.limit, Limit::Time(15));
    let mut app = App::new(Source::Code, Limit::Snippet, Lang::Rust, Difficulty::E200, corpus("a", "k"));
    handle_key(&mut app, Key::Char('k'));
    assert!(handle_key(&mut app, Key::Esc));
}

#[test]
fn key_events() {
    assert_eq!(key_decision(true, false, false, false, Key::Char('a')), KeyDecision::Skip);
    assert_eq!(key_decision(false, true, false, false, Key::Char('c')), KeyDecision::Quit);
    assert_eq!(key_decision(false, true, false, false, Key::Char('x')), KeyDecision::Skip);
    assert_eq!(key_decision(false, false, true, false, Key::Char('x')), KeyDecision::Skip);
    assert_eq!(key_decision(false, false, false, true, Key::Char('x')), KeyDecision::Skip);
    assert_eq!(key_decision(false, true, false, false, Key::Tab), KeyDecision::Dispatch);
    assert_eq!(key_decision(false, false, false, false, Key::Char('x')), KeyDecision::Dispatch);
}

#[test]
fn code_word_count_ends_on_first_key() {
    // Code tests draw no words, so a word-count limit is met at once.
    let mut app = App::new(Source::Code, Limit::Count(25), Lang::Rust, Difficulty::E200, corpus("a", "let x = 1;"));
    assert_eq!(app.target_words, 0);
    assert!(app.target.len() >= 2000);
    app.push('l');
    assert!(app.finished);
    assert_eq!(app.typed.len(), 1);
}

#[test]
fn typing_past_target_is_ignored() {
    let mut app = App::new(Source::Text, Limit::Time(30), Lang::Rust, Difficulty::E200, corpus("a", ""));
    let n = app.target.len();
    for _ in 0..n + 3 {
        app.push('a');
    }
    assert_eq!(app.typed.len(), n);
    assert_eq!(app.keystrokes, n);
    assert!(!app.finished);
}
