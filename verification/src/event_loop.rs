//! Input dispatch: which key events reach the test, and what each key does to
//! it.

use vstd::prelude::*;
use crate::app::App;
use crate::cli::{all_difficulties, all_langs, all_sources, limits_of, next_of, prev_of, Source};
use crate::app::clamped;

verus! {

/// A key as the test sees it.
#[derive(Copy, Clone, Debug, PartialEq, Eq, Structural)]
pub enum Key {
    Esc,
    Tab,
    BackTab,
    Up,
    Down,
    Left,
    Right,
    Enter,
    Backspace,
    Char(char),
    Other,
}

/// What the input loop does with a key event.
#[derive(Copy, Clone, Debug, PartialEq, Eq, Structural)]
pub enum KeyDecision {
    /// The event is ignored.
    Skip,
    /// The program ends.
    Quit,
    /// The key goes to `handle_key`.
    Dispatch,
}

/// Key releases are ignored, Ctrl+C quits, and a character typed with Ctrl,
/// Alt or Super is ignored; every other key is handled.
pub open spec fn decision_of(release: bool, ctrl: bool, alt: bool, sup: bool, key: Key) -> KeyDecision {
    if release {
        KeyDecision::Skip
    } else if ctrl && key == Key::Char('c') {
        KeyDecision::Quit
    } else if key is Char && (ctrl || alt || sup) {
        KeyDecision::Skip
    } else {
        KeyDecision::Dispatch
    }
}

/// Decides what to do with a key event from its kind, modifiers and key.
pub fn key_decision(release: bool, ctrl: bool, alt: bool, sup: bool, key: Key) -> (r: KeyDecision)
    ensures
        r == decision_of(release, ctrl, alt, sup, key),
{
    if release {
        return KeyDecision::Skip;
    }
    let is_char = match key {
        Key::Char(_) => true,
        _ => false,
    };
    let is_c = match key {
        Key::Char(ch) => ch == 'c',
        _ => false,
    };
    if ctrl && is_c {
        return KeyDecision::Quit;
    }
    if is_char && (ctrl || alt || sup) {
        return KeyDecision::Skip;
    }
    KeyDecision::Dispatch
}

/// A space or a tab.
pub open spec fn is_blank(c: char) -> bool {
    c == ' ' || c == '\t'
}

/// What advancing through indentation does: the blanks that follow the
/// cursor in the target are typed, up to the next other character, the end
/// of the target, or the end of the test.
pub open spec fn indent_post(old: App, new: App) -> bool {
    let a = old.typed@.len();
    let b = new.typed@.len();
    &&& App::same_setup(old, new)
    &&& new.inv()
    &&& new.start == old.start
    &&& a <= b <= old.target@.len()
    &&& new.typed@ == old.typed@ + old.target@.subrange(a as int, b as int)
    &&& forall|i: int| a <= i < b ==> is_blank(#[trigger] old.target@[i])
    &&& new.correct == old.correct + (b - a)
    &&& new.incorrect == old.incorrect
    &&& new.keystrokes == old.keystrokes + (b - a)
    &&& new.finished || b == old.target@.len() || !is_blank(old.target@[b as int])
    &&& new.finished ==> exists|live: u64| #[trigger] App::settled(new, live)
    &&& !new.finished ==> new.end_elapsed is None
}

/// Types the blanks that follow the cursor in the target.
fn advance_indent(app: &mut App)
    requires
        old(app).inv(),
        !old(app).finished,
        old(app).start is Some,
        old(app).keystrokes + old(app).target@.len() < usize::MAX,
    ensures
        indent_post(*old(app), *final(app)),
{
    let ghost a = app.typed@.len();
    proof {
        assert(app.typed@ =~= old(app).typed@ + old(app).target@.subrange(a as int, a as int));
    }
    while !app.finished && app.typed.len() < app.target.len()
        invariant
            app.inv(),
            App::same_setup(*old(app), *app),
            old(app).start is Some,
            app.start == old(app).start,
            a == old(app).typed@.len(),
            a <= app.typed@.len() <= old(app).target@.len(),
            app.typed@ == old(app).typed@ + old(app).target@.subrange(a as int, app.typed@.len() as int),
            forall|i: int| a <= i < app.typed@.len() ==> is_blank(#[trigger] old(app).target@[i]),
            app.correct == old(app).correct + (app.typed@.len() - a),
            app.incorrect == old(app).incorrect,
            app.keystrokes == old(app).keystrokes + (app.typed@.len() - a),
            old(app).keystrokes + old(app).target@.len() < usize::MAX,
            app.finished ==> exists|live: u64| #[trigger] App::settled(*app, live),
        ensures
            app.inv(),
            App::same_setup(*old(app), *app),
            app.start == old(app).start,
            a <= app.typed@.len() <= old(app).target@.len(),
            app.typed@ == old(app).typed@ + old(app).target@.subrange(a as int, app.typed@.len() as int),
            forall|i: int| a <= i < app.typed@.len() ==> is_blank(#[trigger] old(app).target@[i]),
            app.correct == old(app).correct + (app.typed@.len() - a),
            app.incorrect == old(app).incorrect,
            app.keystrokes == old(app).keystrokes + (app.typed@.len() - a),
            app.finished || app.typed@.len() == old(app).target@.len() || !is_blank(
                old(app).target@[app.typed@.len() as int],
            ),
            app.finished ==> exists|live: u64| #[trigger] App::settled(*app, live),
        decreases old(app).target@.len() - app.typed@.len(),
    {
        let next = app.target[app.typed.len()];
        if next == ' ' || next == '\t' {
            let ghost before = *app;
            app.push(next);
            proof {
                assert(app.typed@ =~= old(app).typed@ + old(app).target@.subrange(
                    a as int,
                    app.typed@.len() as int,
                ));
            }
        } else {
            break ;
        }
    }
}

/// What applying `key` to `o` gives: the state `n` and whether to quit.
///
/// Before the first keystroke and after the end, the arrows and Tab change
/// the configuration and start afresh; while typing, Tab advances through
/// indentation in code and restarts a text test, and Esc restarts. A key that
/// does nothing leaves the state as it was.
pub open spec fn key_post(o: App, n: App, key: Key, quit: bool) -> bool {
    let can_cycle = o.start is None || o.finished;
    match key {
        Key::Esc => if o.start is Some && !o.finished {
            !quit && App::restarted_as(o, n, o.source, o.limit, o.lang, o.difficulty)
        } else {
            quit && n == o
        },
        Key::Tab => !quit && if can_cycle {
            App::restarted_as(
                o,
                n,
                o.source,
                next_of(limits_of(o.source), o.limit),
                o.lang,
                o.difficulty,
            )
        } else if o.source == Source::Code {
            indent_post(o, n)
        } else {
            App::restarted_as(o, n, o.source, o.limit, o.lang, o.difficulty)
        },
        Key::BackTab => !quit && if can_cycle {
            App::restarted_as(
                o,
                n,
                o.source,
                prev_of(limits_of(o.source), o.limit),
                o.lang,
                o.difficulty,
            )
        } else {
            n == o
        },
        Key::Up => !quit && if can_cycle {
            App::restarted_as(
                o,
                n,
                prev_of(all_sources(), o.source),
                clamped(o.limit, prev_of(all_sources(), o.source)),
                o.lang,
                o.difficulty,
            )
        } else {
            n == o
        },
        Key::Down => !quit && if can_cycle {
            App::restarted_as(
                o,
                n,
                next_of(all_sources(), o.source),
                clamped(o.limit, next_of(all_sources(), o.source)),
                o.lang,
                o.difficulty,
            )
        } else {
            n == o
        },
        Key::Left => !quit && if can_cycle {
            App::restarted_as(
                o,
                n,
                o.source,
                o.limit,
                if o.source == Source::Code {
                    prev_of(all_langs(), o.lang)
                } else {
                    o.lang
                },
                if o.source == Source::Text {
                    prev_of(all_difficulties(), o.difficulty)
                } else {
                    o.difficulty
                },
            )
        } else {
            n == o
        },
        Key::Right => !quit && if can_cycle {
            App::restarted_as(
                o,
                n,
                o.source,
                o.limit,
                if o.source == Source::Code {
                    next_of(all_langs(), o.lang)
                } else {
                    o.lang
                },
                if o.source == Source::Text {
                    next_of(all_difficulties(), o.difficulty)
                } else {
                    o.difficulty
                },
            )
        } else {
            n == o
        },
        Key::Enter => !quit && if o.finished {
            App::restarted_as(o, n, o.source, o.limit, o.lang, o.difficulty)
        } else if o.source == Source::Code && o.start is Some {
            App::push_post(o, n, '\n')
        } else {
            n == o
        },
        Key::Backspace => !quit && if !o.finished {
            App::backspace_post(o, n)
        } else {
            n == o
        },
        Key::Char(c) => !quit && App::push_post(o, n, c),
        Key::Other => !quit && n == o,
    }
}

/// While a test runs, no key quits or changes the configuration, and the keys
/// that only change the configuration leave the state as it was.
pub proof fn law_keys_while_running(o: App, n: App, key: Key, quit: bool)
    requires
        o.inv(),
        o.start is Some,
        !o.finished,
        key_post(o, n, key, quit),
    ensures
        !quit,
        n.source == o.source,
        n.limit == o.limit,
        n.lang == o.lang,
        n.difficulty == o.difficulty,
        key is BackTab || key is Up || key is Down || key is Left || key is Right ==> n == o,
{
}

/// Applies a key to the test. Returns `true` if the loop should exit.
pub fn handle_key(app: &mut App, key: Key) -> (quit: bool)
    requires
        old(app).inv(),
        old(app).keystrokes + old(app).target@.len() < usize::MAX,
    ensures
        final(app).inv(),
        key_post(*old(app), *final(app), key, quit),
{
    let can_cycle = app.start.is_none() || app.finished;
    match key {
        Key::Esc => {
            if app.start.is_some() && !app.finished {
                app.restart();
                false
            } else {
                true
            }
        },
        Key::Tab => {
            if can_cycle {
                app.cycle_limit_next();
            } else if app.is_code() {
                advance_indent(app);
            } else {
                app.restart();
            }
            false
        },
        Key::BackTab => {
            if can_cycle {
                app.cycle_limit_prev();
            }
            false
        },
        Key::Up => {
            if can_cycle {
                app.cycle_source_prev();
            }
            false
        },
        Key::Down => {
            if can_cycle {
                app.cycle_source_next();
            }
            false
        },
        Key::Left => {
            if can_cycle {
                app.cycle_secondary_prev();
            }
            false
        },
        Key::Right => {
            if can_cycle {
                app.cycle_secondary_next();
            }
            false
        },
        Key::Enter => {
            if app.finished {
                app.restart();
            } else if app.is_code() && app.start.is_some() {
                app.push('\n');
            }
            false
        },
        Key::Backspace => {
            if !app.finished {
                app.backspace();
            }
            false
        },
        Key::Char(c) => {
            if !app.finished {
                app.push(c);
            }
            false
        },
        Key::Other => false,
    }
}

} // verus!
