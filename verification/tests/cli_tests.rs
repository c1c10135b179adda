use typr::cli::{
    difficulty_label, difficulties, lang_label, langs, limit_label, limits_for, next_in, parse_limit,
    prev_in, source_label, sources, Cli, Difficulty, Lang, Limit, Source,
};

#[test]
fn parse_limit_seconds() {
    assert_eq!(parse_limit("30s"), Ok(Limit::Time(30)));
    assert_eq!(parse_limit("60"), Ok(Limit::Time(60)));
    assert_eq!(parse_limit("  15s \n"), Ok(Limit::Time(15)));
    assert_eq!(parse_limit("+7s"), Ok(Limit::Time(7)));
    assert_eq!(parse_limit("0s"), Ok(Limit::Time(0)));
}

#[test]
fn parse_limit_words() {
    assert_eq!(parse_limit("25w"), Ok(Limit::Count(25)));
    assert_eq!(parse_limit("100w"), Ok(Limit::Count(100)));
}

#[test]
fn parse_limit_snippet_any_case() {
    assert_eq!(parse_limit("snippet"), Ok(Limit::Snippet));
    assert_eq!(parse_limit("SNIPPET"), Ok(Limit::Snippet));
    assert_eq!(parse_limit(" SnIpPeT "), Ok(Limit::Snippet));
}

#[test]
fn parse_limit_errors() {
    assert_eq!(parse_limit(""), Err("cannot parse integer from empty string".to_string()));
    assert_eq!(parse_limit("s"), Err("cannot parse integer from empty string".to_string()));
    assert_eq!(parse_limit("abc"), Err("invalid digit found in string".to_string()));
    assert_eq!(parse_limit("-5s"), Err("invalid digit found in string".to_string()));
    assert_eq!(parse_limit("+"), Err("invalid digit found in string".to_string()));
    assert_eq!(parse_limit("5S"), Err("invalid digit found in string".to_string()));
    assert_eq!(parse_limit("4294967295s"), Ok(Limit::Time(4294967295)));
    assert_eq!(
        parse_limit("4294967296s"),
        Err("number too large to fit in target type".to_string())
    );
    assert_eq!(
        parse_limit("99999999999x"),
        Err("number too large to fit in target type".to_string())
    );
}

#[test]
fn labels() {
    assert_eq!(source_label(Source::Text), "text");
    assert_eq!(source_label(Source::Code), "code");
    assert_eq!(lang_label(Lang::Rust), "rust");
    assert_eq!(lang_label(Lang::Python), "python");
    assert_eq!(lang_label(Lang::Js), "js");
    assert_eq!(lang_label(Lang::Go), "go");
    assert_eq!(difficulty_label(Difficulty::E200), "200");
    assert_eq!(difficulty_label(Difficulty::E1k), "1k");
    assert_eq!(difficulty_label(Difficulty::E5k), "5k");
    assert_eq!(difficulty_label(Difficulty::E10k), "10k");
    assert_eq!(limit_label(Limit::Time(30)), "30s");
    assert_eq!(limit_label(Limit::Time(0)), "0s");
    assert_eq!(limit_label(Limit::Count(25)), "25");
    assert_eq!(limit_label(Limit::Snippet), "snippet");
    assert_eq!(limit_label(Limit::Time(4294967295)), "4294967295s");
}

#[test]
fn label_round_trip() {
    for l in [Limit::Time(15), Limit::Time(120), Limit::Time(0), Limit::Snippet] {
        assert_eq!(parse_limit(&limit_label(l)), Ok(l));
    }
    // A word-count label carries no `w`, so it reads back as seconds.
    assert_eq!(parse_limit(&limit_label(Limit::Count(25))), Ok(Limit::Time(25)));
}

#[test]
fn limit_time_secs() {
    assert_eq!(Limit::Time(30).time_secs(), Some(30));
    assert_eq!(Limit::Count(30).time_secs(), None);
    assert_eq!(Limit::Snippet.time_secs(), None);
}

#[test]
fn offered_limits() {
    assert_eq!(
        limits_for(Source::Text),
        vec![
            Limit::Time(15),
            Limit::Time(30),
            Limit::Time(60),
            Limit::Time(120),
            Limit::Count(10),
            Limit::Count(25),
            Limit::Count(50),
            Limit::Count(100),
        ]
    );
    assert_eq!(
        limits_for(Source::Code),
        vec![Limit::Time(15), Limit::Time(30), Limit::Time(60), Limit::Time(120), Limit::Snippet]
    );
    assert_eq!(sources(), vec![Source::Text, Source::Code]);
    assert_eq!(langs(), vec![Lang::Rust, Lang::Python, Lang::Js, Lang::Go]);
    assert_eq!(
        difficulties(),
        vec![Difficulty::E200, Difficulty::E1k, Difficulty::E5k, Difficulty::E10k]
    );
}

#[test]
fn next_and_prev_wrap() {
    let l = langs();
    assert_eq!(next_in(&l, Lang::Rust), Lang::Python);
    assert_eq!(next_in(&l, Lang::Go), Lang::Rust);
    assert_eq!(prev_in(&l, Lang::Rust), Lang::Go);
    assert_eq!(prev_in(&l, Lang::Js), Lang::Python);
}

#[test]
fn next_and_prev_outside_list() {
    let code = limits_for(Source::Code);
    assert_eq!(next_in(&code, Limit::Count(25)), Limit::Time(15));
    assert_eq!(prev_in(&code, Limit::Count(25)), Limit::Time(15));
    let empty: Vec<Limit> = Vec::new();
    assert_eq!(next_in(&empty, Limit::Snippet), Limit::Snippet);
    assert_eq!(prev_in(&empty, Limit::Time(3)), Limit::Time(3));
}

#[test]
fn prev_undoes_next() {
    let t = limits_for(Source::Text);
    for l in t.iter().copied() {
        assert_eq!(prev_in(&t, next_in(&t, l)), l);
        assert_eq!(next_in(&t, prev_in(&t, l)), l);
    }
}

#[test]
fn cli_defaults() {
    let c = Cli::default();
    assert_eq!(c.source, Source::Text);
    assert_eq!(c.lang, Lang::Rust);
    assert_eq!(c.difficulty, Difficulty::E200);
    assert_eq!(c.limit, Limit::Time(30));
}
