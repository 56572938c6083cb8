use desubot::stem::{
    first_analysis_from_line, grammar_has_tag, grammar_is_pos, lemmas_from_line, stem_request,
    Analysis,
};

const LINE: &str = r#"[{"analysis":[{"lex":"красивый","gr":"A=вин,ед,полн,жен"}],"text":"Красивую"},{"text":" "},{"analysis":[{"lex":"собака","gr":"S,жен,од=вин,ед"}],"text":"собаку"},{"text":"\n"}]"#;

#[test]
fn lemmas_of_a_line() {
    assert_eq!(lemmas_from_line(LINE), vec!["красивый".to_string(), "собака".to_string()]);
}

#[test]
fn lemmas_of_bad_line() {
    assert!(lemmas_from_line("not json").is_empty());
    assert!(lemmas_from_line("{\"a\":1}").is_empty());
    assert!(lemmas_from_line("[]").is_empty());
}

#[test]
fn lemmas_never_null_or_quoted() {
    let line = r#"[{"analysis":[{"lex":"null"}]},{"analysis":[]},{"analysis":[{"lex":"мыть"}]}]"#;
    let l = lemmas_from_line(line);
    assert_eq!(l, vec!["мыть".to_string()]);
    for w in l {
        assert!(w != "null" && !w.contains('"'));
    }
}

#[test]
fn first_analysis() {
    let a = first_analysis_from_line(LINE).unwrap();
    assert_eq!(a.lemma, "красивый");
    assert_eq!(a.grammar, "A=вин,ед,полн,жен");
    assert!(first_analysis_from_line(r#"[{"text":","}]"#).is_none());
    assert!(first_analysis_from_line("[]").is_none());
    assert!(first_analysis_from_line("oops").is_none());
}

#[test]
fn grammar_tags() {
    assert!(grammar_is_pos("S,жен,неод=им,ед", "S"));
    assert!(!grammar_is_pos("SPRO,ед=им", "S"));
    assert!(grammar_has_tag("S,жен,неод=им,ед", "им"));
    assert!(!grammar_has_tag("S,жен,неод=вин,ед", "им"));
    assert!(grammar_has_tag("V,несов=(непрош,ед,изъяв,1-л|прош)", "1-л"));
    assert!(grammar_has_tag("V,несов=(непрош,ед,изъяв,1-л|прош)", "прош"));
    assert!(!grammar_has_tag("V=непрош", "прош"));
}

#[test]
fn word_classes() {
    let noun = Analysis { lemma: "кот".to_string(), grammar: "S,муж,од=им,ед".to_string() };
    assert!(noun.nominative_noun());
    assert!(!noun.past_verb());
    let past = Analysis { lemma: "мыть".to_string(), grammar: "V,несов,пе=прош,ед,изъяв,жен".to_string() };
    assert!(past.past_verb());
    assert!(past.feminine());
    let now = Analysis { lemma: "мыть".to_string(), grammar: "V,несов,пе=непрош,ед,изъяв,1-л".to_string() };
    assert!(now.present_first_person_verb());
    assert!(!now.past_verb());
}

#[test]
fn request_line() {
    assert_eq!(stem_request("  мама мыла раму \n"), "мама мыла раму\n");
    assert_eq!(stem_request(""), "\n");
}

#[test]
fn readme_stemming_example() {
    // MyStem's answer for "Красивую собаку мыли негры"
    let line = r#"[{"analysis":[{"lex":"красивый","gr":"A=вин,ед,полн,жен"}],"text":"Красивую"},{"text":" "},{"analysis":[{"lex":"собака","gr":"S,жен,од=вин,ед"}],"text":"собаку"},{"text":" "},{"analysis":[{"lex":"мыть","gr":"V,несов,пе=прош,мн,изъяв"}],"text":"мыли"},{"text":" "},{"analysis":[{"lex":"негр","gr":"S,муж,од=им,мн"}],"text":"негры"},{"text":"\n"}]"#;
    assert_eq!(lemmas_from_line(line).join(" "), "красивый собака мыть негр");
}
