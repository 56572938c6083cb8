use desubot::omedeto::{
    candidate_words, compose_greeting, filler_list, opening_list, select_words, speaks_as_woman,
    strip_marks, Omedeto, WordClass,
};
use desubot::stem::Analysis;
use desubot::text::{chars_of, string_of};

fn strings(v: &[&str]) -> Vec<String> {
    v.iter().map(|s| s.to_string()).collect()
}

fn an(gr: &str) -> Option<Analysis> {
    Some(Analysis { lemma: "x".to_string(), grammar: gr.to_string() })
}

#[test]
fn candidates_after_ya() {
    let msgs = strings(&["я кот и пёс", "Я Пёс", "я 123", "ты кот", "я", "я  двойной", "я мыла-раму"]);
    assert_eq!(candidate_words(&msgs), strings(&["кот", "Пёс", "мыла-раму"]));
}

#[test]
fn marks_removed() {
    assert_eq!(string_of(&strip_marks(&chars_of("ко.т,,"))), "кот");
}

#[test]
fn selection_is_distinct() {
    let words = strings(&["кот,", "кот", "мыла", "пёс"]);
    let analyses = vec![an("S,муж,од=им,ед"), an("S,муж,од=им,ед"), an("V=прош,жен"), None];
    assert_eq!(select_words(&words, &analyses, WordClass::NominativeNoun), strings(&["кот"]));
    assert_eq!(select_words(&words, &analyses, WordClass::PastVerb), strings(&["мыла"]));
    assert!(select_words(&words, &analyses, WordClass::PresentFirstPersonVerb).is_empty());
}

#[test]
fn address_by_gender() {
    assert!(speaks_as_woman(&vec![]));
    assert!(speaks_as_woman(&vec![an("V=прош,жен"), an("V=прош,муж")]));
    assert!(!speaks_as_woman(&vec![an("V=прош,жен"), an("V=прош,муж"), an("V=прош,муж")]));
    assert!(speaks_as_woman(&vec![an("V=непрош,муж"), an("S,муж=им")]));
}

#[test]
fn greeting_text_exact() {
    let f = strings(&["[СЕКРЕТНО]"; 9]);
    let g = compose_greeting(
        &"Поздравляю".to_string(),
        &"Аня".to_string(),
        true,
        &strings(&["кот", "пёс"]),
        &strings(&["спала"]),
        &strings(&[]),
        &f,
    );
    assert_eq!(
        g,
        "Поздравляю Аня известная как пёс, кот, а так же конечно [СЕКРЕТНО]. В прошедшем году ты часто давала нам знать, что ты спала, [СЕКРЕТНО] и [СЕКРЕТНО]. Нередко ты говорила я [СЕКРЕТНО], я [СЕКРЕТНО] или даже я [СЕКРЕТНО]. =*"
    );
    let g = compose_greeting(&"С НГ тебя".to_string(), &"Петя".to_string(), false, &strings(&["a", "b", "c", "d"]), &strings(&[]), &strings(&["x"]), &f);
    assert!(g.starts_with("С НГ тебя Петя известный как d, c, а так же конечно b. В прошедшем году ты часто давал нам знать"));
    assert!(g.contains("Нередко ты говорил я x, я [СЕКРЕТНО]"));
}

#[test]
fn greeting_without_words_names_member() {
    let g = Omedeto { data: String::new() }.greeting(&"Вася".to_string(), &vec![], &vec![]);
    let openings = opening_list();
    assert!(openings.iter().any(|o| g.starts_with(&format!("{} Вася известная как Вася, ", o))));
    let fillers = filler_list();
    assert!(fillers.iter().any(|f| g.contains(f.as_str())));
    assert!(g.ends_with(". =*"));
}

#[test]
fn greeting_uses_member_words() {
    let words = strings(&["кот", "спал", "сплю"]);
    let analyses = vec![an("S,муж,од=им,ед"), an("V=прош,муж"), an("V=непрош,1-л")];
    let g = Omedeto { data: String::new() }.greeting(&"Петя".to_string(), &words, &analyses);
    assert!(g.contains("Петя известный как кот, "));
    assert!(g.contains("давал нам знать, что ты спал, "));
    assert!(g.contains("говорил я сплю, я "));
}

#[test]
fn words_only_from_ya_messages() {
    let msgs = strings(&["ты кот", "я пёс,", "мы кот", "я пёс"]);
    let words = candidate_words(&msgs);
    assert_eq!(words, strings(&["пёс,", "пёс"]));
    let analyses = vec![an("S,муж,од=им,ед"), an("S,муж,од=им,ед")];
    assert_eq!(select_words(&words, &analyses, WordClass::NominativeNoun), strings(&["пёс"]));
}
