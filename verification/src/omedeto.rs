//! The `/omedeto` command: a New Year greeting made of the words a member
//! used in messages of the form "я <word>".
use vstd::prelude::*;
use crate::chance::{pick_one, shuffle};
use crate::stem::{
    is_feminine, is_nominative_noun, is_past_verb, is_present_first_person_verb, Analysis,
};
use crate::text::{chars_of, extend_chars, extend_str, string_of, strs, trim, trimmed};
use regex::Regex;

verus! {

/// The `/omedeto` command.
pub struct Omedeto {
    pub data: String,
}

/// A Cyrillic letter of the basic alphabet, `а`-`я` or `А`-`Я`.
pub open spec fn is_cyrillic_letter(c: char) -> bool {
    let u = c as u32;
    (0x430 <= u <= 0x44F) || (0x410 <= u <= 0x42F)
}

/// A message that starts with "я " (or "Я ") and a Cyrillic letter.
pub open spec fn is_ya_phrase(m: Seq<char>) -> bool {
    &&& m.len() >= 3
    &&& (m[0] == 'я' || m[0] == 'Я')
    &&& m[1] == ' '
    &&& is_cyrillic_letter(m[2])
}

/// The characters of `s` up to its first space.
pub open spec fn until_space(s: Seq<char>) -> Seq<char>
    decreases s.len(),
{
    if s.len() == 0 || s[0] == ' ' {
        seq![]
    } else {
        seq![s[0]] + until_space(s.drop_first())
    }
}

/// The word after "я " in such a message.
pub open spec fn second_word(m: Seq<char>) -> Seq<char> {
    until_space(m.skip(2))
}

/// The words after "я " in the messages that have that form, in order.
pub open spec fn candidates(msgs: Seq<Seq<char>>) -> Seq<Seq<char>>
    decreases msgs.len(),
{
    if msgs.len() == 0 {
        seq![]
    } else {
        let r = candidates(msgs.drop_last());
        if is_ya_phrase(msgs.last()) {
            r.push(second_word(msgs.last()))
        } else {
            r
        }
    }
}

/// `.` and `,`.
pub open spec fn is_mark(c: char) -> bool {
    c == '.' || c == ','
}

/// `s` without its dots and commas.
pub open spec fn without_marks(s: Seq<char>) -> Seq<char>
    decreases s.len(),
{
    if s.len() == 0 {
        seq![]
    } else {
        let r = without_marks(s.drop_last());
        if is_mark(s.last()) {
            r
        } else {
            r.push(s.last())
        }
    }
}

/// The kinds of words the greeting is made of.
pub enum WordClass {
    NominativeNoun,
    PastVerb,
    PresentFirstPersonVerb,
}

/// Grammar tags `gr` describe a word of class `c`.
pub open spec fn in_class(c: WordClass, gr: Seq<char>) -> bool {
    match c {
        WordClass::NominativeNoun => is_nominative_noun(gr),
        WordClass::PastVerb => is_past_verb(gr),
        WordClass::PresentFirstPersonVerb => is_present_first_person_verb(gr),
    }
}

/// The grammar tags of an analysis, if there is one.
pub open spec fn grammar_of(a: Option<Analysis>) -> Option<Seq<char>> {
    match a {
        Some(x) => Some(x.grammar@),
        None => None,
    }
}

/// The grammar tags of a list of analyses.
pub open spec fn grammars(an: Seq<Option<Analysis>>) -> Seq<Option<Seq<char>>> {
    an.map_values(|a: Option<Analysis>| grammar_of(a))
}

/// The words (dots and commas taken out) whose analysis is of class `c`;
/// `gs[i]` is the analysis of `words[i]`.
pub open spec fn selected(words: Seq<Seq<char>>, gs: Seq<Option<Seq<char>>>, c: WordClass) -> Seq<
    Seq<char>,
>
    decreases words.len(),
{
    if words.len() == 0 || gs.len() == 0 {
        seq![]
    } else {
        let r = selected(words.drop_last(), gs.drop_last(), c);
        match gs.last() {
            Some(g) => if in_class(c, g) {
                r.push(without_marks(words.last()))
            } else {
                r
            },
            None => r,
        }
    }
}

/// `s` with repeated entries left out (the first of each kept).
pub open spec fn distinct(s: Seq<Seq<char>>) -> Seq<Seq<char>>
    decreases s.len(),
{
    if s.len() == 0 {
        seq![]
    } else {
        let r = distinct(s.drop_last());
        if r.contains(s.last()) {
            r
        } else {
            r.push(s.last())
        }
    }
}

/// `distinct(s)` holds each entry of `s` once: no entry twice, none missing,
/// none added.
pub proof fn lemma_distinct(s: Seq<Seq<char>>)
    ensures
        distinct(s).no_duplicates(),
        distinct(s).to_set() == s.to_set(),
    decreases s.len(),
{
    if s.len() > 0 {
        let r = distinct(s.drop_last());
        lemma_distinct(s.drop_last());
        assert(s.to_set() =~= s.drop_last().to_set().insert(s.last())) by {
            assert(s == s.drop_last().push(s.last()));
            assert forall|x: Seq<char>| s.to_set().contains(x) <==> s.drop_last().to_set().insert(
                s.last(),
            ).contains(x) by {
                if s.contains(x) {
                    let k = choose|k: int| 0 <= k < s.len() && s[k] == x;
                    if k < s.len() - 1 {
                        assert(s.drop_last()[k] == x);
                    }
                }
                if s.drop_last().contains(x) {
                    let k = choose|k: int| 0 <= k < s.drop_last().len() && s.drop_last()[k] == x;
                    assert(s[k] == x);
                }
            }
        }
        if r.contains(s.last()) {
            assert(r.to_set().contains(s.last()));
            assert(distinct(s).to_set() =~= s.to_set());
        } else {
            assert(r.push(s.last()).to_set() =~= r.to_set().insert(s.last())) by {
                assert forall|x: Seq<char>| r.push(s.last()).to_set().contains(x) <==> r.to_set().insert(
                    s.last(),
                ).contains(x) by {
                    if r.push(s.last()).contains(x) {
                        let k = choose|k: int| 0 <= k < r.len() + 1 && r.push(s.last())[k] == x;
                        if k < r.len() {
                            assert(r[k] == x);
                        }
                    }
                    if r.contains(x) {
                        let k = choose|k: int| 0 <= k < r.len() && r[k] == x;
                        assert(r.push(s.last())[k] == x);
                    }
                    if x == s.last() {
                        assert(r.push(s.last())[r.len() as int] == x);
                    }
                }
            }
            assert forall|a: int, b: int|
                0 <= a < r.len() + 1 && 0 <= b < r.len() + 1 && a != b implies r.push(
                    s.last(),
                )[a] != r.push(s.last())[b] by {
                if a == r.len() {
                    assert(r[b] == r.push(s.last())[b]);
                } else if b == r.len() {
                    assert(r[a] == r.push(s.last())[a]);
                }
            }
        }
    } else {
        assert(distinct(s).to_set() =~= s.to_set());
    }
}

proof fn lemma_distinct_within(s: Seq<Seq<char>>, x: Seq<char>)
    requires
        distinct(s).contains(x),
    ensures
        s.contains(x),
    decreases s.len(),
{
    if s.len() > 0 {
        let r = distinct(s.drop_last());
        if r.contains(x) {
            lemma_distinct_within(s.drop_last(), x);
            let k = choose|k: int| 0 <= k < s.drop_last().len() && s.drop_last()[k] == x;
            assert(s[k] == x);
        } else {
            assert(x == s.last());
            assert(s[s.len() - 1] == x);
        }
    }
}

proof fn lemma_selected_within(ws: Seq<Seq<char>>, gs: Seq<Option<Seq<char>>>, c: WordClass, x: Seq<char>)
    requires
        selected(ws, gs, c).contains(x),
    ensures
        exists|i: int| 0 <= i < ws.len() && x == without_marks(#[trigger] ws[i]),
    decreases ws.len(),
{
    if ws.len() > 0 && gs.len() > 0 {
        let r = selected(ws.drop_last(), gs.drop_last(), c);
        if r.contains(x) {
            lemma_selected_within(ws.drop_last(), gs.drop_last(), c, x);
            let i = choose|i: int| 0 <= i < ws.drop_last().len() && x == without_marks(
                #[trigger] ws.drop_last()[i],
            );
            assert(ws[i] == ws.drop_last()[i]);
        } else {
            assert(x == without_marks(ws.last()));
            assert(ws[ws.len() - 1] == ws.last());
        }
    }
}

proof fn lemma_candidate_within(msgs: Seq<Seq<char>>, w: Seq<char>)
    requires
        candidates(msgs).contains(w),
    ensures
        exists|m: Seq<char>| #[trigger] msgs.contains(m) && is_ya_phrase(m) && w == second_word(m),
    decreases msgs.len(),
{
    if msgs.len() > 0 {
        let r = candidates(msgs.drop_last());
        if r.contains(w) {
            lemma_candidate_within(msgs.drop_last(), w);
            let m = choose|m: Seq<char>| #[trigger] msgs.drop_last().contains(m) && is_ya_phrase(m)
                && w == second_word(m);
            let k = choose|k: int| 0 <= k < msgs.drop_last().len() && msgs.drop_last()[k] == m;
            assert(msgs[k] == m);
            assert(msgs.contains(m));
        } else {
            assert(is_ya_phrase(msgs.last()));
            assert(w == second_word(msgs.last()));
            assert(msgs[msgs.len() - 1] == msgs.last());
            assert(msgs.contains(msgs.last()));
        }
    }
}

/// Every word the greeting may use comes from one of the member's own
/// messages of the form "я <word>": it is that word, dots and commas taken
/// out.
pub proof fn lemma_words_from_member(
    msgs: Seq<Seq<char>>,
    gs: Seq<Option<Seq<char>>>,
    c: WordClass,
    x: Seq<char>,
)
    requires
        lexicon(candidates(msgs), gs, c).contains(x),
    ensures
        exists|m: Seq<char>|
            #[trigger] msgs.contains(m) && is_ya_phrase(m) && x == without_marks(second_word(m)),
{
    let ws = candidates(msgs);
    lemma_distinct_within(selected(ws, gs, c), x);
    lemma_selected_within(ws, gs, c, x);
    let i = choose|i: int| 0 <= i < ws.len() && x == without_marks(#[trigger] ws[i]);
    assert(ws.contains(ws[i]));
    lemma_candidate_within(msgs, ws[i]);
    let m = choose|m: Seq<char>| #[trigger] msgs.contains(m) && is_ya_phrase(m) && ws[i]
        == second_word(m);
    assert(msgs.contains(m) && is_ya_phrase(m) && x == without_marks(second_word(m)));
}

/// The distinct words of class `c`.
pub open spec fn lexicon(words: Seq<Seq<char>>, gs: Seq<Option<Seq<char>>>, c: WordClass) -> Seq<
    Seq<char>,
> {
    distinct(selected(words, gs, c))
}

/// How many past-tense verbs are feminine, and how many are not.
pub open spec fn past_counts(gs: Seq<Option<Seq<char>>>) -> (nat, nat)
    decreases gs.len(),
{
    if gs.len() == 0 {
        (0, 0)
    } else {
        let (f, m) = past_counts(gs.drop_last());
        match gs.last() {
            Some(g) => if is_past_verb(g) {
                if is_feminine(g) {
                    (f + 1, m)
                } else {
                    (f, m + 1)
                }
            } else {
                (f, m)
            },
            None => (f, m),
        }
    }
}

/// A past-tense verb in the feminine.
pub open spec fn is_feminine_past(o: Option<Seq<char>>) -> bool {
    match o {
        Some(g) => is_past_verb(g) && is_feminine(g),
        None => false,
    }
}

/// A past-tense verb not in the feminine.
pub open spec fn is_other_past(o: Option<Seq<char>>) -> bool {
    match o {
        Some(g) => is_past_verb(g) && !is_feminine(g),
        None => false,
    }
}

proof fn lemma_past_counts_filter(gs: Seq<Option<Seq<char>>>)
    ensures
        past_counts(gs).0 == gs.filter(|o: Option<Seq<char>>| is_feminine_past(o)).len(),
        past_counts(gs).1 == gs.filter(|o: Option<Seq<char>>| is_other_past(o)).len(),
    decreases gs.len(),
{
    reveal(Seq::filter);
    if gs.len() > 0 {
        lemma_past_counts_filter(gs.drop_last());
    }
}

/// The member is addressed as a woman exactly when at least as many of the
/// past-tense verbs they used are feminine as are not; words that are not
/// past-tense verbs do not count.
pub proof fn lemma_address_by_past_verbs(gs: Seq<Option<Seq<char>>>)
    ensures
        addressed_as_woman(gs) <==> gs.filter(|o: Option<Seq<char>>| is_feminine_past(o)).len()
            >= gs.filter(|o: Option<Seq<char>>| is_other_past(o)).len(),
{
    lemma_past_counts_filter(gs);
}

/// Adding a word that is not a past-tense verb (or has no analysis) never
/// changes how the member is addressed.
pub proof fn lemma_address_ignores_other_words(gs: Seq<Option<Seq<char>>>, x: Option<Seq<char>>)
    requires
        !(x matches Some(g) && is_past_verb(g)),
    ensures
        addressed_as_woman(gs.push(x)) == addressed_as_woman(gs),
{
    lemma_past_counts_filter(gs);
    lemma_past_counts_filter(gs.push(x));
    reveal(Seq::filter);
    assert(gs.push(x).drop_last() == gs);
}

/// The member is addressed in the feminine: at least as many of their
/// past-tense verbs are feminine as are not.
pub open spec fn addressed_as_woman(gs: Seq<Option<Seq<char>>>) -> bool {
    past_counts(gs).0 >= past_counts(gs).1
}

/// The openings the greeting may start with.
pub open spec fn openings() -> Seq<Seq<char>> {
    seq!["С новым годом"@, "С НГ тебя"@, "Поздравляю"@, "Поздравляю с НГ"@]
}

/// The fillers that stand where words run out.
pub open spec fn fillers() -> Seq<Seq<char>> {
    seq!["[ДАННЫЕ УДАЛЕНЫ]"@, "[СЕКРЕТНО]"@, "[НЕТ ДАННЫХ]"@, "[ОШИБКА ДОСТУПА]"@]
}

/// The `k`-th word taken from the back of `list`, or `filler` when the list
/// has run out.
pub open spec fn taken(list: Seq<Seq<char>>, k: int, filler: Seq<char>) -> Seq<char> {
    if k < list.len() {
        list[list.len() - 1 - k]
    } else {
        filler
    }
}

/// The nouns of the greeting: the member's name when they used none.
pub open spec fn noun_list(nouns: Seq<Seq<char>>, name: Seq<char>) -> Seq<Seq<char>> {
    if nouns.len() == 0 {
        seq![name]
    } else {
        nouns
    }
}

/// The greeting, before trimming.
pub open spec fn greeting_text(
    opening: Seq<char>,
    name: Seq<char>,
    fem: bool,
    nouns: Seq<Seq<char>>,
    past: Seq<Seq<char>>,
    present: Seq<Seq<char>>,
    f: Seq<Seq<char>>,
) -> Seq<char> {
    let ending = if fem {
        "а"@
    } else {
        seq![]
    };
    opening + " "@ + name + " известн"@ + (if fem {
        "ая"@
    } else {
        "ый"@
    }) + " как "@ + taken(nouns, 0, f[0]) + ", "@ + taken(nouns, 1, f[1]) + ", а так же конечно "@
        + taken(nouns, 2, f[2]) + ". В прошедшем году ты часто давал"@ + ending
        + " нам знать, что ты "@ + taken(past, 0, f[3]) + ", "@ + taken(past, 1, f[4]) + " и "@
        + taken(past, 2, f[5]) + ". Нередко ты говорил"@ + ending + " я "@ + taken(present, 0, f[6])
        + ", я "@ + taken(present, 1, f[7]) + " или даже я "@ + taken(present, 2, f[8]) + ". =*"@
}

/// `g` is a greeting that `/omedeto` may give to a member named `name`
/// whose "я ..." words are `ws`, analysed as `gs`: some opening, the
/// member's distinct nouns, past-tense and first-person verbs each in some
/// order, and nine fillers.
pub open spec fn is_greeting_for(
    g: Seq<char>,
    name: Seq<char>,
    ws: Seq<Seq<char>>,
    gs: Seq<Option<Seq<char>>>,
) -> bool {
    exists|o: Seq<char>, ns: Seq<Seq<char>>, ps: Seq<Seq<char>>, is: Seq<Seq<char>>, f: Seq<Seq<char>>|
        #![trigger greeting_text(o, name, addressed_as_woman(gs), noun_list(ns, name), ps, is, f)]
        {
            &&& openings().contains(o)
            &&& f.len() == 9
            &&& forall|k: int| 0 <= k < 9 ==> fillers().contains(#[trigger] f[k])
            &&& ns.to_multiset() == lexicon(ws, gs, WordClass::NominativeNoun).to_multiset()
            &&& ps.to_multiset() == lexicon(ws, gs, WordClass::PastVerb).to_multiset()
            &&& is.to_multiset() == lexicon(ws, gs, WordClass::PresentFirstPersonVerb).to_multiset()
            &&& g == trimmed(
                greeting_text(o, name, addressed_as_woman(gs), noun_list(ns, name), ps, is, f),
            )
        }
}

/// Whether a message starts with "я " and a Cyrillic letter: `Regex::is_match`
/// of the regex crate for `^[яЯ] [а-яА-Я]+(-[а-яА-Я]+(_[а-яА-Я]+)*)*`.
/// Claimed: the result is `is_ya_phrase(m)` (the pattern is anchored at the
/// start only, and everything after its first letter may be empty).
#[verifier::external_body]
fn ya_phrase_match(m: &str) -> (b: bool)
    ensures
        b == is_ya_phrase(m@),
{
    Regex::new("^[яЯ] [а-яА-Я]+(-[а-яА-Я]+(_[а-яА-Я]+)*)*").unwrap().is_match(m)
}

/// The word after "я " in a message of that form.
pub fn word_after_ya(m: &Vec<char>) -> (w: Vec<char>)
    requires
        m.len() >= 2,
    ensures
        w@ == second_word(m@),
{
    let mut w: Vec<char> = Vec::new();
    let mut j: usize = 2;
    assert(m@.subrange(2, 2) == Seq::<char>::empty());
    while j < m.len() && m[j] != ' '
        invariant
            2 <= j <= m.len(),
            w@ == m@.subrange(2, j as int),
            second_word(m@) == w@ + until_space(m@.skip(j as int)),
        decreases m.len() - j,
    {
        proof {
            assert(m@.skip(j as int).drop_first() == m@.skip(j + 1));
            assert(m@.skip(j as int)[0] == m@[j as int]);
            assert(w@.push(m@[j as int]) + until_space(m@.skip(j + 1)) == w@ + (seq![m@[j as int]]
                + until_space(m@.skip(j + 1))));
            assert(m@.subrange(2, j + 1) == m@.subrange(2, j as int).push(m@[j as int]));
        }
        w.push(m[j]);
        j += 1;
    }
    proof {
        if j < m.len() {
            assert(m@.skip(j as int)[0] == ' ');
        }
        assert(until_space(m@.skip(j as int)) == Seq::<char>::empty());
        assert(w@ + Seq::<char>::empty() == w@);
    }
    w
}

/// The words after "я " in the messages of that form, in order.
pub fn candidate_words(messages: &Vec<String>) -> (r: Vec<String>)
    ensures
        strs(r@) == candidates(strs(messages@)),
{
    let mut r: Vec<String> = Vec::new();
    let mut i: usize = 0;
    assert(strs(messages@).take(0) == Seq::<Seq<char>>::empty());
    assert(strs(r@) == Seq::<Seq<char>>::empty());
    while i < messages.len()
        invariant
            i <= messages.len(),
            strs(r@) == candidates(strs(messages@).take(i as int)),
        decreases messages.len() - i,
    {
        let ghost before = r@;
        proof {
            let t = strs(messages@).take(i + 1);
            assert(t.drop_last() == strs(messages@).take(i as int));
            assert(t.last() == messages@[i as int]@);
        }
        if ya_phrase_match(messages[i].as_str()) {
            let m = chars_of(messages[i].as_str());
            let w = word_after_ya(&m);
            r.push(string_of(&w));
            assert(strs(r@) == strs(before).push(w@));
        }
        i += 1;
    }
    assert(strs(messages@).take(messages.len() as int) == strs(messages@));
    r
}

/// `s` without its dots and commas (std's `str::replace` with a pattern
/// that matches `.` and `,`, and an empty replacement).
pub fn strip_marks(s: &Vec<char>) -> (r: Vec<char>)
    ensures
        r@ == without_marks(s@),
{
    let mut r: Vec<char> = Vec::new();
    let mut i: usize = 0;
    assert(s@.take(0) == Seq::<char>::empty());
    while i < s.len()
        invariant
            i <= s.len(),
            r@ == without_marks(s@.take(i as int)),
        decreases s.len() - i,
    {
        proof {
            assert(s@.take(i + 1).drop_last() == s@.take(i as int));
            assert(s@.take(i + 1).last() == s@[i as int]);
        }
        if s[i] != '.' && s[i] != ',' {
            r.push(s[i]);
        }
        i += 1;
    }
    assert(s@.take(s.len() as int) == s@);
    r
}

fn contains_text(list: &Vec<String>, w: &String) -> (b: bool)
    ensures
        b == strs(list@).contains(w@),
{
    let mut i: usize = 0;
    while i < list.len()
        invariant
            i <= list.len(),
            forall|j: int| 0 <= j < i ==> strs(list@)[j] != w@,
        decreases list.len() - i,
    {
        if list[i] == *w {
            assert(strs(list@)[i as int] == w@);
            return true;
        }
        i += 1;
    }
    false
}

fn analysis_in_class(a: &Analysis, c: &WordClass) -> (b: bool)
    ensures
        b == in_class(*c, a.grammar@),
{
    match c {
        WordClass::NominativeNoun => a.nominative_noun(),
        WordClass::PastVerb => a.past_verb(),
        WordClass::PresentFirstPersonVerb => a.present_first_person_verb(),
    }
}

/// The distinct words of class `c` (dots and commas taken out), in the
/// order of their first use; `analyses[i]` is the analysis of `words[i]`.
pub fn select_words(words: &Vec<String>, analyses: &Vec<Option<Analysis>>, c: WordClass) -> (r:
    Vec<String>)
    requires
        words.len() == analyses.len(),
    ensures
        strs(r@) == lexicon(strs(words@), grammars(analyses@), c),
{
    let mut r: Vec<String> = Vec::new();
    let ghost ws = strs(words@);
    let ghost gs = grammars(analyses@);
    let mut i: usize = 0;
    assert(ws.take(0) == Seq::<Seq<char>>::empty());
    assert(strs(r@) == Seq::<Seq<char>>::empty());
    while i < words.len()
        invariant
            i <= words.len(),
            words.len() == analyses.len(),
            ws == strs(words@),
            gs == grammars(analyses@),
            strs(r@) == distinct(selected(ws.take(i as int), gs.take(i as int), c)),
        decreases words.len() - i,
    {
        let ghost before = r@;
        let ghost sel = selected(ws.take(i as int), gs.take(i as int), c);
        proof {
            assert(ws.take(i + 1).drop_last() == ws.take(i as int));
            assert(gs.take(i + 1).drop_last() == gs.take(i as int));
            assert(ws.take(i + 1).last() == words@[i as int]@);
            assert(gs.take(i + 1).last() == grammar_of(analyses@[i as int]));
        }
        let take = match &analyses[i] {
            Some(a) => analysis_in_class(a, &c),
            None => false,
        };
        if take {
            let wc = chars_of(words[i].as_str());
            let stripped = strip_marks(&wc);
            let w = string_of(&stripped);
            proof {
                assert(selected(ws.take(i + 1), gs.take(i + 1), c) == sel.push(w@));
                assert(sel.push(w@).drop_last() == sel);
            }
            if !contains_text(&r, &w) {
                r.push(w);
                assert(strs(r@) == strs(before).push(w@));
            }
        } else {
            assert(selected(ws.take(i + 1), gs.take(i + 1), c) == sel);
        }
        i += 1;
    }
    assert(ws.take(words.len() as int) == ws);
    assert(gs.take(words.len() as int) == gs);
    r
}

/// Whether the member is addressed in the feminine.
pub fn speaks_as_woman(analyses: &Vec<Option<Analysis>>) -> (b: bool)
    ensures
        b == addressed_as_woman(grammars(analyses@)),
        b <==> grammars(analyses@).filter(|o: Option<Seq<char>>| is_feminine_past(o)).len()
            >= grammars(analyses@).filter(|o: Option<Seq<char>>| is_other_past(o)).len(),
{
    proof {
        lemma_address_by_past_verbs(grammars(analyses@));
    }
    let ghost gs = grammars(analyses@);
    let mut f: u64 = 0;
    let mut m: u64 = 0;
    let mut i: usize = 0;
    assert(gs.take(0) == Seq::<Option<Seq<char>>>::empty());
    while i < analyses.len()
        invariant
            i <= analyses.len(),
            gs == grammars(analyses@),
            (f as nat, m as nat) == past_counts(gs.take(i as int)),
            f + m <= i,
        decreases analyses.len() - i,
    {
        proof {
            assert(gs.take(i + 1).drop_last() == gs.take(i as int));
            assert(gs.take(i + 1).last() == grammar_of(analyses@[i as int]));
        }
        match &analyses[i] {
            Some(a) => {
                if a.past_verb() {
                    if a.feminine() {
                        f = f + 1;
                    } else {
                        m = m + 1;
                    }
                }
            },
            None => {},
        }
        i += 1;
    }
    assert(gs.take(analyses.len() as int) == gs);
    f >= m
}

/// The openings, as strings.
pub fn opening_list() -> (v: Vec<String>)
    ensures
        strs(v@) == openings(),
{
    let v = vec![
        String::from_str("С новым годом"),
        String::from_str("С НГ тебя"),
        String::from_str("Поздравляю"),
        String::from_str("Поздравляю с НГ"),
    ];
    assert(strs(v@) == openings());
    v
}

/// The fillers, as strings.
pub fn filler_list() -> (v: Vec<String>)
    ensures
        strs(v@) == fillers(),
{
    let v = vec![
        String::from_str("[ДАННЫЕ УДАЛЕНЫ]"),
        String::from_str("[СЕКРЕТНО]"),
        String::from_str("[НЕТ ДАННЫХ]"),
        String::from_str("[ОШИБКА ДОСТУПА]"),
    ];
    assert(strs(v@) == fillers());
    v
}

fn push_taken(out: &mut Vec<char>, list: &Vec<String>, k: usize, filler: &String)
    ensures
        final(out)@ == old(out)@ + taken(strs(list@), k as int, filler@),
{
    if k < list.len() {
        let v = chars_of(list[list.len() - 1 - k].as_str());
        extend_chars(out, &v);
    } else {
        let v = chars_of(filler.as_str());
        extend_chars(out, &v);
    }
}

/// The greeting for the given opening, name, form of address, word lists
/// (taken from the back) and nine fillers.
pub fn compose_greeting(
    opening: &String,
    name: &String,
    fem: bool,
    nouns: &Vec<String>,
    past: &Vec<String>,
    present: &Vec<String>,
    f: &Vec<String>,
) -> (g: String)
    requires
        f.len() == 9,
    ensures
        g@ == trimmed(
            greeting_text(opening@, name@, fem, strs(nouns@), strs(past@), strs(present@), strs(f@)),
        ),
{
    let ghost fs = strs(f@);
    let mut out = chars_of(opening.as_str());
    extend_str(&mut out, " ");
    let nv = chars_of(name.as_str());
    extend_chars(&mut out, &nv);
    extend_str(&mut out, " известн");
    if fem {
        extend_str(&mut out, "ая");
    } else {
        extend_str(&mut out, "ый");
    }
    extend_str(&mut out, " как ");
    push_taken(&mut out, nouns, 0, &f[0]);
    extend_str(&mut out, ", ");
    push_taken(&mut out, nouns, 1, &f[1]);
    extend_str(&mut out, ", а так же конечно ");
    push_taken(&mut out, nouns, 2, &f[2]);
    extend_str(&mut out, ". В прошедшем году ты часто давал");
    if fem {
        extend_str(&mut out, "а");
    }
    extend_str(&mut out, " нам знать, что ты ");
    push_taken(&mut out, past, 0, &f[3]);
    extend_str(&mut out, ", ");
    push_taken(&mut out, past, 1, &f[4]);
    extend_str(&mut out, " и ");
    push_taken(&mut out, past, 2, &f[5]);
    extend_str(&mut out, ". Нередко ты говорил");
    if fem {
        extend_str(&mut out, "а");
    }
    extend_str(&mut out, " я ");
    push_taken(&mut out, present, 0, &f[6]);
    extend_str(&mut out, ", я ");
    push_taken(&mut out, present, 1, &f[7]);
    extend_str(&mut out, " или даже я ");
    push_taken(&mut out, present, 2, &f[8]);
    extend_str(&mut out, ". =*");
    proof {
        assert(fs[0] == f@[0]@);
        assert(fs[8] == f@[8]@);
        let ending: Seq<char> = if fem {
            "а"@
        } else {
            seq![]
        };
        assert(out@ == greeting_text(
            opening@,
            name@,
            fem,
            strs(nouns@),
            strs(past@),
            strs(present@),
            fs,
        )) by {
            if !fem {
                assert(ending == Seq::<char>::empty());
            }
        }
    }
    let t = trim(&out);
    string_of(&t)
}

impl Omedeto {
    /// A greeting for the member named `first_name`, whose "я ..." words
    /// (see `candidate_words`) are `words`; `analyses[i]` is what MyStem
    /// gave for `words[i]`. The opening, the order of each word list and the
    /// fillers are drawn at random.
    pub fn greeting(
        &self,
        first_name: &String,
        words: &Vec<String>,
        analyses: &Vec<Option<Analysis>>,
    ) -> (g: String)
        requires
            words.len() == analyses.len(),
        ensures
            is_greeting_for(g@, first_name@, strs(words@), grammars(analyses@)),
    {
        let ghost ws = strs(words@);
        let ghost gs = grammars(analyses@);
        let fem = speaks_as_woman(analyses);
        let mut nouns = select_words(words, analyses, WordClass::NominativeNoun);
        shuffle(&mut nouns);
        let ghost ns = strs(nouns@);
        if nouns.len() == 0 {
            nouns.push(first_name.clone());
            assert(strs(nouns@) =~= seq![first_name@]);
        }
        let mut past = select_words(words, analyses, WordClass::PastVerb);
        shuffle(&mut past);
        let mut present = select_words(words, analyses, WordClass::PresentFirstPersonVerb);
        shuffle(&mut present);
        let starts = opening_list();
        let opening = match pick_one(&starts) {
            Some(o) => o,
            None => String::new(),
        };
        let pool = filler_list();
        let mut f: Vec<String> = Vec::new();
        let mut k: usize = 0;
        while k < 9
            invariant
                k <= 9,
                f.len() == k,
                strs(pool@) == fillers(),
                forall|j: int| 0 <= j < k ==> fillers().contains(#[trigger] strs(f@)[j]),
            decreases 9 - k,
        {
            let x = match pick_one(&pool) {
                Some(x) => x,
                None => String::new(),
            };
            let ghost before = f@;
            f.push(x);
            assert forall|j: int| 0 <= j < k + 1 implies fillers().contains(
                #[trigger] strs(f@)[j],
            ) by {
                if j < k {
                    assert(strs(f@)[j] == strs(before)[j]);
                }
            }
            k += 1;
        }
        let g = compose_greeting(&opening, first_name, fem, &nouns, &past, &present, &f);
        proof {
            assert(strs(nouns@) == noun_list(ns, first_name@));
            let fs = strs(f@);
            assert(forall|j: int| 0 <= j < 9 ==> fillers().contains(#[trigger] fs[j]));
            assert(openings().contains(opening@));
            assert(g@ == trimmed(
                greeting_text(
                    opening@,
                    first_name@,
                    addressed_as_woman(gs),
                    noun_list(ns, first_name@),
                    strs(past@),
                    strs(present@),
                    fs,
                ),
            ));
        }
        g
    }
}

} // verus!
