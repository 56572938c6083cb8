//! Reading the output of the MyStem morphological analyser (one JSON array
//! per input line, `mystem -d --format json`) and the grammar tags it gives.
use vstd::prelude::*;
use crate::text::{
    chars_of, has_prefix, matches_at, occurs_at, push_char, replace_all, replaced,
    string_of, trim, trimmed,
};

verus! {

/// For one line of MyStem output: `None` where serde_json does not read it
/// as a JSON array; otherwise, for each element of the array, the JSON text
/// of its `analysis[0].lex` and of its `analysis[0].gr` (`null` where absent).
pub uninterp spec fn mystem_fields(line: Seq<char>) -> Option<Seq<(Seq<char>, Seq<char>)>>;

/// The texts held in a list of field pairs.
pub open spec fn fields_view(v: Seq<(String, String)>) -> Seq<(Seq<char>, Seq<char>)> {
    v.map_values(|p: (String, String)| (p.0@, p.1@))
}

/// Reads one line of MyStem output with serde_json (`from_str` into an
/// array of `Value`s, then `analysis[0].lex` and `analysis[0].gr` of each,
/// written back out as JSON). Claimed: the result is `mystem_fields(line)`,
/// a function of the line alone.
#[verifier::external_body]
fn read_mystem_fields(line: &str) -> (r: Option<Vec<(String, String)>>)
    ensures
        match r {
            Some(v) => mystem_fields(line@) == Some(fields_view(v@)),
            None => mystem_fields(line@) is None,
        },
{
    match serde_json::from_str::<Vec<serde_json::Value>>(line) {
        Ok(v) => Some(
            v.iter().map(
                |i| (i["analysis"][0]["lex"].to_string(), i["analysis"][0]["gr"].to_string()),
            ).collect(),
        ),
        Err(_) => None,
    }
}

/// A JSON text with its double quotes taken out.
pub open spec fn unquoted(s: Seq<char>) -> Seq<char> {
    replaced(s, seq!['"'], seq![])
}

/// The lemmas in a list of field pairs: each lemma unquoted, `null` ones left out.
pub open spec fn lemmas_of(fields: Seq<(Seq<char>, Seq<char>)>) -> Seq<Seq<char>>
    decreases fields.len(),
{
    if fields.len() == 0 {
        seq![]
    } else {
        let rest = lemmas_of(fields.drop_last());
        let l = unquoted(fields.last().0);
        if l == "null"@ {
            rest
        } else {
            rest.push(l)
        }
    }
}

/// The lemmas MyStem gave for a line: none where the line is not a JSON array.
pub open spec fn line_lemmas(line: Seq<char>) -> Seq<Seq<char>> {
    match mystem_fields(line) {
        Some(f) => lemmas_of(f),
        None => seq![],
    }
}

/// The line sent to MyStem for a text: the text trimmed, then a line break.
pub open spec fn request_line(text: Seq<char>) -> Seq<char> {
    trimmed(text).push('\n')
}

/// One analysis of a word: its lemma and MyStem's grammar tags, such as
/// `S,жен,неод=им,ед`.
pub struct Analysis {
    pub lemma: String,
    pub grammar: String,
}

/// The analysis MyStem gave for the first word of a line, if any.
pub open spec fn first_analysis_of(fields: Seq<(Seq<char>, Seq<char>)>) -> Option<(Seq<char>, Seq<char>)> {
    if fields.len() == 0 || unquoted(fields[0].0) == "null"@ {
        None
    } else {
        Some((unquoted(fields[0].0), unquoted(fields[0].1)))
    }
}

/// The characters that separate grammar tags.
pub open spec fn is_tag_sep(c: char) -> bool {
    c == ',' || c == '=' || c == '|' || c == '(' || c == ')'
}

/// `tag` stands in `gr` as a whole tag, between separators or the ends.
pub open spec fn has_tag_at(gr: Seq<char>, tag: Seq<char>, i: int) -> bool {
    &&& occurs_at(gr, tag, i)
    &&& (i == 0 || is_tag_sep(gr[i - 1]))
    &&& (i + tag.len() == gr.len() || is_tag_sep(gr[i + tag.len()]))
}

/// `tag` is one of the tags of `gr`.
pub open spec fn has_tag(gr: Seq<char>, tag: Seq<char>) -> bool {
    exists|i: int| has_tag_at(gr, tag, i)
}

/// `tag` is the first tag of `gr` (the part of speech).
pub open spec fn is_pos(gr: Seq<char>, tag: Seq<char>) -> bool {
    has_tag_at(gr, tag, 0)
}

/// A noun in the nominative case.
pub open spec fn is_nominative_noun(gr: Seq<char>) -> bool {
    is_pos(gr, "S"@) && has_tag(gr, "им"@)
}

/// A verb in the past tense.
pub open spec fn is_past_verb(gr: Seq<char>) -> bool {
    is_pos(gr, "V"@) && has_tag(gr, "прош"@)
}

/// A verb in the non-past tense, first person.
pub open spec fn is_present_first_person_verb(gr: Seq<char>) -> bool {
    is_pos(gr, "V"@) && has_tag(gr, "непрош"@) && has_tag(gr, "1-л"@)
}

/// Feminine gender.
pub open spec fn is_feminine(gr: Seq<char>) -> bool {
    has_tag(gr, "жен"@)
}

proof fn lemma_unquoted_clean(s: Seq<char>)
    ensures
        !unquoted(s).contains('"'),
    decreases s.len(),
{
    if s.len() >= 1 {
        lemma_unquoted_clean(s.skip(1));
        if !has_prefix(s, seq!['"']) {
            assert(s.subrange(0, 1) =~= seq![s[0]]);
            let r = seq![s[0]] + unquoted(s.skip(1));
            assert(unquoted(s) == r);
            if r.contains('"') {
                let j = choose|j: int| 0 <= j < r.len() && r[j] == '"';
                if j > 0 {
                    assert(unquoted(s.skip(1))[j - 1] == '"');
                }
            }
        }
    }
}

/// No lemma read from MyStem's output is `null`, and none holds a double
/// quote.
pub proof fn lemma_lemmas_clean(fields: Seq<(Seq<char>, Seq<char>)>)
    ensures
        forall|i: int|
            0 <= i < lemmas_of(fields).len() ==> #[trigger] lemmas_of(fields)[i] != "null"@
                && !lemmas_of(fields)[i].contains('"'),
    decreases fields.len(),
{
    if fields.len() > 0 {
        lemma_lemmas_clean(fields.drop_last());
        lemma_unquoted_clean(fields.last().0);
        let rest = lemmas_of(fields.drop_last());
        assert forall|i: int| 0 <= i < lemmas_of(fields).len() implies #[trigger] lemmas_of(
            fields,
        )[i] != "null"@ && !lemmas_of(fields)[i].contains('"') by {
            if i < rest.len() {
                assert(lemmas_of(fields)[i] == rest[i]);
            }
        }
    }
}

/// The lemmas are exactly the unquoted `lex` fields, in order, with the
/// `null` ones left out: one lemma for each field that is not `null`, so a
/// word used twice gives its lemma twice.
pub proof fn lemma_lemmas_are_fields(fields: Seq<(Seq<char>, Seq<char>)>)
    ensures
        lemmas_of(fields) == fields.map_values(|p: (Seq<char>, Seq<char>)| unquoted(p.0)).filter(
            |l: Seq<char>| l != "null"@,
        ),
        lemmas_of(fields).len() == fields.map_values(
            |p: (Seq<char>, Seq<char>)| unquoted(p.0),
        ).filter(|l: Seq<char>| l != "null"@).len(),
    decreases fields.len(),
{
    reveal(Seq::filter);
    if fields.len() > 0 {
        lemma_lemmas_are_fields(fields.drop_last());
        let m = fields.map_values(|p: (Seq<char>, Seq<char>)| unquoted(p.0));
        assert(m.drop_last() == fields.drop_last().map_values(
            |p: (Seq<char>, Seq<char>)| unquoted(p.0),
        ));
        assert(m.last() == unquoted(fields.last().0));
    }
}

fn is_tag_sep_char(c: char) -> (b: bool)
    ensures
        b == is_tag_sep(c),
{
    c == ',' || c == '=' || c == '|' || c == '(' || c == ')'
}

fn tag_at(gr: &Vec<char>, tag: &Vec<char>, i: usize) -> (b: bool)
    ensures
        b == has_tag_at(gr@, tag@, i as int),
{
    if !matches_at(gr, tag, i) {
        return false;
    }
    let tl = tag.len();
    let gl = gr.len();
    assert(i + tl <= gl);
    let before = i == 0 || is_tag_sep_char(gr[i - 1]);
    let end = i + tl;
    let after = end == gl || is_tag_sep_char(gr[end]);
    before && after
}

/// Whether `tag` is one of the tags of `gr`.
pub fn grammar_has_tag(gr: &str, tag: &str) -> (b: bool)
    ensures
        b == has_tag(gr@, tag@),
{
    let g = chars_of(gr);
    let t = chars_of(tag);
    let mut i: usize = 0;
    while i < g.len()
        invariant
            i <= g.len(),
            g@ == gr@,
            t@ == tag@,
            forall|j: int| 0 <= j < i ==> !has_tag_at(gr@, tag@, j),
        decreases g.len() - i,
    {
        if tag_at(&g, &t, i) {
            return true;
        }
        i += 1;
    }
    if tag_at(&g, &t, i) {
        return true;
    }
    assert forall|j: int| !has_tag_at(gr@, tag@, j) by {
        if j > i {
            assert(!occurs_at(gr@, tag@, j));
        }
    }
    false
}

/// Whether `tag` is the first tag of `gr`.
pub fn grammar_is_pos(gr: &str, tag: &str) -> (b: bool)
    ensures
        b == is_pos(gr@, tag@),
{
    let g = chars_of(gr);
    let t = chars_of(tag);
    tag_at(&g, &t, 0)
}

impl Analysis {
    /// A noun in the nominative case.
    pub fn nominative_noun(&self) -> (b: bool)
        ensures
            b == is_nominative_noun(self.grammar@),
    {
        grammar_is_pos(self.grammar.as_str(), "S") && grammar_has_tag(self.grammar.as_str(), "им")
    }

    /// A verb in the past tense.
    pub fn past_verb(&self) -> (b: bool)
        ensures
            b == is_past_verb(self.grammar@),
    {
        grammar_is_pos(self.grammar.as_str(), "V") && grammar_has_tag(self.grammar.as_str(), "прош")
    }

    /// A verb in the non-past tense, first person.
    pub fn present_first_person_verb(&self) -> (b: bool)
        ensures
            b == is_present_first_person_verb(self.grammar@),
    {
        grammar_is_pos(self.grammar.as_str(), "V") && grammar_has_tag(
            self.grammar.as_str(),
            "непрош",
        ) && grammar_has_tag(self.grammar.as_str(), "1-л")
    }

    /// Feminine gender.
    pub fn feminine(&self) -> (b: bool)
        ensures
            b == is_feminine(self.grammar@),
    {
        grammar_has_tag(self.grammar.as_str(), "жен")
    }
}

fn unquote(s: &String) -> (r: Vec<char>)
    ensures
        r@ == unquoted(s@),
{
    let v = chars_of(s.as_str());
    let q: Vec<char> = vec!['"'];
    let e: Vec<char> = Vec::new();
    assert(q@ == seq!['"']);
    assert(e@ == Seq::<char>::empty());
    replace_all(&v, &q, &e)
}

fn is_null(v: &Vec<char>) -> (b: bool)
    ensures
        b == (v@ == "null"@),
{
    let n = chars_of("null");
    if v.len() != n.len() {
        return false;
    }
    let m = matches_at(v, &n, 0);
    assert(v@.subrange(0, n@.len() as int) == v@);
    m
}

/// The lemmas in a list of field pairs, in order, without `null`s.
pub fn lemmas_from_fields(fields: &Vec<(String, String)>) -> (r: Vec<String>)
    ensures
        r@.map_values(|s: String| s@) == lemmas_of(fields_view(fields@)),
        r@.map_values(|s: String| s@) == fields_view(fields@).map_values(
            |p: (Seq<char>, Seq<char>)| unquoted(p.0),
        ).filter(|l: Seq<char>| l != "null"@),
{
    proof {
        lemma_lemmas_are_fields(fields_view(fields@));
    }
    let mut r: Vec<String> = Vec::new();
    let mut i: usize = 0;
    while i < fields.len()
        invariant
            i <= fields.len(),
            r@.map_values(|s: String| s@) == lemmas_of(fields_view(fields@.take(i as int))),
        decreases fields.len() - i,
    {
        let l = unquote(&fields[i].0);
        let ghost before = r@;
        proof {
            assert(fields_view(fields@.take(i + 1)).drop_last() == fields_view(fields@.take(i as int)));
            assert(fields_view(fields@.take(i + 1)).last() == (fields@[i as int].0@, fields@[i as int].1@));
        }
        if !is_null(&l) {
            r.push(string_of(&l));
            assert(r@.map_values(|s: String| s@) == before.map_values(|s: String| s@).push(l@));
        }
        i += 1;
    }
    assert(fields@.take(fields.len() as int) == fields@);
    r
}

/// The lemmas in one line of MyStem output (what `MyStem::stemming`
/// returns for it): none where the line is not a JSON array.
pub fn lemmas_from_line(line: &str) -> (r: Vec<String>)
    ensures
        r@.map_values(|s: String| s@) == line_lemmas(line@),
{
    match read_mystem_fields(line) {
        Some(f) => lemmas_from_fields(&f),
        None => {
            let r: Vec<String> = Vec::new();
            assert(r@.map_values(|s: String| s@) == Seq::<Seq<char>>::empty());
            r
        },
    }
}

/// The analysis of the first word in a list of field pairs, if any.
pub fn first_analysis_from_fields(fields: &Vec<(String, String)>) -> (r: Option<Analysis>)
    ensures
        match first_analysis_of(fields_view(fields@)) {
            Some((l, g)) => r matches Some(a) && a.lemma@ == l && a.grammar@ == g,
            None => r is None,
        },
{
    if fields.len() == 0 {
        return None;
    }
    let l = unquote(&fields[0].0);
    if is_null(&l) {
        return None;
    }
    let g = unquote(&fields[0].1);
    Some(Analysis { lemma: string_of(&l), grammar: string_of(&g) })
}

/// The analysis MyStem gave for the first word of a line of output, if any.
pub fn first_analysis_from_line(line: &str) -> (r: Option<Analysis>)
    ensures
        match mystem_fields(line@) {
            Some(f) => match first_analysis_of(f) {
                Some((l, g)) => r matches Some(a) && a.lemma@ == l && a.grammar@ == g,
                None => r is None,
            },
            None => r is None,
        },
{
    match read_mystem_fields(line) {
        Some(f) => first_analysis_from_fields(&f),
        None => None,
    }
}

/// The line to send MyStem for a text.
pub fn stem_request(text: &str) -> (line: String)
    ensures
        line@ == request_line(text@),
{
    let v = chars_of(text);
    let t = trim(&v);
    let mut s = string_of(&t);
    push_char(&mut s, '\n');
    s
}

} // verus!
