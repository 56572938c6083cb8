//! Character-level text tools: the string operations the bot's logic is
//! built from, each specified over `Seq<char>`.
use vstd::prelude::*;
use vstd::utf8::*;

verus! {

// ---------------------------------------------------------------------------
// Specifications
// ---------------------------------------------------------------------------

/// `p` occurs in `s` starting at position `i`.
pub open spec fn occurs_at(s: Seq<char>, p: Seq<char>, i: int) -> bool {
    0 <= i && i + p.len() <= s.len() && s.subrange(i, i + p.len()) == p
}

/// `s` starts with `p`.
pub open spec fn has_prefix(s: Seq<char>, p: Seq<char>) -> bool {
    occurs_at(s, p, 0)
}

/// `p` occurs somewhere in `s`.
pub open spec fn occurs_in(s: Seq<char>, p: Seq<char>) -> bool {
    exists|i: int| occurs_at(s, p, i)
}

/// `s` with every occurrence of the non-empty pattern `p` replaced by `r`,
/// occurrences taken from left to right without overlap.
pub open spec fn replaced(s: Seq<char>, p: Seq<char>, r: Seq<char>) -> Seq<char>
    decreases s.len(),
{
    if p.len() == 0 || s.len() < p.len() {
        s
    } else if has_prefix(s, p) {
        r + replaced(s.skip(p.len() as int), p, r)
    } else {
        seq![s[0]] + replaced(s.skip(1), p, r)
    }
}

/// The pieces `ps` glued together with `sep` between neighbours.
pub open spec fn joined(ps: Seq<Seq<char>>, sep: char) -> Seq<char>
    decreases ps.len(),
{
    if ps.len() == 0 {
        seq![]
    } else if ps.len() == 1 {
        ps[0]
    } else {
        joined(ps.drop_last(), sep).push(sep) + ps.last()
    }
}

/// `ps` is what splitting `s` at every `sep` gives: at least one piece, no
/// piece holds `sep`, and gluing the pieces back with `sep` gives `s`.
pub open spec fn is_split_of(ps: Seq<Seq<char>>, s: Seq<char>, sep: char) -> bool {
    &&& ps.len() >= 1
    &&& joined(ps, sep) == s
    &&& forall|k: int| 0 <= k < ps.len() ==> !(#[trigger] ps[k]).contains(sep)
}

/// The text of an optional string.
pub open spec fn opt_text(o: Option<String>) -> Option<Seq<char>> {
    match o {
        Some(s) => Some(s@),
        None => None,
    }
}

/// The texts of a list of strings.
pub open spec fn strs(v: Seq<String>) -> Seq<Seq<char>> {
    v.map_values(|s: String| s@)
}

/// The character sequences held by a list of character vectors.
pub open spec fn views(vs: Seq<Vec<char>>) -> Seq<Seq<char>> {
    vs.map_values(|v: Vec<char>| v@)
}

/// The characters with Unicode's White_Space property.
pub open spec fn is_space(c: char) -> bool {
    let u = c as u32;
    ||| 0x9 <= u <= 0xD
    ||| u == 0x20
    ||| u == 0x85
    ||| u == 0xA0
    ||| u == 0x1680
    ||| 0x2000 <= u <= 0x200A
    ||| u == 0x2028
    ||| u == 0x2029
    ||| u == 0x202F
    ||| u == 0x205F
    ||| u == 0x3000
}

/// `s` without its leading white space.
pub open spec fn trim_start(s: Seq<char>) -> Seq<char>
    decreases s.len(),
{
    if s.len() > 0 && is_space(s[0]) {
        trim_start(s.drop_first())
    } else {
        s
    }
}

/// `s` without its trailing white space.
pub open spec fn trim_end(s: Seq<char>) -> Seq<char>
    decreases s.len(),
{
    if s.len() > 0 && is_space(s.last()) {
        trim_end(s.drop_last())
    } else {
        s
    }
}

/// `s` without leading and trailing white space.
pub open spec fn trimmed(s: Seq<char>) -> Seq<char> {
    trim_end(trim_start(s))
}

/// The decimal digit for `d` (0 to 9).
pub open spec fn digit_char(d: int) -> char {
    ((48 + d) as u8) as char
}

/// The decimal notation of `n`, without leading zeros.
pub open spec fn decimal(n: nat) -> Seq<char>
    decreases n,
{
    if n < 10 {
        seq![digit_char(n as int)]
    } else {
        decimal(n / 10).push(digit_char((n % 10) as int))
    }
}

/// The decimal notation of `i`, with a leading `-` when it is negative.
pub open spec fn signed_decimal(i: int) -> Seq<char> {
    if i < 0 {
        seq!['-'] + decimal((-i) as nat)
    } else {
        decimal(i as nat)
    }
}

/// Number of bytes of `s` in UTF-8.
pub open spec fn utf8_len(s: Seq<char>) -> nat {
    encode_utf8(s).len()
}

/// Number of bytes of `c` in UTF-8.
pub open spec fn char_width(c: char) -> nat {
    let u = c as u32;
    if u < 0x80 {
        1
    } else if u < 0x800 {
        2
    } else if u < 0x10000 {
        3
    } else {
        4
    }
}

/// What std's `str::to_uppercase` gives for `s` (Unicode case mapping).
pub uninterp spec fn uppercase(s: Seq<char>) -> Seq<char>;

// ---------------------------------------------------------------------------
// Lemmas
// ---------------------------------------------------------------------------

pub proof fn lemma_utf8_concat(a: Seq<char>, b: Seq<char>)
    ensures
        encode_utf8(a + b) == encode_utf8(a) + encode_utf8(b),
    decreases a.len(),
{
    if a.len() == 0 {
        assert(a + b == b);
    } else {
        assert((a + b).drop_first() == a.drop_first() + b);
        lemma_utf8_concat(a.drop_first(), b);
    }
}

pub proof fn lemma_char_width(c: char)
    ensures
        encode_utf8(seq![c]).len() == char_width(c),
{
    char_is_scalar(c);
    assert(seq![c].drop_first() == Seq::<char>::empty());
    assert(encode_utf8(Seq::<char>::empty()) == Seq::<u8>::empty());
    assert(encode_utf8(seq![c]) == encode_scalar(c as u32));
}

pub proof fn lemma_utf8_push(s: Seq<char>, c: char)
    ensures
        utf8_len(s.push(c)) == utf8_len(s) + char_width(c),
{
    lemma_utf8_concat(s, seq![c]);
    assert(s.push(c) == s + seq![c]);
    lemma_char_width(c);
}

pub proof fn lemma_utf8_prefix(s: Seq<char>, i: int)
    requires
        0 <= i <= s.len(),
    ensures
        utf8_len(s.take(i)) <= utf8_len(s),
{
    lemma_utf8_concat(s.take(i), s.skip(i));
    assert(s.take(i) + s.skip(i) == s);
}

/// A decimal digit.
pub open spec fn is_digit(c: char) -> bool {
    '0' <= c && c <= '9'
}

/// The number that a string of decimal digits denotes.
pub open spec fn digits_value(s: Seq<char>) -> int
    decreases s.len(),
{
    if s.len() == 0 {
        0
    } else {
        digits_value(s.drop_last()) * 10 + ((s.last() as u32) - 48)
    }
}

proof fn lemma_digit_char(d: int)
    requires
        0 <= d < 10,
    ensures
        digit_char(d) as u32 == 48 + d,
        is_digit(digit_char(d)),
{
    let b: u8 = (48 + d) as u8;
    assert(b as u32 == 48 + d);
}

/// The decimal notation of `n` is a non-empty string of digits that
/// denotes `n`; it has no leading zero.
pub proof fn lemma_decimal_denotes(n: nat)
    ensures
        decimal(n).len() >= 1,
        forall|i: int| 0 <= i < decimal(n).len() ==> is_digit(#[trigger] decimal(n)[i]),
        digits_value(decimal(n)) == n,
        decimal(n).len() > 1 ==> decimal(n)[0] != '0',
    decreases n,
{
    if n < 10 {
        lemma_digit_char(n as int);
        assert(seq![digit_char(n as int)].drop_last() == Seq::<char>::empty());
        assert(digits_value(Seq::<char>::empty()) == 0);
        assert(digits_value(decimal(n)) == digits_value(Seq::<char>::empty()) * 10 + (
        digit_char(n as int) as u32 - 48));
    } else {
        lemma_decimal_denotes(n / 10);
        lemma_digit_char((n % 10) as int);
        let p = decimal(n / 10);
        assert(decimal(n).drop_last() == p);
        assert forall|i: int| 0 <= i < decimal(n).len() implies is_digit(#[trigger] decimal(n)[i]) by {
            if i < p.len() {
                assert(decimal(n)[i] == p[i]);
            }
        }
        if p.len() == 1 {
            assert(digits_value(p) == digits_value(p.drop_last()) * 10 + ((p.last() as u32) - 48));
            assert(p.drop_last().len() == 0);
            assert(p[0] as u32 - 48 == n / 10);
            assert(p[0] != '0');
        }
        assert(decimal(n)[0] == p[0]);
        assert(decimal(n).last() == digit_char((n % 10) as int));
        assert(digits_value(decimal(n)) == digits_value(p) * 10 + (n % 10));
        assert((n / 10) * 10 + n % 10 == n);
    }
}

/// A character takes at most four bytes in UTF-8.
pub proof fn lemma_utf8_at_most_four(s: Seq<char>)
    ensures
        utf8_len(s) <= 4 * s.len(),
    decreases s.len(),
{
    if s.len() > 0 {
        lemma_utf8_at_most_four(s.drop_last());
        lemma_utf8_push(s.drop_last(), s.last());
        assert(s.drop_last().push(s.last()) == s);
    } else {
        assert(encode_utf8(s) == Seq::<u8>::empty());
    }
}

/// ASCII text takes one byte per character.
pub proof fn lemma_utf8_ascii(s: Seq<char>)
    requires
        is_ascii_chars(s),
    ensures
        utf8_len(s) == s.len(),
{
    is_ascii_chars_encode_utf8(s);
}

/// An occurrence inside `b` is an occurrence inside `a + b + c`, shifted
/// by the length of `a`.
pub proof fn lemma_occurs_in_concat(a: Seq<char>, b: Seq<char>, c: Seq<char>, p: Seq<char>, j: int)
    requires
        occurs_at(b, p, j),
    ensures
        occurs_at(a + b + c, p, a.len() + j),
{
    let s = a + b + c;
    assert(s.subrange(a.len() + j, a.len() + j + p.len()) =~= b.subrange(j, j + p.len()));
}

proof fn lemma_joined_push(ps: Seq<Seq<char>>, p: Seq<char>, sep: char)
    requires
        ps.len() >= 1,
    ensures
        joined(ps.push(p), sep) == joined(ps, sep).push(sep) + p,
{
    assert(ps.push(p).drop_last() == ps);
}

// ---------------------------------------------------------------------------
// Executable operations
// ---------------------------------------------------------------------------

/// Appends one character to a string (std's `String::push`).
/// Claimed: the string afterwards is the old one followed by `c`.
#[verifier::external_body]
pub(crate) fn push_char(s: &mut String, c: char)
    ensures
        final(s)@ == old(s)@.push(c),
{
    s.push(c);
}

/// std's `str::to_uppercase`. Claimed: the result is `uppercase(s)`, a
/// function of `s` alone; what Unicode's case mapping gives is left unsaid.
#[verifier::external_body]
pub(crate) fn to_uppercase(s: &str) -> (r: String)
    ensures
        r@ == uppercase(s@),
{
    s.to_uppercase()
}

/// The characters of a string, in order.
pub fn chars_of(s: &str) -> (v: Vec<char>)
    ensures
        v@ == s@,
{
    let mut v: Vec<char> = Vec::new();
    for c in it: s.chars()
        invariant
            v@ == it.seq().take(it.index() as int),
            it.seq() == s@,
    {
        v.push(c);
    }
    v
}

/// A string made of the given characters.
pub fn string_of(cs: &Vec<char>) -> (s: String)
    ensures
        s@ == cs@,
{
    let mut s = String::new();
    let mut i: usize = 0;
    while i < cs.len()
        invariant
            i <= cs.len(),
            s@ == cs@.take(i as int),
        decreases cs.len() - i,
    {
        push_char(&mut s, cs[i]);
        assert(cs@.take(i + 1) == cs@.take(i as int).push(cs@[i as int]));
        i += 1;
    }
    assert(cs@.take(cs.len() as int) == cs@);
    s
}

/// Appends the characters of `t` to `out`.
pub fn extend_chars(out: &mut Vec<char>, t: &Vec<char>)
    ensures
        final(out)@ == old(out)@ + t@,
{
    let mut i: usize = 0;
    while i < t.len()
        invariant
            i <= t.len(),
            out@ == old(out)@ + t@.take(i as int),
        decreases t.len() - i,
    {
        out.push(t[i]);
        assert(t@.take(i + 1) == t@.take(i as int).push(t@[i as int]));
        i += 1;
    }
    assert(t@.take(t.len() as int) == t@);
}

/// Appends the characters of `t` to `out`.
pub fn extend_str(out: &mut Vec<char>, t: &str)
    ensures
        final(out)@ == old(out)@ + t@,
{
    let v = chars_of(t);
    extend_chars(out, &v);
}

/// Whether `p` occurs in `s` at position `i`.
pub fn matches_at(s: &Vec<char>, p: &Vec<char>, i: usize) -> (b: bool)
    ensures
        b == occurs_at(s@, p@, i as int),
{
    if i > s.len() || p.len() > s.len() - i {
        return false;
    }
    let mut k: usize = 0;
    while k < p.len()
        invariant
            i + p.len() <= s.len(),
            k <= p.len(),
            forall|j: int| 0 <= j < k ==> s@[i + j] == p@[j],
        decreases p.len() - k,
    {
        if s[i + k] != p[k] {
            assert(s@.subrange(i as int, i + p.len())[k as int] != p@[k as int]);
            return false;
        }
        k += 1;
    }
    assert(s@.subrange(i as int, i + p.len()) =~= p@);
    true
}

/// Whether `s` starts with `p`.
pub fn starts_with(s: &Vec<char>, p: &Vec<char>) -> (b: bool)
    ensures
        b == has_prefix(s@, p@),
{
    matches_at(s, p, 0)
}

/// Whether `p` occurs anywhere in `s`.
pub fn contains(s: &Vec<char>, p: &Vec<char>) -> (b: bool)
    ensures
        b == occurs_in(s@, p@),
{
    let mut i: usize = 0;
    while i < s.len()
        invariant
            i <= s.len(),
            forall|j: int| 0 <= j < i ==> !occurs_at(s@, p@, j),
        decreases s.len() - i,
    {
        if matches_at(s, p, i) {
            return true;
        }
        i += 1;
    }
    if matches_at(s, p, i) {
        return true;
    }
    assert forall|j: int| !occurs_at(s@, p@, j) by {
        if 0 <= j && j > i {
            assert(j + p@.len() > s@.len());
        }
    }
    false
}

/// `s` with every occurrence of `p` replaced by `r` (std's `str::replace`).
pub fn replace_all(s: &Vec<char>, p: &Vec<char>, r: &Vec<char>) -> (out: Vec<char>)
    requires
        p.len() > 0,
    ensures
        out@ == replaced(s@, p@, r@),
{
    let mut out: Vec<char> = Vec::new();
    let mut i: usize = 0;
    assert(s@.skip(0) == s@);
    while i < s.len()
        invariant
            i <= s.len(),
            p.len() > 0,
            out@ + replaced(s@.skip(i as int), p@, r@) == replaced(s@, p@, r@),
        decreases s.len() - i,
    {
        let ghost rest = s@.skip(i as int);
        if matches_at(s, p, i) {
            assert(rest.subrange(0, p@.len() as int) == s@.subrange(i as int, i + p@.len()));
            assert(has_prefix(rest, p@));
            assert(rest.skip(p@.len() as int) == s@.skip(i + p@.len()));
            extend_chars(&mut out, r);
            i += p.len();
        } else {
            proof {
                if rest.len() >= p@.len() {
                    assert(rest.subrange(0, p@.len() as int) == s@.subrange(
                        i as int,
                        i + p@.len(),
                    ));
                    assert(!has_prefix(rest, p@));
                } else {
                    assert(replaced(rest.skip(1), p@, r@) == rest.skip(1));
                    assert(seq![rest[0]] + rest.skip(1) == rest);
                }
                assert(rest.skip(1) == s@.skip(i + 1));
                assert(out@.push(s@[i as int]) + replaced(s@.skip(i + 1), p@, r@) == out@ + (seq![
                    rest[0],
                ] + replaced(rest.skip(1), p@, r@)));
            }
            out.push(s[i]);
            i += 1;
        }
    }
    assert(s@.skip(i as int) == Seq::<char>::empty());
    out
}

/// The pieces of `s` between occurrences of `sep` (std's `str::split` with
/// a character pattern).
pub fn split_on(s: &Vec<char>, sep: char) -> (ps: Vec<Vec<char>>)
    ensures
        is_split_of(views(ps@), s@, sep),
{
    let mut ps: Vec<Vec<char>> = Vec::new();
    let mut cur: Vec<char> = Vec::new();
    let mut i: usize = 0;
    proof {
        assert(views(ps@).push(cur@) =~= seq![Seq::<char>::empty()]);
        assert(s@.take(0) =~= Seq::<char>::empty());
    }
    while i < s.len()
        invariant
            i <= s.len(),
            is_split_of(views(ps@).push(cur@), s@.take(i as int), sep),
        decreases s.len() - i,
    {
        let ghost before = views(ps@).push(cur@);
        if s[i] == sep {
            let done = cur;
            cur = Vec::new();
            ps.push(done);
            proof {
                assert(views(ps@) =~= before);
                lemma_joined_push(before, seq![], sep);
                assert(s@.take(i + 1) == s@.take(i as int).push(sep));
                assert(joined(before, sep).push(sep) + Seq::<char>::empty() == joined(before, sep).push(sep));
                assert forall|k: int| 0 <= k < before.push(seq![]).len() implies !(#[trigger] before.push(seq![])[k]).contains(sep) by {
                    if k < before.len() {
                        assert(before.push(seq![])[k] == before[k]);
                    }
                }
                assert(views(ps@).push(cur@) =~= before.push(seq![]));
            }
            i += 1;
        } else {
            let c = s[i];
            cur.push(c);
            proof {
                let after = views(ps@).push(cur@);
                assert(after =~= before.drop_last().push(cur@));
                assert(s@.take(i + 1) == s@.take(i as int).push(c));
                if before.len() == 1 {
                    assert(joined(after, sep) == after[0]);
                } else {
                    assert(after.drop_last() == before.drop_last());
                    assert(joined(after, sep) == joined(before.drop_last(), sep).push(sep) + cur@);
                    assert(joined(before, sep) == joined(before.drop_last(), sep).push(sep) + before.last());
                }
                assert forall|k: int| 0 <= k < after.len() implies !(#[trigger] after[k]).contains(sep) by {
                    if k < after.len() - 1 {
                        assert(after[k] == before[k]);
                    } else {
                        assert(before[k] == cur@.drop_last());
                        if cur@.contains(sep) {
                            let j = choose|j: int| 0 <= j < cur@.len() && cur@[j] == sep;
                            if j < cur@.len() - 1 {
                                assert(before[k][j] == sep);
                            }
                        }
                    }
                }
            }
            i += 1;
        }
    }
    assert(s@.take(s.len() as int) == s@);
    let ghost before = views(ps@).push(cur@);
    ps.push(cur);
    assert(views(ps@) =~= before);
    ps
}

proof fn lemma_last_piece(a1: Seq<char>, l1: Seq<char>, a2: Seq<char>, l2: Seq<char>, sep: char)
    requires
        a1.push(sep) + l1 == a2.push(sep) + l2,
        !l1.contains(sep),
        !l2.contains(sep),
    ensures
        a1 == a2,
        l1 == l2,
{
    let s1 = a1.push(sep) + l1;
    let s2 = a2.push(sep) + l2;
    assert(s1 == s2);
    assert(s1.len() == a1.len() + 1 + l1.len());
    assert(s2.len() == a2.len() + 1 + l2.len());
    if a1.len() < a2.len() {
        let j = a2.len() - a1.len() - 1;
        assert(s2[a2.len() as int] == sep);
        assert(0 <= j < l1.len());
        assert(s1[a2.len() as int] == l1[j]);
        assert(l1.contains(sep));
    } else if a2.len() < a1.len() {
        let j = a1.len() - a2.len() - 1;
        assert(s1[a1.len() as int] == sep);
        assert(0 <= j < l2.len());
        assert(s2[a1.len() as int] == l2[j]);
        assert(l2.contains(sep));
    }
    assert(a1.len() == a2.len());
    assert(a1 =~= a2) by {
        assert forall|i: int| 0 <= i < a1.len() implies a1[i] == a2[i] by {
            assert(s1[i] == a1[i]);
            assert(s2[i] == a2[i]);
        }
    }
    assert(l1 =~= l2) by {
        assert forall|i: int| 0 <= i < l1.len() implies l1[i] == l2[i] by {
            assert(s1[a1.len() + 1 + i] == l1[i]);
            assert(s2[a1.len() + 1 + i] == l2[i]);
        }
    }
}

proof fn lemma_no_sep_single(ps: Seq<Seq<char>>, sep: char)
    requires
        ps.len() >= 2,
        forall|k: int| 0 <= k < ps.len() ==> !(#[trigger] ps[k]).contains(sep),
    ensures
        joined(ps, sep).contains(sep),
{
    let a = joined(ps.drop_last(), sep);
    assert(joined(ps, sep)[a.len() as int] == sep);
}

/// Splitting is deterministic: a text has exactly one split at a given
/// separator.
pub proof fn lemma_split_unique(ps: Seq<Seq<char>>, qs: Seq<Seq<char>>, s: Seq<char>, sep: char)
    requires
        is_split_of(ps, s, sep),
        is_split_of(qs, s, sep),
    ensures
        ps == qs,
    decreases ps.len(),
{
    if ps.len() == 1 && qs.len() == 1 {
        assert(ps =~= qs);
    } else if ps.len() == 1 {
        lemma_no_sep_single(qs, sep);
        assert(ps[0] == s);
        assert(!ps[0].contains(sep));
    } else if qs.len() == 1 {
        lemma_no_sep_single(ps, sep);
        assert(qs[0] == s);
        assert(!qs[0].contains(sep));
    } else {
        let pa = ps.drop_last();
        let qa = qs.drop_last();
        assert(!ps.last().contains(sep));
        assert(!qs.last().contains(sep));
        lemma_last_piece(joined(pa, sep), ps.last(), joined(qa, sep), qs.last(), sep);
        assert forall|k: int| 0 <= k < pa.len() implies !(#[trigger] pa[k]).contains(sep) by {
            assert(pa[k] == ps[k]);
        }
        assert forall|k: int| 0 <= k < qa.len() implies !(#[trigger] qa[k]).contains(sep) by {
            assert(qa[k] == qs[k]);
        }
        lemma_split_unique(pa, qa, joined(pa, sep), sep);
        assert(ps =~= qs) by {
            assert(ps == pa.push(ps.last()));
            assert(qs == qa.push(qs.last()));
        }
    }
}

proof fn lemma_trim_start_shape(s: Seq<char>)
    ensures
        trim_start(s).len() <= s.len(),
        trim_start(s) == s.skip(s.len() - trim_start(s).len()),
        trim_start(s).len() > 0 ==> !is_space(trim_start(s)[0]),
    decreases s.len(),
{
    if s.len() > 0 && is_space(s[0]) {
        lemma_trim_start_shape(s.drop_first());
        let t = trim_start(s);
        assert(s.drop_first().skip(s.drop_first().len() - t.len()) == s.skip(s.len() - t.len()));
    } else {
        assert(s.skip(0) == s);
    }
}

proof fn lemma_trim_end_shape(s: Seq<char>)
    ensures
        trim_end(s).len() <= s.len(),
        trim_end(s) == s.take(trim_end(s).len() as int),
        trim_end(s).len() > 0 ==> !is_space(trim_end(s).last()),
    decreases s.len(),
{
    if s.len() > 0 && is_space(s.last()) {
        lemma_trim_end_shape(s.drop_last());
        let t = trim_end(s);
        assert(s.drop_last().take(t.len() as int) == s.take(t.len() as int));
    } else {
        assert(s.take(s.len() as int) == s);
    }
}

/// Trimming leaves no white space at either end, takes no character that
/// was not there, and trimming again changes nothing.
pub proof fn lemma_trimmed(s: Seq<char>, c: char)
    ensures
        trimmed(s).len() > 0 ==> !is_space(trimmed(s)[0]) && !is_space(trimmed(s).last()),
        !s.contains(c) ==> !trimmed(s).contains(c),
        trimmed(trimmed(s)) == trimmed(s),
{
    let u = trim_start(s);
    let t = trim_end(u);
    lemma_trim_start_shape(s);
    lemma_trim_end_shape(u);
    let a = s.len() - u.len();
    assert forall|i: int| 0 <= i < t.len() implies t[i] == s[a + i] by {
        assert(t[i] == u[i]);
        assert(u[i] == s[a + i]);
    }
    if t.len() > 0 {
        assert(t[0] == u[0]);
        assert(trim_start(t) == t);
        assert(trim_end(t) == t);
    } else {
        assert(trim_start(t) == t);
        assert(trim_end(t) == t);
    }
    if !s.contains(c) && t.contains(c) {
        let i = choose|i: int| 0 <= i < t.len() && t[i] == c;
        assert(s[a + i] == c);
    }
}

/// Whether `c` is white space (std's `char::is_whitespace`).
pub fn is_space_char(c: char) -> (b: bool)
    ensures
        b == is_space(c),
{
    let u = c as u32;
    (0x9 <= u && u <= 0xD) || u == 0x20 || u == 0x85 || u == 0xA0 || u == 0x1680 || (0x2000 <= u
        && u <= 0x200A) || u == 0x2028 || u == 0x2029 || u == 0x202F || u == 0x205F || u == 0x3000
}

proof fn lemma_trim_start_skip(s: Seq<char>, a: int)
    requires
        0 <= a <= s.len(),
        forall|j: int| 0 <= j < a ==> is_space(#[trigger] s[j]),
    ensures
        trim_start(s) == trim_start(s.skip(a)),
    decreases a,
{
    if a > 0 {
        assert(s.drop_first().skip(a - 1) == s.skip(a));
        lemma_trim_start_skip(s.drop_first(), a - 1);
    } else {
        assert(s.skip(0) == s);
    }
}

proof fn lemma_trim_end_take(s: Seq<char>, b: int)
    requires
        0 <= b <= s.len(),
        forall|j: int| b <= j < s.len() ==> is_space(#[trigger] s[j]),
    ensures
        trim_end(s) == trim_end(s.take(b)),
    decreases s.len() - b,
{
    if b < s.len() {
        assert(s.drop_last().take(b) == s.take(b));
        lemma_trim_end_take(s.drop_last(), b);
    } else {
        assert(s.take(b) == s);
    }
}

/// `s` without leading and trailing white space (std's `str::trim`).
pub fn trim(s: &Vec<char>) -> (t: Vec<char>)
    ensures
        t@ == trimmed(s@),
{
    let mut a: usize = 0;
    while a < s.len() && is_space_char(s[a])
        invariant
            a <= s.len(),
            forall|j: int| 0 <= j < a ==> is_space(#[trigger] s@[j]),
        decreases s.len() - a,
    {
        a += 1;
    }
    proof {
        lemma_trim_start_skip(s@, a as int);
    }
    let ghost mid = s@.skip(a as int);
    let mut b: usize = s.len();
    while b > a && is_space_char(s[b - 1])
        invariant
            a <= b <= s.len(),
            forall|j: int| b <= j < s.len() ==> is_space(#[trigger] s@[j]),
        decreases b,
    {
        b -= 1;
    }
    proof {
        assert forall|j: int| b - a <= j < mid.len() implies is_space(#[trigger] mid[j]) by {
            assert(mid[j] == s@[a + j]);
        }
        lemma_trim_end_take(mid, b - a);
        assert(mid.take(b - a) == s@.subrange(a as int, b as int));
        if b > a {
            assert(!is_space(mid[0]));
            assert(trim_start(mid) == mid);
        } else {
            assert(mid.take(0) == Seq::<char>::empty());
        }
    }
    let mut t: Vec<char> = Vec::new();
    let mut k: usize = a;
    while k < b
        invariant
            a <= k <= b <= s.len(),
            t@ == s@.subrange(a as int, k as int),
        decreases b - k,
    {
        t.push(s[k]);
        assert(s@.subrange(a as int, k + 1) == s@.subrange(a as int, k as int).push(s@[k as int]));
        k += 1;
    }
    proof {
        if b == a {
            assert(trim_end(Seq::<char>::empty()) == Seq::<char>::empty());
            if a < s.len() {
                assert(!is_space(s@[a as int]));
                assert(false);
            }
        }
    }
    t
}

fn push_decimal(out: &mut Vec<char>, n: u64)
    ensures
        final(out)@ == old(out)@ + decimal(n as nat),
    decreases n,
{
    if n >= 10 {
        push_decimal(out, n / 10);
    }
    let d: u8 = (n % 10) as u8;
    out.push((48 + d) as char);
    proof {
        if n < 10 {
            assert(old(out)@.push(digit_char(n as int)) == old(out)@ + seq![digit_char(n as int)]);
        } else {
            assert((old(out)@ + decimal((n / 10) as nat)).push(digit_char((n % 10) as int)) == old(
                out,
            )@ + decimal((n / 10) as nat).push(digit_char((n % 10) as int)));
        }
    }
}

/// The decimal notation of an unsigned number (std's `u64::to_string`).
pub fn u64_decimal(n: u64) -> (v: Vec<char>)
    ensures
        v@ == decimal(n as nat),
{
    let mut v: Vec<char> = Vec::new();
    push_decimal(&mut v, n);
    assert(Seq::<char>::empty() + decimal(n as nat) == decimal(n as nat));
    v
}

/// The decimal notation of a signed number (std's `i64::to_string`).
pub fn i64_decimal(n: i64) -> (v: Vec<char>)
    ensures
        v@ == signed_decimal(n as int),
{
    let mut v: Vec<char> = Vec::new();
    if n < 0 {
        v.push('-');
        let m: u64 = (0 - (n as i128)) as u64;
        push_decimal(&mut v, m);
    } else {
        push_decimal(&mut v, n as u64);
        assert(Seq::<char>::empty() + decimal(n as nat) == decimal(n as nat));
    }
    v
}

/// Whether `s` takes more than `limit` bytes in UTF-8 (std's `str::len`
/// compared with `limit`).
pub fn utf8_len_exceeds(s: &Vec<char>, limit: u32) -> (b: bool)
    ensures
        b == (utf8_len(s@) > limit),
{
    let mut total: u64 = 0;
    let mut i: usize = 0;
    while i < s.len()
        invariant
            i <= s.len(),
            total == utf8_len(s@.take(i as int)),
            total <= limit,
        decreases s.len() - i,
    {
        let u = s[i] as u32;
        let w: u64 = if u < 0x80 {
            1
        } else if u < 0x800 {
            2
        } else if u < 0x10000 {
            3
        } else {
            4
        };
        proof {
            lemma_utf8_push(s@.take(i as int), s@[i as int]);
            assert(s@.take(i + 1) == s@.take(i as int).push(s@[i as int]));
        }
        total = total + w;
        i += 1;
        if total > limit as u64 {
            proof {
                lemma_utf8_prefix(s@, i as int);
            }
            return true;
        }
    }
    assert(s@.take(s.len() as int) == s@);
    false
}

} // verus!
