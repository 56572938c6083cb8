//! The replies of `/here` (a mention of every member) and `/top` (a
//! member's most used words), and the names given to chats.
use vstd::prelude::*;
use crate::text::{
    chars_of, decimal, extend_chars, extend_str, i64_decimal, lemma_occurs_in_concat, occurs_at,
    occurs_in, signed_decimal, string_of, u64_decimal,
};

verus! {

/// The `/here` command.
pub struct Here {
    pub data: String,
}

/// The `/top` command.
pub struct Top {
    pub data: String,
}

/// A member of a chat.
pub struct Member {
    pub id: i64,
    pub username: Option<String>,
    pub first_name: String,
    pub last_name: Option<String>,
}

/// A word and how often a member used it.
pub struct TopWord {
    pub word: String,
    pub count: i32,
}

/// The kind of a chat, with the title of a group.
pub enum ChatKind {
    Supergroup(String),
    Group(String),
    Private,
    Other,
}

/// How one character is written in HTML text.
pub open spec fn html_char(c: char) -> Seq<char> {
    if c == '&' {
        "&amp;"@
    } else if c == '<' {
        "&lt;"@
    } else if c == '>' {
        "&gt;"@
    } else {
        seq![c]
    }
}

/// `s` written as HTML text: `&`, `<` and `>` escaped.
pub open spec fn html_text(s: Seq<char>) -> Seq<char>
    decreases s.len(),
{
    if s.len() == 0 {
        seq![]
    } else {
        html_text(s.drop_last()) + html_char(s.last())
    }
}

/// How a member is mentioned: by `@username`, or else by a link to their
/// id that shows their first name.
pub open spec fn mention(m: Member) -> Seq<char> {
    match m.username {
        Some(u) => "@"@ + u@,
        None => "<a href=\"tg://user?id="@ + html_text(signed_decimal(m.id as int)) + "\">"@
            + html_text(m.first_name@) + "</a>"@,
    }
}

/// The mentions of `ms`, each after a space.
pub open spec fn mentions(ms: Seq<Member>) -> Seq<char>
    decreases ms.len(),
{
    if ms.len() == 0 {
        seq![]
    } else {
        mentions(ms.drop_last()) + " "@ + mention(ms.last())
    }
}

/// The `/here` reply.
pub open spec fn here_text(ms: Seq<Member>) -> Seq<char> {
    "<b>I summon you</b>, "@ + mentions(ms)
}

/// The line of the `k`-th word (counted from 1).
pub open spec fn top_line(k: nat, w: TopWord) -> Seq<char> {
    " <b>"@ + decimal(k) + "</b> "@ + w.word@ + " - "@ + signed_decimal(w.count as int) + "\n"@
}

/// The lines of the words of `ws`.
pub open spec fn top_lines(ws: Seq<TopWord>) -> Seq<char>
    decreases ws.len(),
{
    if ws.len() == 0 {
        seq![]
    } else {
        top_lines(ws.drop_last()) + top_line(ws.len(), ws.last())
    }
}

/// The `/top` reply.
pub open spec fn top_text(ws: Seq<TopWord>) -> Seq<char> {
    "<b>Your top using words:</b>\n<pre>"@ + top_lines(ws) + "</pre>"@
}

/// The name given to a chat: a group's title, `PRIVATE` for anything else.
pub open spec fn chat_name(k: ChatKind) -> Seq<char> {
    match k {
        ChatKind::Supergroup(t) => t@,
        ChatKind::Group(t) => t@,
        _ => "PRIVATE"@,
    }
}

/// Text written as HTML holds no `<` and no `>`: no tag can be slipped in.
pub proof fn lemma_html_text_inert(s: Seq<char>)
    ensures
        !html_text(s).contains('<'),
        !html_text(s).contains('>'),
    decreases s.len(),
{
    if s.len() > 0 {
        lemma_html_text_inert(s.drop_last());
        reveal_strlit("&amp;");
        reveal_strlit("&lt;");
        reveal_strlit("&gt;");
        let a = html_text(s.drop_last());
        let b = html_char(s.last());
        assert(!b.contains('<') && !b.contains('>'));
        assert forall|j: int| 0 <= j < (a + b).len() implies (a + b)[j] != '<' && (a + b)[j] != '>' by {
            if j < a.len() {
                assert((a + b)[j] == a[j]);
            } else {
                assert((a + b)[j] == b[j - a.len()]);
            }
        }
    }
}

/// Every member is mentioned in the `/here` reply.
pub proof fn lemma_every_member_mentioned(ms: Seq<Member>, i: int)
    requires
        0 <= i < ms.len(),
    ensures
        occurs_in(here_text(ms), mention(ms[i])),
{
    lemma_mentioned_in(ms, i);
    let j = choose|j: int| occurs_at(mentions(ms), mention(ms[i]), j);
    lemma_occurs_in_concat("<b>I summon you</b>, "@, mentions(ms), seq![], mention(ms[i]), j);
    assert("<b>I summon you</b>, "@ + mentions(ms) + Seq::<char>::empty() == here_text(ms));
}

proof fn lemma_mentioned_in(ms: Seq<Member>, i: int)
    requires
        0 <= i < ms.len(),
    ensures
        occurs_in(mentions(ms), mention(ms[i])),
    decreases ms.len(),
{
    let prefix = mentions(ms.drop_last()) + " "@;
    let m = mention(ms[i]);
    if i == ms.len() - 1 {
        assert(occurs_at(m, m, 0)) by {
            assert(m.subrange(0, m.len() as int) =~= m);
        }
        lemma_occurs_in_concat(prefix, m, seq![], m, 0);
        assert(prefix + m + Seq::<char>::empty() == mentions(ms));
    } else {
        lemma_mentioned_in(ms.drop_last(), i);
        assert(ms.drop_last()[i] == ms[i]);
        let j = choose|j: int| occurs_at(mentions(ms.drop_last()), m, j);
        lemma_occurs_in_concat(seq![], mentions(ms.drop_last()), " "@ + mention(ms.last()), m, j);
        assert(Seq::<char>::empty() + mentions(ms.drop_last()) + (" "@ + mention(ms.last()))
            == mentions(ms));
    }
}

proof fn lemma_line_in_lines(ws: Seq<TopWord>, k: int)
    requires
        1 <= k <= ws.len(),
    ensures
        occurs_in(
            top_lines(ws),
            " <b>"@ + decimal(k as nat) + "</b> "@ + ws[k - 1].word@ + " - "@ + signed_decimal(
                ws[k - 1].count as int,
            ) + "\n"@,
        ),
    decreases ws.len(),
{
    let line = " <b>"@ + decimal(k as nat) + "</b> "@ + ws[k - 1].word@ + " - "@ + signed_decimal(
        ws[k - 1].count as int,
    ) + "\n"@;
    let pre = top_lines(ws.drop_last());
    if k == ws.len() {
        assert(top_line(ws.len(), ws.last()) == line);
        assert(occurs_at(line, line, 0)) by {
            assert(line.subrange(0, line.len() as int) =~= line);
        }
        lemma_occurs_in_concat(pre, line, seq![], line, 0);
        assert(pre + line + Seq::<char>::empty() == top_lines(ws));
    } else {
        lemma_line_in_lines(ws.drop_last(), k);
        assert(ws.drop_last()[k - 1] == ws[k - 1]);
        let j = choose|j: int| occurs_at(pre, line, j);
        lemma_occurs_in_concat(seq![], pre, top_line(ws.len(), ws.last()), line, j);
        assert(Seq::<char>::empty() + pre + top_line(ws.len(), ws.last()) == top_lines(ws));
    }
}

/// The `/top` reply holds, for the `k`-th word (counted from 1), the line
/// " <b>", `k` in decimal digits, "</b> ", the word, " - ", its count and
/// a line break.
pub proof fn lemma_top_kth_line(ws: Seq<TopWord>, k: int)
    requires
        1 <= k <= ws.len(),
    ensures
        occurs_in(
            top_text(ws),
            " <b>"@ + decimal(k as nat) + "</b> "@ + ws[k - 1].word@ + " - "@ + signed_decimal(
                ws[k - 1].count as int,
            ) + "\n"@,
        ),
{
    let line = " <b>"@ + decimal(k as nat) + "</b> "@ + ws[k - 1].word@ + " - "@ + signed_decimal(
        ws[k - 1].count as int,
    ) + "\n"@;
    lemma_line_in_lines(ws, k);
    let j = choose|j: int| occurs_at(top_lines(ws), line, j);
    lemma_occurs_in_concat(
        "<b>Your top using words:</b>\n<pre>"@,
        top_lines(ws),
        "</pre>"@,
        line,
        j,
    );
}

/// html_escape's `encode_text`. Claimed: `&`, `<` and `>` are replaced by
/// `&amp;`, `&lt;` and `&gt;`, every other character is kept.
#[verifier::external_body]
fn encode_text(s: &str) -> (r: String)
    ensures
        r@ == html_text(s@),
{
    html_escape::encode_text(s).into_owned()
}

fn push_mention(out: &mut Vec<char>, m: &Member)
    ensures
        final(out)@ == old(out)@ + " "@ + mention(*m),
{
    extend_str(out, " ");
    match &m.username {
        Some(u) => {
            extend_str(out, "@");
            let v = chars_of(u.as_str());
            extend_chars(out, &v);
        },
        None => {
            extend_str(out, "<a href=\"tg://user?id=");
            let id = string_of(&i64_decimal(m.id));
            let e = encode_text(id.as_str());
            extend_chars(out, &chars_of(e.as_str()));
            extend_str(out, "\">");
            let n = encode_text(m.first_name.as_str());
            extend_chars(out, &chars_of(n.as_str()));
            extend_str(out, "</a>");
        },
    }
}

impl Here {
    /// The `/here` reply for the members of a chat, in the order given.
    pub fn reply(&self, members: &Vec<Member>) -> (r: String)
        ensures
            r@ == here_text(members@),
    {
        let mut out = chars_of("<b>I summon you</b>, ");
        let mut i: usize = 0;
        assert(members@.take(0) == Seq::<Member>::empty());
        assert(out@ + Seq::<char>::empty() == out@);
        while i < members.len()
            invariant
                i <= members.len(),
                out@ == "<b>I summon you</b>, "@ + mentions(members@.take(i as int)),
            decreases members.len() - i,
        {
            proof {
                assert(members@.take(i + 1).drop_last() == members@.take(i as int));
                assert(members@.take(i + 1).last() == members@[i as int]);
            }
            push_mention(&mut out, &members[i]);
            i += 1;
        }
        assert(members@.take(members.len() as int) == members@);
        string_of(&out)
    }
}

impl Top {
    /// The `/top` reply for a member's words, in the order given.
    pub fn reply(&self, words: &Vec<TopWord>) -> (r: String)
        ensures
            r@ == top_text(words@),
            forall|i: int|
                0 <= i < words.len() ==> occurs_in(
                    r@,
                    " <b>"@ + decimal((i + 1) as nat) + "</b> "@ + (#[trigger] words@[i]).word@
                        + " - "@ + signed_decimal(words@[i].count as int) + "\n"@,
                ),
    {
        let mut out = chars_of("<b>Your top using words:</b>\n<pre>");
        let ghost head = out@;
        let mut i: usize = 0;
        assert(words@.take(0) == Seq::<TopWord>::empty());
        assert(out@ + Seq::<char>::empty() == out@);
        while i < words.len()
            invariant
                i <= words.len(),
                head == "<b>Your top using words:</b>\n<pre>"@,
                out@ == head + top_lines(words@.take(i as int)),
            decreases words.len() - i,
        {
            proof {
                assert(words@.take(i + 1).drop_last() == words@.take(i as int));
                assert(words@.take(i + 1).last() == words@[i as int]);
            }
            extend_str(&mut out, " <b>");
            let k = u64_decimal((i + 1) as u64);
            extend_chars(&mut out, &k);
            extend_str(&mut out, "</b> ");
            extend_chars(&mut out, &chars_of(words[i].word.as_str()));
            extend_str(&mut out, " - ");
            extend_chars(&mut out, &i64_decimal(words[i].count as i64));
            extend_str(&mut out, "\n");
            i += 1;
        }
        assert(words@.take(words.len() as int) == words@);
        extend_str(&mut out, "</pre>");
        proof {
            assert forall|i: int| 0 <= i < words.len() implies occurs_in(
                top_text(words@),
                " <b>"@ + decimal((i + 1) as nat) + "</b> "@ + (#[trigger] words@[i]).word@
                    + " - "@ + signed_decimal(words@[i].count as int) + "\n"@,
            ) by {
                lemma_top_kth_line(words@, i + 1);
            }
        }
        string_of(&out)
    }
}

/// The name given to a chat.
pub fn chat_title(kind: &ChatKind) -> (t: String)
    ensures
        t@ == chat_name(*kind),
{
    match kind {
        ChatKind::Supergroup(t) => t.clone(),
        ChatKind::Group(t) => t.clone(),
        _ => String::from_str("PRIVATE"),
    }
}

} // verus!
