//! What the bot does with an incoming message: which command a text asks
//! for, which media are saved, and how highlighted code is delivered.
use vstd::prelude::*;
use crate::text::{
    chars_of, contains, has_prefix, occurs_in, replace_all, replaced, starts_with, string_of,
};

verus! {

/// The kind of an incoming message, with the text of a text message.
pub enum MessageKind {
    Text(String),
    Photo,
    Document,
    Sticker,
    Voice,
    Video,
    VideoNote,
    Other,
}

/// A command asked for by a text message.
pub enum Command {
    /// `/code`, with the text that remains once `/code` is taken out.
    Code(String),
    /// A mention of everybody.
    Here,
    /// `/sql`, with the text that remains once `/sql ` is taken out.
    Sql(String),
    /// `/top` or `/stat`.
    Top,
    MarkovAll,
    Markov,
    /// `/scheme` or `/schema`.
    Scheme,
    Omedeto,
    /// Any other text: it is stored and its words are counted.
    Sentence,
}

/// What to do with a message.
pub enum Action {
    Command(Command),
    /// Download and store the files of a media message.
    SaveFiles,
    Ignore,
}

/// How highlighted code is sent back.
pub enum CodeDelivery {
    /// Too long: the help text is sent instead.
    Help,
    Photo,
    Document,
}

/// The text asks for a mention of everybody.
pub open spec fn mentions_here(s: Seq<char>) -> bool {
    ||| occurs_in(s, "/here"@)
    ||| occurs_in(s, "@here"@)
    ||| occurs_in(s, "/хере"@)
    ||| occurs_in(s, "@хере"@)
    ||| occurs_in(s, "\"хере"@)
}

/// A text with the bot's own `@name` taken out.
pub open spec fn cleaned(text: Seq<char>, bot: Seq<char>) -> Seq<char> {
    replaced(text, seq!['@'] + bot, seq![])
}

/// `cmd` is the command that the (cleaned) text `s` asks for.
pub open spec fn command_follows(cmd: Command, s: Seq<char>) -> bool {
    if has_prefix(s, "/code"@) {
        cmd matches Command::Code(d) && d@ == replaced(s, "/code"@, seq![])
    } else if mentions_here(s) {
        cmd is Here
    } else if has_prefix(s, "/sql"@) {
        cmd matches Command::Sql(d) && d@ == replaced(s, "/sql "@, seq![])
    } else if s == "/top"@ || s == "/stat"@ {
        cmd is Top
    } else if s == "/markov_all"@ {
        cmd is MarkovAll
    } else if s == "/markov"@ {
        cmd is Markov
    } else if s == "/scheme"@ || s == "/schema"@ {
        cmd is Scheme
    } else if s == "/omedeto"@ {
        cmd is Omedeto
    } else {
        cmd is Sentence
    }
}

/// `a` is what a message of kind `k` leads to, for a bot named `bot`.
pub open spec fn action_follows(a: Action, k: MessageKind, bot: Seq<char>) -> bool {
    match k {
        MessageKind::Text(t) => a matches Action::Command(c) && command_follows(c, cleaned(t@, bot)),
        MessageKind::Other => a is Ignore,
        _ => a is SaveFiles,
    }
}

/// How many times `c` occurs in `s`.
pub open spec fn count_char(s: Seq<char>, c: char) -> nat
    decreases s.len(),
{
    if s.len() == 0 {
        0
    } else {
        count_char(s.drop_last(), c) + if s.last() == c {
            1nat
        } else {
            0nat
        }
    }
}

/// The number of lines of `s` (std's `str::lines().count()`): a final line
/// break does not open a new line.
pub open spec fn line_count(s: Seq<char>) -> nat {
    if s.len() == 0 {
        0
    } else {
        count_char(s, '\n') + if s.last() == '\n' {
            0nat
        } else {
            1nat
        }
    }
}

/// Code of more than 4000 characters gets the help text; up to 80 lines it
/// is sent as a picture, longer code as a document.
pub open spec fn delivery_for(s: Seq<char>) -> CodeDelivery {
    if s.len() > 4000 {
        CodeDelivery::Help
    } else if line_count(s) < 81 {
        CodeDelivery::Photo
    } else {
        CodeDelivery::Document
    }
}

/// A mention of everybody is answered wherever it stands in the text
/// (unless the text is a `/code` request).
pub proof fn lemma_here_anywhere(cmd: Command, s: Seq<char>)
    requires
        command_follows(cmd, s),
        mentions_here(s),
        !has_prefix(s, "/code"@),
    ensures
        cmd is Here,
{
}

/// A text that asks for no command is stored: only `/code`, `/sql` and the
/// exact command words are kept out of the statistics.
pub proof fn lemma_plain_text_stored(cmd: Command, s: Seq<char>)
    requires
        command_follows(cmd, s),
        !has_prefix(s, "/code"@),
        !has_prefix(s, "/sql"@),
        s != "/top"@,
        s != "/stat"@,
        s != "/markov_all"@,
        s != "/markov"@,
        s != "/scheme"@,
        s != "/schema"@,
        s != "/omedeto"@,
    ensures
        cmd is Here || cmd is Sentence,
{
}

/// Every photo, document, sticker, voice message, video and video note has
/// its files saved.
pub proof fn lemma_media_saved(a: Action, k: MessageKind, bot: Seq<char>)
    requires
        action_follows(a, k, bot),
        !(k is Text),
        !(k is Other),
    ensures
        a is SaveFiles,
{
}

/// A text with none of the five mention markers `/here`, `@here`, `/хере`,
/// `@хере`, `"хере` that is no `/code` or `/sql` request and no command word
/// is stored as a sentence; it never summons the chat.
pub proof fn lemma_no_marker_is_sentence(cmd: Command, s: Seq<char>)
    requires
        command_follows(cmd, s),
        !occurs_in(s, "/here"@),
        !occurs_in(s, "@here"@),
        !occurs_in(s, "/хере"@),
        !occurs_in(s, "@хере"@),
        !occurs_in(s, "\"хере"@),
        !has_prefix(s, "/code"@),
        !has_prefix(s, "/sql"@),
        s != "/top"@,
        s != "/stat"@,
        s != "/markov_all"@,
        s != "/markov"@,
        s != "/scheme"@,
        s != "/schema"@,
        s != "/omedeto"@,
    ensures
        cmd is Sentence,
{
}

/// A text holding any of the five mention markers summons the chat (unless
/// it is a `/code` request).
pub proof fn lemma_marker_is_here(cmd: Command, s: Seq<char>)
    requires
        command_follows(cmd, s),
        occurs_in(s, "/here"@) || occurs_in(s, "@here"@) || occurs_in(s, "/хере"@) || occurs_in(
            s,
            "@хере"@,
        ) || occurs_in(s, "\"хере"@),
        !has_prefix(s, "/code"@),
    ensures
        cmd is Here,
{
}

fn is_text(s: &String, lit: &str) -> (b: bool)
    ensures
        b == (s@ == lit@),
{
    *s == String::from_str(lit)
}

/// The command a text asks for, for a bot whose user name is `bot_username`.
pub fn route_text(text: &str, bot_username: &str) -> (cmd: Command)
    ensures
        command_follows(cmd, cleaned(text@, bot_username@)),
{
    let t = chars_of(text);
    let mut me: Vec<char> = vec!['@'];
    let b = chars_of(bot_username);
    crate::text::extend_chars(&mut me, &b);
    assert(me@ == seq!['@'] + bot_username@);
    let empty: Vec<char> = Vec::new();
    let c = replace_all(&t, &me, &empty);
    let s = string_of(&c);
    let code = chars_of("/code");
    let sql = chars_of("/sql");
    proof {
        reveal_strlit("/code");
        reveal_strlit("/sql ");
        assert(empty@ == Seq::<char>::empty());
    }
    if starts_with(&c, &code) {
        let d = replace_all(&c, &code, &empty);
        Command::Code(string_of(&d))
    } else if contains(&c, &chars_of("/here")) || contains(&c, &chars_of("@here")) || contains(
        &c,
        &chars_of("/хере"),
    ) || contains(&c, &chars_of("@хере")) || contains(&c, &chars_of("\"хере")) {
        Command::Here
    } else if starts_with(&c, &sql) {
        let sp = chars_of("/sql ");
        let d = replace_all(&c, &sp, &empty);
        Command::Sql(string_of(&d))
    } else if is_text(&s, "/top") || is_text(&s, "/stat") {
        Command::Top
    } else if is_text(&s, "/markov_all") {
        Command::MarkovAll
    } else if is_text(&s, "/markov") {
        Command::Markov
    } else if is_text(&s, "/scheme") || is_text(&s, "/schema") {
        Command::Scheme
    } else if is_text(&s, "/omedeto") {
        Command::Omedeto
    } else {
        Command::Sentence
    }
}

impl Command {
    /// Whether the message text is stored and its words counted before the
    /// command runs.
    pub fn stores_sentence(&self) -> (b: bool)
        ensures
            b == (*self is Here || *self is Sentence),
    {
        match self {
            Command::Here | Command::Sentence => true,
            _ => false,
        }
    }
}

/// What to do with a message of the given kind.
pub fn handle(kind: MessageKind, bot_username: &str) -> (a: Action)
    ensures
        action_follows(a, kind, bot_username@),
{
    match kind {
        MessageKind::Text(t) => Action::Command(route_text(t.as_str(), bot_username)),
        MessageKind::Other => Action::Ignore,
        _ => Action::SaveFiles,
    }
}

/// The number of lines of a text.
pub fn count_lines(s: &Vec<char>) -> (n: usize)
    ensures
        n == line_count(s@),
{
    let mut n: usize = 0;
    let mut i: usize = 0;
    assert(s@.take(0) == Seq::<char>::empty());
    while i < s.len()
        invariant
            i <= s.len(),
            n == count_char(s@.take(i as int), '\n'),
            n <= i,
            i > 0 && s@[i - 1] != '\n' ==> n < i,
        decreases s.len() - i,
    {
        proof {
            assert(s@.take(i + 1).drop_last() == s@.take(i as int));
            assert(s@.take(i + 1).last() == s@[i as int]);
        }
        if s[i] == '\n' {
            n = n + 1;
        }
        i += 1;
    }
    assert(s@.take(s.len() as int) == s@);
    if s.len() > 0 && s[s.len() - 1] != '\n' {
        n + 1
    } else {
        n
    }
}

/// How the highlighted code of a `/code` message `s` is sent back.
pub fn code_delivery(s: &str) -> (d: CodeDelivery)
    ensures
        d == delivery_for(s@),
{
    let c = chars_of(s);
    if c.len() > 4000 {
        CodeDelivery::Help
    } else if count_lines(&c) < 81 {
        CodeDelivery::Photo
    } else {
        CodeDelivery::Document
    }
}

} // verus!
