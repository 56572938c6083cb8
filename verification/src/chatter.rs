//! The `/markov` and `/markov_all` commands: a reply strung together from
//! stored messages by a Markov chain whose tokens are whole messages.
use vstd::prelude::*;
use crate::chance::random_range;
use crate::text::{chars_of, extend_chars, extend_str, string_of, strs, trim, trimmed};

verus! {

/// A Markov chain of the markov crate (order one) whose tokens are whole
/// messages. Its contents are known through `chain_tokens` only.
#[verifier::external_body]
pub struct MessageChain {
    chain: ::markov::Chain<String>,
}

/// The `/markov` command (messages of the chat).
pub struct Markov {
    pub data: String,
}

/// The `/markov_all` command (messages of all chats).
pub struct MarkovAll {
    pub data: String,
}

/// The lists of tokens (messages) fed to a chain, in the order they were
/// fed; a list is kept only when it is not empty.
pub uninterp spec fn chain_tokens(chain: MessageChain) -> Seq<Seq<Seq<char>>>;

/// `t` is one of the tokens fed to a chain with lists `feeds`.
pub open spec fn was_fed(feeds: Seq<Seq<Seq<char>>>, t: Seq<char>) -> bool {
    exists|j: int| 0 <= j < feeds.len() && (#[trigger] feeds[j]).contains(t)
}

/// markov's `Chain::new` (order one). Claimed: nothing has been fed to it.
#[verifier::external_body]
fn chain_new() -> (c: MessageChain)
    ensures
        chain_tokens(c) == Seq::<Seq<Seq<char>>>::empty(),
{
    MessageChain { chain: ::markov::Chain::new() }
}

/// markov's `Chain::feed` with a list of tokens. Claimed: a non-empty list
/// is added to what the chain was fed; an empty list changes nothing.
#[verifier::external_body]
fn chain_feed(c: &mut MessageChain, tokens: &Vec<String>)
    ensures
        tokens.len() == 0 ==> chain_tokens(*final(c)) == chain_tokens(*old(c)),
        tokens.len() > 0 ==> chain_tokens(*final(c)) == chain_tokens(*old(c)).push(strs(tokens@)),
{
    c.chain.feed(tokens.as_slice());
}

/// markov's `Chain::generate`, a random walk from the start state. Claimed:
/// for a chain that was fed something (on an empty one it panics), at least
/// one token comes out, and every token that comes out is one that was fed.
/// A chain fed one list in which no token repeats has one way on from each
/// state, so the walk gives back exactly that list. Otherwise which tokens,
/// how many and in what order is chance.
#[verifier::external_body]
fn chain_generate(c: &MessageChain) -> (r: Vec<String>)
    requires
        chain_tokens(*c).len() > 0,
    ensures
        r.len() >= 1,
        forall|i: int| 0 <= i < r.len() ==> was_fed(chain_tokens(*c), #[trigger] strs(r@)[i]),
        chain_tokens(*c).len() == 1 && chain_tokens(*c)[0].no_duplicates() ==> strs(r@)
            == chain_tokens(*c)[0],
{
    c.chain.generate()
}

/// The last `k` sentences of `s`, last one first, each after a space.
pub open spec fn popped_text(s: Seq<Seq<char>>, k: nat) -> Seq<char>
    decreases k,
{
    if k == 0 {
        seq![]
    } else {
        popped_text(s, (k - 1) as nat) + " "@ + s[s.len() - k]
    }
}

/// `r` is a reply the chain may give after training on `messages`: some
/// sentences made of the messages, of which between one and eight are
/// taken from the back.
pub open spec fn is_markov_reply(r: Seq<char>, messages: Seq<Seq<char>>) -> bool {
    exists|s: Seq<Seq<char>>, k: nat|
        #![trigger popped_text(s, k)]
        {
            &&& 1 <= k <= 8
            &&& k <= s.len()
            &&& forall|i: int| 0 <= i < s.len() ==> messages.contains(#[trigger] s[i])
            &&& r == trimmed(popped_text(s, k))
        }
}

/// `r` is what the chain gives after training on `messages` when no message
/// repeats: the chain walks through all of them in order, so the reply is
/// the last `k` messages, last one first, for a drawn `k` from one to eight.
pub open spec fn is_tail_reply(r: Seq<char>, messages: Seq<Seq<char>>) -> bool {
    exists|k: nat|
        #![trigger popped_text(messages, k)]
        1 <= k <= 8 && k <= messages.len() && r == trimmed(popped_text(messages, k))
}

/// The reply made of the last `count` sentences, last one first.
pub fn compose_reply(sentences: &Vec<String>, count: usize) -> (r: String)
    requires
        count <= sentences.len(),
    ensures
        r@ == trimmed(popped_text(strs(sentences@), count as nat)),
{
    let mut out: Vec<char> = Vec::new();
    let mut k: usize = 0;
    while k < count
        invariant
            k <= count <= sentences.len(),
            out@ == popped_text(strs(sentences@), k as nat),
        decreases count - k,
    {
        extend_str(&mut out, " ");
        let v = chars_of(sentences[sentences.len() - 1 - k].as_str());
        extend_chars(&mut out, &v);
        k += 1;
    }
    let t = trim(&out);
    string_of(&t)
}

/// The reply for `n` drawn from `2..10`: the last `n - 1` generated
/// sentences; `None` where fewer were generated.
pub fn reply_from(sentences: &Vec<String>, n: usize) -> (r: Option<String>)
    requires
        n >= 1,
    ensures
        n - 1 > sentences.len() ==> r is None,
        n - 1 <= sentences.len() ==> (r matches Some(t) && t@ == trimmed(
            popped_text(strs(sentences@), (n - 1) as nat),
        )),
{
    let count = n - 1;
    if count > sentences.len() {
        None
    } else {
        Some(compose_reply(sentences, count))
    }
}

/// A reply made from `messages`. `None` where there are no messages to
/// learn from, or where the chain gives fewer sentences than were drawn.
pub fn markov_reply(messages: &Vec<String>) -> (r: Option<String>)
    ensures
        messages.len() == 0 ==> r is None,
        r matches Some(t) ==> is_markov_reply(t@, strs(messages@)),
        strs(messages@).no_duplicates() ==> (r matches Some(t) ==> is_tail_reply(t@, strs(messages@))),
        messages.len() >= 8 && strs(messages@).no_duplicates() ==> r is Some,
{
    if messages.len() == 0 {
        return None;
    }
    let mut chain = chain_new();
    chain_feed(&mut chain, messages);
    assert(chain_tokens(chain) == seq![strs(messages@)]);
    let sentences = chain_generate(&chain);
    let n = random_range(2, 10);
    let count = n - 1;
    let r = match reply_from(&sentences, n) {
        Some(r) => r,
        None => {
            proof {
                if strs(messages@).no_duplicates() {
                    assert(strs(sentences@) == strs(messages@));
                    assert(strs(sentences@).len() == sentences@.len());
                    assert(strs(messages@).len() == messages@.len());
                }
            }
            return None;
        },
    };
    proof {
        let s = strs(sentences@);
        assert forall|i: int| 0 <= i < s.len() implies strs(messages@).contains(#[trigger] s[i]) by {
            assert(was_fed(chain_tokens(chain), s[i]));
            let j = choose|j: int| 0 <= j < chain_tokens(chain).len() && (#[trigger] chain_tokens(
                chain,
            )[j]).contains(s[i]);
            assert(j == 0);
        }
        assert(r@ == trimmed(popped_text(s, count as nat)));
        if strs(messages@).no_duplicates() {
            assert(s == strs(messages@));
            assert(1 <= count <= 8 && count <= s.len());
        }
    }
    Some(r)
}

impl Markov {
    /// The `/markov` reply for the messages of the chat.
    pub fn reply(&self, messages: &Vec<String>) -> (r: Option<String>)
        ensures
            messages.len() == 0 ==> r is None,
            r matches Some(t) ==> is_markov_reply(t@, strs(messages@)),
            strs(messages@).no_duplicates() ==> (r matches Some(t) ==> is_tail_reply(
                t@,
                strs(messages@),
            )),
            messages.len() >= 8 && strs(messages@).no_duplicates() ==> r is Some,
    {
        markov_reply(messages)
    }
}

impl MarkovAll {
    /// The `/markov_all` reply for messages of all chats.
    pub fn reply(&self, messages: &Vec<String>) -> (r: Option<String>)
        ensures
            messages.len() == 0 ==> r is None,
            r matches Some(t) ==> is_markov_reply(t@, strs(messages@)),
            strs(messages@).no_duplicates() ==> (r matches Some(t) ==> is_tail_reply(
                t@,
                strs(messages@),
            )),
            messages.len() >= 8 && strs(messages@).no_duplicates() ==> r is Some,
    {
        markov_reply(messages)
    }
}

} // verus!
