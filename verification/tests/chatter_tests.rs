use desubot::chatter::{compose_reply, markov_reply, reply_from, Markov, MarkovAll};

fn strings(v: &[&str]) -> Vec<String> {
    v.iter().map(|s| s.to_string()).collect()
}

#[test]
fn compose_from_the_back() {
    let s = strings(&["a", "b", "c"]);
    assert_eq!(compose_reply(&s, 2), "c b");
    assert_eq!(compose_reply(&s, 3), "c b a");
    assert_eq!(compose_reply(&s, 0), "");
}

#[test]
fn reply_needs_enough_sentences() {
    let s = strings(&["a", "b"]);
    assert_eq!(reply_from(&s, 2), Some("b".to_string()));
    assert_eq!(reply_from(&s, 3), Some("b a".to_string()));
    assert_eq!(reply_from(&s, 4), None);
}

#[test]
fn no_messages_no_reply() {
    assert_eq!(markov_reply(&vec![]), None);
    assert_eq!(Markov { data: String::new() }.reply(&vec![]), None);
    assert_eq!(MarkovAll { data: String::new() }.reply(&vec![]), None);
}

#[test]
fn reply_made_of_messages() {
    let msgs = strings(&["hello", "world"]);
    for _ in 0..50 {
        if let Some(r) = markov_reply(&msgs) {
            for part in r.split(' ') {
                assert!(part == "hello" || part == "world");
            }
        }
    }
    let one = strings(&["only"]);
    for _ in 0..20 {
        let r = markov_reply(&one);
        assert!(r.is_none() || r == Some("only".to_string()));
    }
}
