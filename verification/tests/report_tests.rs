use desubot::report::{chat_title, ChatKind, Here, Member, Top, TopWord};

fn member(id: i64, username: Option<&str>, first: &str) -> Member {
    Member { id, username: username.map(|u| u.to_string()), first_name: first.to_string(), last_name: None }
}

#[test]
fn here_reply_exact() {
    let ms = vec![member(1, Some("ann"), "Ann"), member(42, None, "<Bob & Co>")];
    assert_eq!(
        Here { data: String::new() }.reply(&ms),
        "<b>I summon you</b>,  @ann <a href=\"tg://user?id=42\">&lt;Bob &amp; Co&gt;</a>"
    );
}

#[test]
fn here_reply_empty_and_all_mentioned() {
    assert_eq!(Here { data: String::new() }.reply(&vec![]), "<b>I summon you</b>, ");
    let ms: Vec<Member> = (0..5).map(|i| member(i, None, &format!("n{}", i))).collect();
    let r = Here { data: String::new() }.reply(&ms);
    for i in 0..5 {
        assert!(r.contains(&format!("<a href=\"tg://user?id={}\">n{}</a>", i, i)));
    }
    let neg = Here { data: String::new() }.reply(&vec![member(-100, None, "g")]);
    assert!(neg.contains("id=-100"));
}

#[test]
fn top_reply_exact() {
    let ws = vec![
        TopWord { word: "кот".to_string(), count: 10 },
        TopWord { word: "мыть".to_string(), count: 3 },
    ];
    assert_eq!(
        Top { data: String::new() }.reply(&ws),
        "<b>Your top using words:</b>\n<pre> <b>1</b> кот - 10\n <b>2</b> мыть - 3\n</pre>"
    );
    assert_eq!(Top { data: String::new() }.reply(&vec![]), "<b>Your top using words:</b>\n<pre></pre>");
}

#[test]
fn chat_titles() {
    assert_eq!(chat_title(&ChatKind::Supergroup("Devs".to_string())), "Devs");
    assert_eq!(chat_title(&ChatKind::Group("G".to_string())), "G");
    assert_eq!(chat_title(&ChatKind::Private), "PRIVATE");
    assert_eq!(chat_title(&ChatKind::Other), "PRIVATE");
}
