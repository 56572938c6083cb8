use desubot::error::Error;
use desubot::report::Member;
use desubot::store::{entries, first_conf, first_user, members_query, stop_word_check, upsert_after_lookup, word_counted, Conf, Upsert};

#[test]
fn schema_statements() {
    let text = "CREATE TABLE a (x);\n\n  CREATE TABLE b (y) ;\n ; \n";
    assert_eq!(entries(text, ';'), vec!["CREATE TABLE a (x)".to_string(), "CREATE TABLE b (y)".to_string()]);
}

#[test]
fn stop_word_lines() {
    assert_eq!(entries("и\nв\n\n  не \n", '\n'), vec!["и".to_string(), "в".to_string(), "не".to_string()]);
    assert!(entries("", '\n').is_empty());
}

#[test]
fn member_queries() {
    let q0 = members_query(0);
    assert!(q0.contains("WHERE c.id = :id\n        \n        GROUP BY u.id"));
    let q7 = members_query(7);
    assert!(q7.contains("WHERE c.id = :id\n        and days_seen <= 7\n        GROUP BY u.id"));
    assert!(q7.ends_with("ORDER BY r.date DESC"));
}

#[test]
fn stop_words() {
    assert_eq!(stop_word_check(Ok(0)), Ok(()));
    assert_eq!(stop_word_check(Ok(2)), Err(Error::WordNotFound));
    assert_eq!(stop_word_check(Err("returned rows".to_string())), Err(Error::SQLITE3Error("returned rows".to_string())));
    assert!(word_counted(&Ok(())));
    assert!(!word_counted(&Err(Error::WordNotFound)));
}

#[test]
fn lookups() {
    assert!(matches!(first_user(vec![]), Err(Error::UserNotFound)));
    let u = first_user(vec![
        Member { id: 1, username: None, first_name: "a".to_string(), last_name: None },
        Member { id: 2, username: None, first_name: "b".to_string(), last_name: None },
    ]);
    assert_eq!(u.map(|m| m.id).ok(), Some(1));
    assert!(matches!(first_conf(vec![]), Err(Error::ConfNotFound)));
    let c = first_conf(vec![Conf { id: -5, title: "t".to_string(), date: 0 }]).ok().unwrap();
    assert_eq!((c.id, c.title.as_str()), (-5, "t"));
    assert!(matches!(upsert_after_lookup(true), Upsert::Update));
    assert!(matches!(upsert_after_lookup(false), Upsert::Insert));
}

#[test]
fn error_text() {
    assert_eq!(Error::SQLInvalidCommand.message(), "An error occurred.");
    assert_eq!(Error::IOError("x".to_string()).message(), "An error occurred.");
}
