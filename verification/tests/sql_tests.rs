use desubot::error::Error;
use desubot::sql::{render_table, sql_error_reply, syntax_error_reply, Sql, SqlCell, SqlPlan};

fn plan(s: &str) -> Option<SqlPlan> {
    Sql { data: s.to_string() }.plan()
}

#[test]
fn plan_single_select_runs_uppercased_with_header() {
    match plan("select * from user") {
        Some(SqlPlan::Run { query, with_header }) => {
            assert_eq!(query, "SELECT * FROM USER");
            assert!(with_header);
        }
        _ => panic!("expected a run"),
    }
}

#[test]
fn plan_leading_dash_drops_header() {
    match plan("-select id from user") {
        Some(SqlPlan::Run { query, with_header }) => {
            assert_eq!(query, "SELECT ID FROM USER");
            assert!(!with_header);
        }
        _ => panic!("expected a run"),
    }
}

#[test]
fn plan_two_statements_banned() {
    assert!(matches!(plan("select 1; select 2"), Some(SqlPlan::Banned)));
}

#[test]
fn plan_non_query_banned() {
    assert!(matches!(plan("delete from user"), Some(SqlPlan::Banned)));
    assert!(matches!(plan("drop table user"), Some(SqlPlan::Banned)));
}

#[test]
fn plan_garbage_invalid() {
    assert!(matches!(plan("hello there"), Some(SqlPlan::Invalid)));
}

#[test]
fn plan_empty_text_has_no_statement() {
    assert!(plan("").is_none());
}

#[test]
fn table_with_header() {
    let cols = vec!["id".to_string(), "name".to_string()];
    let rows = vec![
        vec![SqlCell::Integer(1), SqlCell::Text("ann".to_string())],
        vec![SqlCell::Integer(-20), SqlCell::Null],
        vec![SqlCell::Blob, SqlCell::Text("1.5".to_string())],
    ];
    assert_eq!(
        render_table(true, &cols, &rows),
        "<b> id name</b>\n<pre>1 ann \n-20 Null \nBinary 1.5 \n</pre>"
    );
}

#[test]
fn table_without_header() {
    let cols = vec!["id".to_string()];
    let rows = vec![vec![SqlCell::Integer(7)]];
    assert_eq!(render_table(false, &cols, &rows), "<pre>7 \n</pre>");
}

#[test]
fn table_long_label_replaced() {
    let cols = vec!["abcdefghijk".to_string(), "abcdefghij".to_string(), "яяяяяя".to_string()];
    let rows: Vec<Vec<SqlCell>> = vec![];
    assert_eq!(
        render_table(true, &cols, &rows),
        "<b> EMSGSIZE abcdefghij EMSGSIZE</b>\n<pre></pre>"
    );
}

#[test]
fn table_too_big_refused() {
    let cols = vec!["t".to_string()];
    let rows: Vec<Vec<SqlCell>> = (0..500).map(|_| vec![SqlCell::Text("xxxxxxxxxx".to_string())]).collect();
    let reply = render_table(true, &cols, &rows);
    assert_eq!(reply, "🚫 Result is too big. Use LIMIT 🚫");
    assert!(reply.len() <= 4096);
}

#[test]
fn table_at_limit_kept() {
    // "<pre>" + 4085 bytes + "</pre>" = 4096 bytes exactly
    let cols = vec!["t".to_string()];
    let text = "y".repeat(4083);
    let rows = vec![vec![SqlCell::Text(text.clone())]];
    let reply = render_table(false, &cols, &rows);
    assert_eq!(reply.len(), 4096);
    assert_eq!(reply, format!("<pre>{} \n</pre>", text));
}

#[test]
fn integer_extremes_written_out() {
    let cols = vec!["n".to_string()];
    let rows = vec![vec![SqlCell::Integer(i64::MIN), SqlCell::Integer(i64::MAX), SqlCell::Integer(0)]];
    assert_eq!(
        render_table(false, &cols, &rows),
        format!("<pre>{} {} 0 \n</pre>", i64::MIN, i64::MAX)
    );
}

#[test]
fn error_replies() {
    assert_eq!(
        sql_error_reply(&Error::SQLITE3Error("no such table: x".to_string())),
        Some("❌ An error occurred no such table: x❌".to_string())
    );
    assert_eq!(
        sql_error_reply(&Error::SQLBannedCommand("DELETE".to_string())),
        Some("🚫 SELECT requests allowed only 🚫".to_string())
    );
    assert_eq!(
        sql_error_reply(&Error::SQLInvalidCommand),
        Some("🚫 Invalid SQL. Check DB scheme. 🚫".to_string())
    );
    assert_eq!(sql_error_reply(&Error::UserNotFound), None);
    assert_eq!(syntax_error_reply(), "❌ Invalid SQL. Syntax error ❌");
}

#[test]
fn plan_uses_unicode_uppercase() {
    match plan("select 'straße'") {
        Some(SqlPlan::Run { query, .. }) => assert_eq!(query, "SELECT 'STRASSE'"),
        _ => panic!("expected a run"),
    }
}
