//! The `/sql` command: which requests are run, and how a result table is
//! shown. Only one statement per message, only queries, replies of at most
//! 4096 bytes.
use vstd::prelude::*;
use crate::error::Error;
use crate::text::{
    chars_of, extend_chars, extend_str, i64_decimal, signed_decimal, string_of, to_uppercase,
    uppercase, utf8_len, utf8_len_exceeds, opt_text, lemma_utf8_at_most_four, lemma_utf8_ascii,
};
use sqlparser::ast::Statement;
use sqlparser::dialect::GenericDialect;
use sqlparser::parser::Parser;

verus! {

/// The `/sql` command with the text that followed it.
pub struct Sql {
    pub data: String,
}

/// What to do with an `/sql` request.
pub enum SqlPlan {
    /// The text is not SQL.
    Invalid,
    /// More than one statement, or a statement that is not a query.
    Banned,
    /// Run `query`; `with_header` says whether the column names head the reply.
    Run { query: String, with_header: bool },
}

/// One value of a result row. Real numbers arrive already written out, as text.
pub enum SqlCell {
    Text(String),
    Integer(i64),
    Blob,
    Null,
}

/// Largest reply, in bytes.
pub const MAX_REPLY_BYTES: u32 = 4096;

/// Longest column name shown as it is, in bytes.
pub const MAX_LABEL_BYTES: u32 = 10;

/// For each statement that sqlparser (generic dialect) finds in `sql`, whether
/// it is a query; `None` where sqlparser refuses the text.
pub uninterp spec fn sql_statement_kinds(sql: Seq<char>) -> Option<Seq<bool>>;

/// The request text that is parsed and run, and whether the reply shows
/// column names: the text is upper-cased, and a leading `-` is dropped and
/// turns the column names off.
pub open spec fn request_of(data: Seq<char>) -> (Seq<char>, bool) {
    let up = uppercase(data);
    if up.len() > 0 && up[0] == '-' {
        (up.drop_first(), false)
    } else {
        (up, true)
    }
}

/// `plan` is what a request with the given parse outcome leads to.
pub open spec fn plan_follows(
    plan: SqlPlan,
    kinds: Option<Seq<bool>>,
    query: Seq<char>,
    with_header: bool,
) -> bool {
    match kinds {
        None => plan is Invalid,
        Some(k) => if k.len() > 1 || !k[0] {
            plan is Banned
        } else {
            plan matches SqlPlan::Run { query: q, with_header: h } && q@ == query && h
                == with_header
        },
    }
}

/// How a column name is shown: names longer than ten bytes become `EMSGSIZE`.
pub open spec fn column_label(name: Seq<char>) -> Seq<char> {
    if utf8_len(name) > MAX_LABEL_BYTES {
        "EMSGSIZE"@
    } else {
        name
    }
}

/// The column names, each after a space.
pub open spec fn header_cells(cols: Seq<String>) -> Seq<char>
    decreases cols.len(),
{
    if cols.len() == 0 {
        seq![]
    } else {
        header_cells(cols.drop_last()).push(' ') + column_label(cols.last()@)
    }
}

/// How a value is shown.
pub open spec fn cell_text(c: SqlCell) -> Seq<char> {
    match c {
        SqlCell::Text(t) => t@,
        SqlCell::Integer(i) => signed_decimal(i as int),
        SqlCell::Blob => "Binary"@,
        SqlCell::Null => "Null"@,
    }
}

/// The values of a row, each followed by a space.
pub open spec fn row_cells(cells: Seq<SqlCell>) -> Seq<char>
    decreases cells.len(),
{
    if cells.len() == 0 {
        seq![]
    } else {
        row_cells(cells.drop_last()) + cell_text(cells.last()).push(' ')
    }
}

/// The rows, each on a line of its own.
pub open spec fn rows_text(rows: Seq<Vec<SqlCell>>) -> Seq<char>
    decreases rows.len(),
{
    if rows.len() == 0 {
        seq![]
    } else {
        rows_text(rows.drop_last()) + row_cells(rows.last()@).push('\n')
    }
}

/// The whole table: the bold header line when asked for, then the rows in a
/// preformatted block.
pub open spec fn table_text(with_header: bool, cols: Seq<String>, rows: Seq<Vec<SqlCell>>) -> Seq<
    char,
> {
    let head = if with_header {
        "<b>"@ + header_cells(cols) + "</b>\n"@
    } else {
        seq![]
    };
    head + "<pre>"@ + rows_text(rows) + "</pre>"@
}

/// The reply to a result: the table, or a refusal when it is over 4096 bytes.
pub open spec fn table_reply(with_header: bool, cols: Seq<String>, rows: Seq<Vec<SqlCell>>) -> Seq<
    char,
> {
    let t = table_text(with_header, cols, rows);
    if utf8_len(t) > MAX_REPLY_BYTES {
        "🚫 Result is too big. Use LIMIT 🚫"@
    } else {
        t
    }
}

/// The reply to an `/sql` error, if that error gets one.
pub open spec fn error_reply(e: Error) -> Option<Seq<char>> {
    match e {
        Error::SQLITE3Error(m) => Some("❌ An error occurred "@ + m@ + "❌"@),
        Error::SQLBannedCommand(_) => Some("🚫 SELECT requests allowed only 🚫"@),
        Error::SQLInvalidCommand => Some("🚫 Invalid SQL. Check DB scheme. 🚫"@),
        _ => None,
    }
}

/// Only a request of exactly one statement, a query, is run; every other
/// request that parses is banned, and one that does not parse is invalid.
pub proof fn lemma_only_single_queries_run(
    plan: SqlPlan,
    kinds: Option<Seq<bool>>,
    query: Seq<char>,
    with_header: bool,
)
    requires
        kinds matches Some(k) ==> k.len() > 0,
        plan_follows(plan, kinds, query, with_header),
    ensures
        plan is Run <==> kinds == Some(seq![true]),
        plan is Invalid <==> kinds is None,
        plan is Banned <==> (kinds is Some && kinds != Some(seq![true])),
{
    if let Some(k) = kinds {
        if k.len() == 1 && k[0] {
            assert(k =~= seq![true]);
        }
    }
}

/// A reply to a result never takes more than 4096 bytes.
pub proof fn lemma_reply_within_limit(with_header: bool, cols: Seq<String>, rows: Seq<Vec<SqlCell>>)
    ensures
        utf8_len(table_reply(with_header, cols, rows)) <= MAX_REPLY_BYTES,
{
    let t = table_text(with_header, cols, rows);
    if utf8_len(t) > MAX_REPLY_BYTES {
        reveal_strlit("🚫 Result is too big. Use LIMIT 🚫");
        lemma_utf8_at_most_four("🚫 Result is too big. Use LIMIT 🚫"@);
    }
}

/// A column name is shown in at most ten bytes.
pub proof fn lemma_label_within_limit(name: Seq<char>)
    ensures
        utf8_len(column_label(name)) <= MAX_LABEL_BYTES,
{
    if utf8_len(name) > MAX_LABEL_BYTES {
        reveal_strlit("EMSGSIZE");
        lemma_utf8_ascii("EMSGSIZE"@);
    }
}

/// Parses `sql` with sqlparser's `Parser::parse_sql` in the generic dialect
/// and tells, for each statement, whether it is a query. Claimed: the result
/// is `sql_statement_kinds(sql)`, a function of the text alone.
#[verifier::external_body]
fn parse_statement_kinds(sql: &str) -> (r: Option<Vec<bool>>)
    ensures
        match r {
            Some(v) => sql_statement_kinds(sql@) == Some(v@),
            None => sql_statement_kinds(sql@) is None,
        },
{
    match Parser::parse_sql(&GenericDialect {}, sql) {
        Ok(ast) => Some(ast.iter().map(|st| matches!(st, Statement::Query(_))).collect()),
        Err(_) => None,
    }
}

/// The statement kinds held in a parse outcome.
pub open spec fn kinds_view(kinds: Option<Vec<bool>>) -> Option<Seq<bool>> {
    match kinds {
        Some(k) => Some(k@),
        None => None,
    }
}

/// The plan for a request, given what the parser found in it.
pub fn decide_sql(kinds: Option<Vec<bool>>, query: String, with_header: bool) -> (plan: SqlPlan)
    requires
        kinds matches Some(k) ==> k.len() > 0,
    ensures
        plan_follows(plan, kinds_view(kinds), query@, with_header),
{
    match kinds {
        None => SqlPlan::Invalid,
        Some(k) => {
            if k.len() > 1 || !k[0] {
                SqlPlan::Banned
            } else {
                SqlPlan::Run { query, with_header }
            }
        },
    }
}

impl Sql {
    /// The plan for this request. `None` where the parser finds no
    /// statement at all.
    pub fn plan(&self) -> (plan: Option<SqlPlan>)
        ensures
            ({
                let (q, h) = request_of(self.data@);
                &&& plan is None <==> sql_statement_kinds(q) == Some(Seq::<bool>::empty())
                &&& plan matches Some(p) ==> plan_follows(p, sql_statement_kinds(q), q, h)
            }),
    {
        let up = to_uppercase(self.data.as_str());
        let chars = chars_of(up.as_str());
        let with_header = !(chars.len() > 0 && chars[0] == '-');
        let query = if with_header {
            up
        } else {
            let mut rest: Vec<char> = Vec::new();
            let mut i: usize = 1;
            while i < chars.len()
                invariant
                    1 <= i <= chars.len(),
                    rest@ == chars@.subrange(1, i as int),
                decreases chars.len() - i,
            {
                rest.push(chars[i]);
                assert(chars@.subrange(1, i + 1) == chars@.subrange(1, i as int).push(
                    chars@[i as int],
                ));
                i += 1;
            }
            assert(chars@.drop_first() == chars@.subrange(1, chars@.len() as int));
            string_of(&rest)
        };
        let kinds = parse_statement_kinds(query.as_str());
        match kinds {
            Some(k) => {
                if k.len() == 0 {
                    assert(k@ == Seq::<bool>::empty());
                    None
                } else {
                    Some(decide_sql(Some(k), query, with_header))
                }
            },
            None => Some(decide_sql(None, query, with_header)),
        }
    }
}

fn push_header(out: &mut Vec<char>, cols: &Vec<String>)
    ensures
        final(out)@ == old(out)@ + header_cells(cols@),
{
    let mut i: usize = 0;
    assert(cols@.take(0) == Seq::<String>::empty());
    assert(old(out)@ + seq![] == old(out)@);
    while i < cols.len()
        invariant
            i <= cols.len(),
            out@ == old(out)@ + header_cells(cols@.take(i as int)),
        decreases cols.len() - i,
    {
        let name = chars_of(cols[i].as_str());
        let ghost before = out@;
        out.push(' ');
        if utf8_len_exceeds(&name, MAX_LABEL_BYTES) {
            extend_str(out, "EMSGSIZE");
        } else {
            extend_chars(out, &name);
        }
        proof {
            let t = cols@.take(i + 1);
            assert(t.drop_last() == cols@.take(i as int));
            assert(t.last() == cols@[i as int]);
            assert(out@ == before.push(' ') + column_label(cols@[i as int]@));
        }
        i += 1;
    }
    assert(cols@.take(cols.len() as int) == cols@);
}

fn push_cell(out: &mut Vec<char>, c: &SqlCell)
    ensures
        final(out)@ == old(out)@ + cell_text(*c),
{
    match c {
        SqlCell::Text(t) => {
            let v = chars_of(t.as_str());
            extend_chars(out, &v);
        },
        SqlCell::Integer(n) => {
            let v = i64_decimal(*n);
            extend_chars(out, &v);
        },
        SqlCell::Blob => extend_str(out, "Binary"),
        SqlCell::Null => extend_str(out, "Null"),
    }
}

fn push_row(out: &mut Vec<char>, cells: &Vec<SqlCell>)
    ensures
        final(out)@ == old(out)@ + row_cells(cells@),
{
    let mut i: usize = 0;
    assert(cells@.take(0) == Seq::<SqlCell>::empty());
    assert(old(out)@ + seq![] == old(out)@);
    while i < cells.len()
        invariant
            i <= cells.len(),
            out@ == old(out)@ + row_cells(cells@.take(i as int)),
        decreases cells.len() - i,
    {
        let ghost before = out@;
        push_cell(out, &cells[i]);
        out.push(' ');
        proof {
            let t = cells@.take(i + 1);
            assert(t.drop_last() == cells@.take(i as int));
            assert(t.last() == cells@[i as int]);
            assert(out@ == before + cell_text(cells@[i as int]).push(' '));
        }
        i += 1;
    }
    assert(cells@.take(cells.len() as int) == cells@);
}

/// The reply to a query result with columns `cols` and rows `rows`
/// (each row holding one value per column).
pub fn render_table(with_header: bool, cols: &Vec<String>, rows: &Vec<Vec<SqlCell>>) -> (reply:
    String)
    ensures
        reply@ == table_reply(with_header, cols@, rows@),
{
    let mut out: Vec<char> = Vec::new();
    if with_header {
        extend_str(&mut out, "<b>");
        push_header(&mut out, cols);
        extend_str(&mut out, "</b>\n");
    }
    let ghost head = out@;
    extend_str(&mut out, "<pre>");
    let mut i: usize = 0;
    assert(rows@.take(0) == Seq::<Vec<SqlCell>>::empty());
    assert(head + "<pre>"@ + seq![] == head + "<pre>"@);
    while i < rows.len()
        invariant
            i <= rows.len(),
            out@ == head + "<pre>"@ + rows_text(rows@.take(i as int)),
        decreases rows.len() - i,
    {
        let ghost before = out@;
        push_row(&mut out, &rows[i]);
        out.push('\n');
        proof {
            let t = rows@.take(i + 1);
            assert(t.drop_last() == rows@.take(i as int));
            assert(t.last() == rows@[i as int]);
        }
        i += 1;
    }
    assert(rows@.take(rows.len() as int) == rows@);
    extend_str(&mut out, "</pre>");
    proof {
        if with_header {
            assert(head == Seq::<char>::empty() + "<b>"@ + header_cells(cols@) + "</b>\n"@);
        } else {
            assert(head == Seq::<char>::empty());
        }
        assert(out@ == table_text(with_header, cols@, rows@));
    }
    if utf8_len_exceeds(&out, MAX_REPLY_BYTES) {
        String::from_str("🚫 Result is too big. Use LIMIT 🚫")
    } else {
        string_of(&out)
    }
}

/// The reply when the request text is not SQL.
pub fn syntax_error_reply() -> (reply: String)
    ensures
        reply@ == "❌ Invalid SQL. Syntax error ❌"@,
{
    String::from_str("❌ Invalid SQL. Syntax error ❌")
}

/// The reply to an error met while serving `/sql`, if that error gets one.
pub fn sql_error_reply(e: &Error) -> (reply: Option<String>)
    ensures
        opt_text(reply) == error_reply(*e),
{
    match e {
        Error::SQLITE3Error(m) => {
            let mut out = chars_of("❌ An error occurred ");
            let mv = chars_of(m.as_str());
            extend_chars(&mut out, &mv);
            extend_str(&mut out, "❌");
            Some(string_of(&out))
        },
        Error::SQLBannedCommand(_) => Some(String::from_str("🚫 SELECT requests allowed only 🚫")),
        Error::SQLInvalidCommand => Some(String::from_str("🚫 Invalid SQL. Check DB scheme. 🚫")),
        _ => None,
    }
}

} // verus!
