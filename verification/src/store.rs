//! The decisions around the bot's database: which statements the schema
//! file holds, which stop words are loaded, how the member list is queried,
//! what a lookup and a stop-word check mean.
use vstd::prelude::*;
use crate::error::Error;
use crate::report::Member;
use crate::text::{
    chars_of, decimal, extend_chars, extend_str, is_split_of, split_on, string_of, strs,
    trim, trimmed, u64_decimal, views, lemma_trimmed,
};

verus! {

/// A chat as stored.
pub struct Conf {
    pub id: i64,
    pub title: String,
    pub date: i32,
}

/// After looking a record up: change it, or add it.
pub enum Upsert {
    Update,
    Insert,
}

/// The pieces, trimmed, that hold more than white space.
pub open spec fn nonblank(ps: Seq<Seq<char>>) -> Seq<Seq<char>>
    decreases ps.len(),
{
    if ps.len() == 0 {
        seq![]
    } else {
        let r = nonblank(ps.drop_last());
        let t = trimmed(ps.last());
        if t.len() == 0 {
            r
        } else {
            r.push(t)
        }
    }
}

/// `r` holds the trimmed, non-blank pieces of `text` split at `sep`.
pub open spec fn entries_of(r: Seq<Seq<char>>, text: Seq<char>, sep: char) -> bool {
    exists|ps: Seq<Seq<char>>| #![trigger nonblank(ps)] is_split_of(ps, text, sep) && r == nonblank(ps)
}

/// The entries read from a file are never blank, are trimmed, and never
/// hold the separator.
pub proof fn lemma_entries_clean(ps: Seq<Seq<char>>, sep: char)
    requires
        forall|k: int| 0 <= k < ps.len() ==> !(#[trigger] ps[k]).contains(sep),
    ensures
        forall|i: int|
            0 <= i < nonblank(ps).len() ==> {
                &&& (#[trigger] nonblank(ps)[i]).len() > 0
                &&& !nonblank(ps)[i].contains(sep)
                &&& trimmed(nonblank(ps)[i]) == nonblank(ps)[i]
            },
    decreases ps.len(),
{
    if ps.len() > 0 {
        let pre = ps.drop_last();
        assert forall|k: int| 0 <= k < pre.len() implies !(#[trigger] pre[k]).contains(sep) by {
            assert(pre[k] == ps[k]);
        }
        lemma_entries_clean(pre, sep);
        lemma_trimmed(ps.last(), sep);
        assert(!ps[ps.len() - 1].contains(sep));
        let r = nonblank(pre);
        assert forall|i: int| 0 <= i < nonblank(ps).len() implies {
            &&& (#[trigger] nonblank(ps)[i]).len() > 0
            &&& !nonblank(ps)[i].contains(sep)
            &&& trimmed(nonblank(ps)[i]) == nonblank(ps)[i]
        } by {
            if i < r.len() {
                assert(nonblank(ps)[i] == r[i]);
            }
        }
    }
}

/// The member list query; with a positive `limit`, only members seen in
/// the last `limit` days.
pub open spec fn members_query_text(limit: u32) -> Seq<char> {
    let filter = if limit > 0 {
        "and days_seen <= "@ + decimal(limit as nat)
    } else {
        seq![]
    };
    "
        SELECT DISTINCT(u.username), u.id, u.first_name, u.last_name, u.date,
        (strftime('%s','now')-r.date)/60/60/24 as days_seen
        FROM relations r
        JOIN user u
        ON u.id = r.user_id
        LEFT JOIN conf c
        ON r.conf_id = c.id
        WHERE c.id = :id
        "@
        + filter + "
        GROUP BY u.id
        ORDER BY r.date DESC"@
}

/// The trimmed, non-blank pieces of `text` between occurrences of `sep`:
/// the statements of the schema file (`;`) or the words of the stop-word
/// list (line breaks).
pub fn entries(text: &str, sep: char) -> (r: Vec<String>)
    ensures
        entries_of(strs(r@), text@, sep),
{
    let t = chars_of(text);
    let ps = split_on(&t, sep);
    let mut r: Vec<String> = Vec::new();
    let mut i: usize = 0;
    let ghost pv = views(ps@);
    assert(pv.take(0) == Seq::<Seq<char>>::empty());
    assert(strs(r@) == Seq::<Seq<char>>::empty());
    while i < ps.len()
        invariant
            i <= ps.len(),
            pv == views(ps@),
            strs(r@) == nonblank(pv.take(i as int)),
        decreases ps.len() - i,
    {
        proof {
            assert(pv.take(i + 1).drop_last() == pv.take(i as int));
            assert(pv.take(i + 1).last() == ps@[i as int]@);
        }
        let w = trim(&ps[i]);
        if w.len() > 0 {
            let ghost before = r@;
            r.push(string_of(&w));
            assert(strs(r@) == strs(before).push(w@));
        }
        i += 1;
    }
    assert(pv.take(ps.len() as int) == pv);
    r
}

/// The member list query.
pub fn members_query(limit: u32) -> (q: String)
    ensures
        q@ == members_query_text(limit),
{
    let mut out = chars_of(
        "
        SELECT DISTINCT(u.username), u.id, u.first_name, u.last_name, u.date,
        (strftime('%s','now')-r.date)/60/60/24 as days_seen
        FROM relations r
        JOIN user u
        ON u.id = r.user_id
        LEFT JOIN conf c
        ON r.conf_id = c.id
        WHERE c.id = :id
        ",
    );
    let ghost head = out@;
    if limit > 0 {
        extend_str(&mut out, "and days_seen <= ");
        let d = u64_decimal(limit as u64);
        extend_chars(&mut out, &d);
    } else {
        assert(out@ == head + Seq::<char>::empty());
    }
    extend_str(&mut out, "
        GROUP BY u.id
        ORDER BY r.date DESC");
    string_of(&out)
}

/// What a stop-word lookup means. The lookup runs a `SELECT` as a
/// statement: a word on the list makes it fail (it returns rows), a word
/// not on the list changes nothing (`Ok(0)`).
pub fn stop_word_check(outcome: Result<usize, String>) -> (r: Result<(), Error>)
    ensures
        match outcome {
            Ok(0) => r is Ok,
            Ok(_) => r == Err::<(), Error>(Error::WordNotFound),
            Err(m) => r matches Err(Error::SQLITE3Error(e)) && e@ == m@,
        },
{
    match outcome {
        Ok(n) => if n == 0 {
            Ok(())
        } else {
            Err(Error::WordNotFound)
        },
        Err(m) => Err(Error::SQLITE3Error(m)),
    }
}

/// Whether a word is counted: only words that passed the stop-word check.
pub fn word_counted(check: &Result<(), Error>) -> (b: bool)
    ensures
        b == check is Ok,
{
    check.is_ok()
}

/// The first user a lookup found, or `UserNotFound`.
pub fn first_user(rows: Vec<Member>) -> (r: Result<Member, Error>)
    ensures
        rows.len() == 0 ==> r == Err::<Member, Error>(Error::UserNotFound),
        rows.len() > 0 ==> r == Ok::<Member, Error>(rows@[0]),
{
    let mut rows = rows;
    if rows.len() == 0 {
        Err(Error::UserNotFound)
    } else {
        Ok(rows.swap_remove(0))
    }
}

/// The first chat a lookup found, or `ConfNotFound`.
pub fn first_conf(rows: Vec<Conf>) -> (r: Result<Conf, Error>)
    ensures
        rows.len() == 0 ==> r == Err::<Conf, Error>(Error::ConfNotFound),
        rows.len() > 0 ==> r == Ok::<Conf, Error>(rows@[0]),
{
    let mut rows = rows;
    if rows.len() == 0 {
        Err(Error::ConfNotFound)
    } else {
        Ok(rows.swap_remove(0))
    }
}

/// A record that a lookup found is updated; one it did not find is added.
pub fn upsert_after_lookup(found: bool) -> (u: Upsert)
    ensures
        found ==> u is Update,
        !found ==> u is Insert,
{
    if found {
        Upsert::Update
    } else {
        Upsert::Insert
    }
}

} // verus!
