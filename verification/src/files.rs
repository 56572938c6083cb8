//! Where the files of media messages are stored, and the hash that tells
//! whether a file has been stored before.
use vstd::prelude::*;
use crate::router::MessageKind;
use crate::text::{chars_of, extend_chars, extend_str, i64_decimal, signed_decimal, string_of};

verus! {

/// A file to store: its path and the hash of its content.
pub struct StoredFile {
    pub path: String,
    pub hash: String,
}

/// The SHA-1 digest of `data`, as the sha1 crate writes it (`Digest`'s
/// `Display`).
pub uninterp spec fn sha1_hex(data: Seq<u8>) -> Seq<char>;

/// A lower-case hexadecimal digit.
pub open spec fn is_lower_hex(c: char) -> bool {
    ('0' <= c && c <= '9') || ('a' <= c && c <= 'f')
}

/// A UUID written in the hyphenated lower-case form,
/// `xxxxxxxx-xxxx-xxxx-xxxx-xxxxxxxxxxxx`.
pub open spec fn is_uuid_text(s: Seq<char>) -> bool {
    &&& s.len() == 36
    &&& forall|i: int|
        0 <= i < 36 ==> if i == 8 || i == 13 || i == 18 || i == 23 {
            #[trigger] s[i] == '-'
        } else {
            is_lower_hex(s[i])
        }
}

/// The directory for the files of a kind of message.
pub open spec fn media_dir(k: MessageKind) -> Seq<char> {
    match k {
        MessageKind::Photo => "photo"@,
        MessageKind::Document => "doc"@,
        MessageKind::Voice => "voice"@,
        MessageKind::Video => "video"@,
        MessageKind::VideoNote => "video"@,
        MessageKind::Sticker => "sticker"@,
        _ => "docs"@,
    }
}

/// The file name in a download URL: its last path segment, or `tmp.bin`
/// when there is none or it is empty.
pub open spec fn file_name_of(seg: Option<Seq<char>>) -> Seq<char> {
    match seg {
        Some(s) => if s.len() > 0 {
            s
        } else {
            "tmp.bin"@
        },
        None => "tmp.bin"@,
    }
}

/// What follows the last `.` of `s` (all of `s` when it has none).
pub open spec fn after_last_dot(s: Seq<char>) -> Seq<char>
    decreases s.len(),
{
    if s.len() == 0 || s.last() == '.' {
        seq![]
    } else {
        after_last_dot(s.drop_last()).push(s.last())
    }
}

/// The extension a downloaded file is stored with.
pub open spec fn extension_of(seg: Option<Seq<char>>) -> Seq<char> {
    after_last_dot(file_name_of(seg))
}

/// `dir/title_author_id.ext`.
pub open spec fn stored_path(
    dir: Seq<char>,
    title: Seq<char>,
    author: int,
    id: Seq<char>,
    ext: Seq<char>,
) -> Seq<char> {
    dir + "/"@ + title + "_"@ + signed_decimal(author) + "_"@ + id + "."@ + ext
}

/// Where the Bot API serves a file.
pub open spec fn download_url_of(token: Seq<char>, file_path: Seq<char>) -> Seq<char> {
    "https://api.telegram.org/file/bot"@ + token + "/"@ + file_path
}

/// The sha1 crate's `Sha1::new`, `update` with `data`, then `digest`
/// written with `to_string`. Claimed: the result is `sha1_hex(data)`, a
/// function of the bytes alone.
#[verifier::external_body]
fn sha1_digest(data: &Vec<u8>) -> (r: String)
    ensures
        r@ == sha1_hex(data@),
{
    let mut hasher = sha1::Sha1::new();
    hasher.update(data.as_slice());
    hasher.digest().to_string()
}

/// uuid's `Uuid::new_v4` written with `to_string`: a random UUID. Claimed:
/// it comes in the hyphenated lower-case form.
#[verifier::external_body]
fn new_uuid() -> (r: String)
    ensures
        is_uuid_text(r@),
{
    uuid::Uuid::new_v4().to_string()
}

/// The directory for the files of a kind of message.
pub fn media_directory(kind: &MessageKind) -> (d: String)
    ensures
        d@ == media_dir(*kind),
{
    match kind {
        MessageKind::Photo => String::from_str("photo"),
        MessageKind::Document => String::from_str("doc"),
        MessageKind::Voice => String::from_str("voice"),
        MessageKind::Video => String::from_str("video"),
        MessageKind::VideoNote => String::from_str("video"),
        MessageKind::Sticker => String::from_str("sticker"),
        _ => String::from_str("docs"),
    }
}

/// The extension a downloaded file is stored with, given the last segment
/// of its URL's path.
pub fn file_extension(last_segment: &Option<String>) -> (e: String)
    ensures
        e@ == extension_of(match last_segment {
            Some(s) => Some(s@),
            None => None,
        }),
{
    let name: Vec<char> = match last_segment {
        Some(s) => {
            let v = chars_of(s.as_str());
            if v.len() > 0 {
                v
            } else {
                chars_of("tmp.bin")
            }
        },
        None => chars_of("tmp.bin"),
    };
    let mut start: usize = name.len();
    while start > 0 && name[start - 1] != '.'
        invariant
            start <= name.len(),
            forall|j: int| start <= j < name.len() ==> name@[j] != '.',
        decreases start,
    {
        start -= 1;
    }
    let mut e: Vec<char> = Vec::new();
    let mut k: usize = start;
    while k < name.len()
        invariant
            start <= k <= name.len(),
            e@ == name@.subrange(start as int, k as int),
        decreases name.len() - k,
    {
        e.push(name[k]);
        assert(name@.subrange(start as int, k + 1) == name@.subrange(start as int, k as int).push(
            name@[k as int],
        ));
        k += 1;
    }
    proof {
        lemma_after_last_dot(name@, start as int);
    }
    string_of(&e)
}

proof fn lemma_after_last_dot(s: Seq<char>, start: int)
    requires
        0 <= start <= s.len(),
        start == 0 || s[start - 1] == '.',
        forall|j: int| start <= j < s.len() ==> s[j] != '.',
    ensures
        after_last_dot(s) == s.subrange(start, s.len() as int),
    decreases s.len(),
{
    if s.len() == 0 {
    } else if start == s.len() {
        assert(s.last() == '.');
    } else {
        assert(s.drop_last().subrange(start, s.len() - 1) == s.subrange(start, s.len() - 1));
        lemma_after_last_dot(s.drop_last(), start);
        assert(s.subrange(start, s.len() as int) == s.subrange(start, s.len() - 1).push(s.last()));
    }
}

/// The URL the Bot API serves a file at.
pub fn download_url(token: &str, file_path: &str) -> (u: String)
    ensures
        u@ == download_url_of(token@, file_path@),
{
    let mut out = chars_of("https://api.telegram.org/file/bot");
    extend_str(&mut out, token);
    extend_str(&mut out, "/");
    extend_str(&mut out, file_path);
    string_of(&out)
}

/// The path to store a file under: `dir/title_author_id.ext`.
pub fn file_path(dir: &str, title: &str, author: i64, id: &str, ext: &str) -> (p: String)
    ensures
        p@ == stored_path(dir@, title@, author as int, id@, ext@),
{
    let mut out = chars_of(dir);
    extend_str(&mut out, "/");
    extend_str(&mut out, title);
    extend_str(&mut out, "_");
    let a = i64_decimal(author);
    extend_chars(&mut out, &a);
    extend_str(&mut out, "_");
    extend_str(&mut out, id);
    extend_str(&mut out, ".");
    extend_str(&mut out, ext);
    string_of(&out)
}

/// The path and hash for a downloaded file of a message of kind `kind`,
/// sent by `author` in the chat named `title`; the file's URL ends in
/// `last_segment`. The path holds a fresh random UUID.
pub fn prepare_file(
    kind: &MessageKind,
    title: &str,
    author: i64,
    last_segment: &Option<String>,
    content: &Vec<u8>,
) -> (f: StoredFile)
    ensures
        f.hash@ == sha1_hex(content@),
        exists|id: Seq<char>|
            #![trigger is_uuid_text(id)]
            is_uuid_text(id) && f.path@ == stored_path(
                media_dir(*kind),
                title@,
                author as int,
                id,
                extension_of(
                    match last_segment {
                        Some(s) => Some(s@),
                        None => None,
                    },
                ),
            ),
{
    let dir = media_directory(kind);
    let id = new_uuid();
    let ext = file_extension(last_segment);
    let path = file_path(dir.as_str(), title, author, id.as_str(), ext.as_str());
    let hash = sha1_digest(content);
    assert(is_uuid_text(id@));
    StoredFile { path, hash }
}

} // verus!
