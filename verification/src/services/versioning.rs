//! Snapshot versioning of project files: where snapshots and histories are
//! kept under `.vibe/`, commit ids, and recording a commit in a history.
use vstd::prelude::*;
use crate::models::version::{VersionCommit, VersionHistory};
use crate::paths::{join_path, join_spec};
use crate::text::{blen, push_char, str_blen};

verus! {

/// `<project>/.vibe`.
pub open spec fn vibe_dir_spec(project_dir: Seq<char>) -> Seq<char> {
    join_spec(project_dir, seq!['.', 'v', 'i', 'b', 'e'])
}

/// `<project>/.vibe/<file>`.
pub open spec fn file_vibe_dir_spec(project_dir: Seq<char>, filename: Seq<char>) -> Seq<char> {
    join_spec(vibe_dir_spec(project_dir), filename)
}

/// `<project>/.vibe/<file>/snapshots`.
pub open spec fn snapshots_dir_spec(project_dir: Seq<char>, filename: Seq<char>) -> Seq<char> {
    join_spec(file_vibe_dir_spec(project_dir, filename), seq!['s', 'n', 'a', 'p', 's', 'h', 'o', 't', 's'])
}

/// `<project>/.vibe/<file>/history.json`.
pub open spec fn history_path_spec(project_dir: Seq<char>, filename: Seq<char>) -> Seq<char> {
    join_spec(
        file_vibe_dir_spec(project_dir, filename),
        seq!['h', 'i', 's', 't', 'o', 'r', 'y', '.', 'j', 's', 'o', 'n'],
    )
}

/// `<project>/.vibe/<file>/snapshots/<id>.md`.
pub open spec fn snapshot_path_spec(project_dir: Seq<char>, filename: Seq<char>, id: Seq<char>) -> Seq<char> {
    join_spec(snapshots_dir_spec(project_dir, filename), id + seq!['.', 'm', 'd'])
}

/// The directory that holds a project's version data.
pub fn vibe_dir(project_dir: &str) -> (r: String)
    ensures
        r@ == vibe_dir_spec(project_dir@),
{
    let r = join_path(project_dir, ".vibe");
    proof {
        reveal_strlit(".vibe");
    }
    r
}

/// The directory that holds one file's version data.
pub fn file_vibe_dir(project_dir: &str, filename: &str) -> (r: String)
    ensures
        r@ == file_vibe_dir_spec(project_dir@, filename@),
{
    let v = vibe_dir(project_dir);
    join_path(v.as_str(), filename)
}

/// The directory of one file's snapshots.
pub fn snapshots_dir(project_dir: &str, filename: &str) -> (r: String)
    ensures
        r@ == snapshots_dir_spec(project_dir@, filename@),
{
    let d = file_vibe_dir(project_dir, filename);
    let r = join_path(d.as_str(), "snapshots");
    proof {
        reveal_strlit("snapshots");
    }
    r
}

/// The history file of one file.
pub fn history_path(project_dir: &str, filename: &str) -> (r: String)
    ensures
        r@ == history_path_spec(project_dir@, filename@),
{
    let d = file_vibe_dir(project_dir, filename);
    let r = join_path(d.as_str(), "history.json");
    proof {
        reveal_strlit("history.json");
    }
    r
}

/// The snapshot file of one commit of a file.
pub fn snapshot_path(project_dir: &str, filename: &str, commit_id: &str) -> (r: String)
    ensures
        r@ == snapshot_path_spec(project_dir@, filename@, commit_id@),
{
    let d = snapshots_dir(project_dir, filename);
    let mut name = String::from_str(commit_id);
    name.append(".md");
    proof {
        reveal_strlit(".md");
    }
    join_path(d.as_str(), name.as_str())
}

// ---------------------------------------------------------------------------
// Commit ids
// ---------------------------------------------------------------------------

/// The lower-case hexadecimal digit of `d`.
pub open spec fn hex_digit(d: int) -> char {
    if d < 10 {
        ('0' as int + d) as char
    } else {
        ('a' as int + d - 10) as char
    }
}

/// `n` as four lower-case hexadecimal digits, zero-padded (`{:04x}`).
pub open spec fn hex4(n: u16) -> Seq<char> {
    seq![
        hex_digit((n as int / 4096) % 16),
        hex_digit((n as int / 256) % 16),
        hex_digit((n as int / 16) % 16),
        hex_digit(n as int % 16),
    ]
}

/// `c` is a decimal digit.
pub open spec fn is_digit(c: char) -> bool {
    '0' <= c <= '9'
}

/// The shape of a UTC time as `%Y%m%d-%H%M%S` from a clock at or after
/// 1970: the year (four digits, or after 9999 a `+` and up to six), month
/// and day as two digits each, a dash, and hours, minutes and seconds as
/// two digits each.
pub open spec fn stamp_shape(s: Seq<char>) -> bool {
    let n = s.len() as int;
    &&& 15 <= n <= 18
    &&& s[n - 7] == '-'
    &&& forall|i: int| n - 6 <= i < n ==> is_digit(#[trigger] s[i])
    &&& forall|i: int| n - 15 <= i < n - 7 ==> is_digit(#[trigger] s[i])
    &&& n > 15 ==> s[0] == '+' && forall|i: int| 1 <= i < n - 15 ==> is_digit(#[trigger] s[i])
}

/// The end of an RFC 3339 time at UTC: the offset `+00:00`.
pub open spec fn ends_at_utc(s: Seq<char>) -> bool {
    s.len() >= 6 && s.skip(s.len() - 6) == seq!['+', '0', '0', ':', '0', '0']
}

/// The commit id made of a time stamp and a random number: the stamp, a
/// dash, and the number as four hexadecimal digits.
pub open spec fn commit_id_spec(stamp: Seq<char>, n: u16) -> Seq<char> {
    stamp + seq!['-'] + hex4(n)
}

fn hex_char(d: u16) -> (c: char)
    requires
        d < 16,
    ensures
        c == hex_digit(d as int),
{
    let b: u8 = if d < 10 { 48u8 + d as u8 } else { 97u8 + (d as u8 - 10u8) };
    b as char
}

/// The commit id for a time stamp and a random number.
pub fn format_commit_id(stamp: &str, n: u16) -> (r: String)
    ensures
        r@ == commit_id_spec(stamp@, n),
{
    let mut r = String::from_str(stamp);
    push_char(&mut r, '-');
    push_char(&mut r, hex_char((n / 4096) % 16));
    push_char(&mut r, hex_char((n / 256) % 16));
    push_char(&mut r, hex_char((n / 16) % 16));
    push_char(&mut r, hex_char(n % 16));
    assert(r@ =~= commit_id_spec(stamp@, n));
    r
}

/// The current UTC time (`chrono::Utc::now`) formatted with
/// `%Y%m%d-%H%M%S`.  Which time it is depends on the clock and is not
/// stated; its shape is chrono's format: `Utc::now` panics on a clock
/// before 1970, so the year has no minus sign, four digits up to 9999 and
/// a `+` with more digits after; the other fields are zero-padded to two
/// digits.
#[verifier::external_body]
fn utc_stamp() -> (r: String)
    ensures
        stamp_shape(r@),
{
    chrono::Utc::now().format("%Y%m%d-%H%M%S").to_string()
}

/// The current UTC time in RFC 3339 form (`chrono::Utc::now` then
/// `to_rfc3339`).  Which time it is depends on the clock and is not
/// stated; chrono writes the UTC offset as `+00:00` at the end.
#[verifier::external_body]
fn utc_timestamp() -> (r: String)
    ensures
        ends_at_utc(r@),
{
    chrono::Utc::now().to_rfc3339()
}

/// A random `u16` from the thread's generator (`rand::rng().random()`).
/// Any value may come.
#[verifier::external_body]
fn random_u16() -> (r: u16) {
    rand::Rng::random(&mut rand::rng())
}

/// A new commit id: the current UTC time stamp, a dash, and four random
/// hexadecimal digits.
pub fn generate_commit_id() -> (r: String)
    ensures
        exists|stamp: Seq<char>, n: u16| stamp_shape(stamp) && r@ == commit_id_spec(stamp, n),
{
    let stamp = utc_stamp();
    let n = random_u16();
    let r = format_commit_id(stamp.as_str(), n);
    assert(r@ == commit_id_spec(stamp@, n));
    r
}

// ---------------------------------------------------------------------------
// Recording a commit
// ---------------------------------------------------------------------------

/// Appends a commit of `content` to the history: its id, time stamp,
/// message and the content's size in bytes.
pub fn record_commit(history: &mut VersionHistory, id: String, timestamp: String, message: &str, content: &str)
    ensures
        final(history).version == old(history).version,
        final(history).commits@.len() == old(history).commits@.len() + 1,
        forall|i: int| 0 <= i < old(history).commits@.len() ==> final(history).commits@[i] == old(history).commits@[i],
        final(history).commits@.last().id@ == id@,
        final(history).commits@.last().timestamp@ == timestamp@,
        final(history).commits@.last().message@ == message@,
        final(history).commits@.last().file_size_bytes == blen(content@),
{
    let size = str_blen(content);
    let c = VersionCommit {
        id,
        timestamp,
        message: String::from_str(message),
        file_size_bytes: size as u64,
    };
    history.commits.push(c);
}

/// Records a new commit of `content` with `message`: a fresh id (see
/// [`generate_commit_id`]) and the current time, appended to the history.
/// Returns the id, under which the caller stores the snapshot.
pub fn new_commit(history: &mut VersionHistory, message: &str, content: &str) -> (id: String)
    ensures
        exists|stamp: Seq<char>, n: u16| stamp_shape(stamp) && id@ == commit_id_spec(stamp, n),
        final(history).version == old(history).version,
        ends_at_utc(final(history).commits@.last().timestamp@),
        final(history).commits@.len() == old(history).commits@.len() + 1,
        forall|i: int| 0 <= i < old(history).commits@.len() ==> final(history).commits@[i] == old(history).commits@[i],
        final(history).commits@.last().id@ == id@,
        final(history).commits@.last().message@ == message@,
        final(history).commits@.last().file_size_bytes == blen(content@),
{
    let id = generate_commit_id();
    let stamp = utc_timestamp();
    let copy = String::from_str(id.as_str());
    record_commit(history, copy, stamp, message, content);
    id
}

} // verus!
