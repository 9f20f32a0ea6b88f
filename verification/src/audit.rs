//! The record of what was asked of the server and how it answered.

use crate::clock;
use crate::clock::Timestamp;
use crate::headers;
use crate::headers::{HeadersModel, RequestHeaders};
use crate::text;
use vstd::prelude::*;

verus! {

/// The number of entries that the record keeps.
pub const KEPT_LOGS: usize = 1000;

/// The number of entries that an administrator is shown.
pub const SHOWN_LOGS: usize = 200;

/// What a request says of itself to the record.
#[derive(Debug)]
pub struct AuditNote {
    pub username: Option<String>,
    pub action: String,
    pub path: Option<String>,
    pub status: u16,
    pub detail: String,
}

/// What a request says of itself to the record.
#[verifier::ext_equal]
pub struct NoteModel {
    pub username: Option<Seq<char>>,
    pub action: Seq<char>,
    pub path: Option<Seq<char>>,
    pub status: u16,
    pub detail: Seq<char>,
}

impl View for AuditNote {
    type V = NoteModel;

    open spec fn view(&self) -> NoteModel {
        NoteModel {
            username: text::opt_view(self.username),
            action: self.action@,
            path: text::opt_view(self.path),
            status: self.status,
            detail: self.detail@,
        }
    }
}

/// An entry of the record.
#[derive(Debug)]
pub struct AuditLog {
    pub at: Timestamp,
    pub username: Option<String>,
    pub action: String,
    pub path: Option<String>,
    pub status: String,
    pub detail: String,
    pub ip: Option<String>,
}

/// An entry of the record.
#[verifier::ext_equal]
pub struct LogModel {
    pub at: Timestamp,
    pub username: Option<Seq<char>>,
    pub action: Seq<char>,
    pub path: Option<Seq<char>>,
    pub status: Seq<char>,
    pub detail: Seq<char>,
    pub ip: Option<Seq<char>>,
}

impl View for AuditLog {
    type V = LogModel;

    open spec fn view(&self) -> LogModel {
        LogModel {
            at: self.at,
            username: text::opt_view(self.username),
            action: self.action@,
            path: text::opt_view(self.path),
            status: self.status@,
            detail: self.detail@,
            ip: text::opt_view(self.ip),
        }
    }
}

impl Clone for AuditLog {
    fn clone(&self) -> (r: Self)
        ensures
            r@ == self@,
    {
        AuditLog {
            at: self.at,
            username: text::copy_option(&self.username),
            action: self.action.clone(),
            path: text::copy_option(&self.path),
            status: self.status.clone(),
            detail: self.detail.clone(),
            ip: text::copy_option(&self.ip),
        }
    }
}

/// The note of a request by a user on a path.
pub open spec fn noted(
    username: Option<Seq<char>>,
    action: Seq<char>,
    path: Option<Seq<char>>,
    status: u16,
    detail: Seq<char>,
) -> NoteModel {
    NoteModel { username, action, path, status, detail }
}

/// The entry that a note makes, with the time and the address of the client.
pub open spec fn entry_of(note: NoteModel, ip: Option<Seq<char>>, at: Timestamp) -> LogModel {
    LogModel {
        at,
        username: note.username,
        action: note.action,
        path: note.path,
        status: text::decimal_digits(note.status as nat),
        detail: note.detail,
        ip,
    }
}

/// The last items of a sequence, at most `n` of them.
pub open spec fn last_items<T>(s: Seq<T>, n: int) -> Seq<T> {
    if s.len() > n {
        s.skip(s.len() - n)
    } else {
        s
    }
}

/// The record after one more entry: the oldest entries make room.
pub open spec fn logged(logs: Seq<LogModel>, entry: LogModel) -> Seq<LogModel> {
    last_items(logs.push(entry), KEPT_LOGS as int)
}

/// The record after a request with the given headers and note.
pub open spec fn recorded(
    logs: Seq<LogModel>,
    headers: HeadersModel,
    note: NoteModel,
    at: Timestamp,
) -> Seq<LogModel> {
    logged(logs, entry_of(note, headers::address_of(headers), at))
}

/// The newest entries, the newest first.
pub open spec fn newest_first(logs: Seq<LogModel>) -> Seq<LogModel> {
    last_items(logs, SHOWN_LOGS as int).reverse()
}

/// The note of a request by a user on a path.
pub fn note(
    username: Option<String>,
    action: &str,
    path: Option<String>,
    status: u16,
    detail: &str,
) -> (r: AuditNote)
    ensures
        r@ == noted(text::opt_view(username), action@, text::opt_view(path), status, detail@),
{
    AuditNote { username, action: action.to_owned(), path, status, detail: detail.to_owned() }
}

/// Puts the note of a request on the record at a given time.
pub fn record_audit_at(
    logs: &mut Vec<AuditLog>,
    headers: &RequestHeaders,
    note: AuditNote,
    at: Timestamp,
)
    ensures
        text::views(final(logs)@) == recorded(text::views(old(logs)@), headers@, note@, at),
{
    let ghost before = text::views(logs@);
    let ghost entry = entry_of(note@, headers::address_of(headers@), at);
    logs.push(
        AuditLog {
            at,
            username: note.username,
            action: note.action,
            path: note.path,
            status: text::decimal(note.status as u64),
            detail: note.detail,
            ip: headers::client_ip(headers),
        },
    );
    let ghost all = before.push(entry);
    assert(text::views(logs@) =~= all);
    while logs.len() > KEPT_LOGS
        invariant
            logs@.len() <= all.len(),
            all.len() >= KEPT_LOGS ==> logs@.len() >= KEPT_LOGS,
            all.len() < KEPT_LOGS ==> logs@.len() == all.len(),
            text::views(logs@) == all.skip(all.len() - logs@.len()),
        decreases logs@.len(),
    {
        let ghost seen = logs@;
        let _ = logs.remove(0);
        assert(text::views(logs@) =~= text::views(seen).skip(1));
        assert(text::views(logs@) =~= all.skip(all.len() - logs@.len()));
    }
    assert(text::views(logs@) =~= last_items(all, KEPT_LOGS as int));
}

/// Puts the note of a request on the record at the current time.
pub fn record_audit(logs: &mut Vec<AuditLog>, headers: &RequestHeaders, note: AuditNote)
    ensures
        exists|at: Timestamp|
            text::views(final(logs)@) == #[trigger] recorded(
                text::views(old(logs)@),
                headers@,
                note@,
                at,
            ),
{
    let at: Timestamp = clock::now();
    record_audit_at(logs, headers, note, at);
}

/// The newest entries, the newest first.
pub fn recent_logs(logs: &Vec<AuditLog>) -> (r: Vec<AuditLog>)
    ensures
        text::views(r@) == newest_first(text::views(logs@)),
{
    let mut r: Vec<AuditLog> = Vec::new();
    let n: usize = logs.len();
    let mut i: usize = 0;
    while i < n && i < SHOWN_LOGS
        invariant
            i <= n,
            i <= SHOWN_LOGS,
            n == logs@.len(),
            r@.len() == i,
            forall|j: int| 0 <= j < i ==> (#[trigger] r@[j])@ == logs@[n - 1 - j]@,
        decreases n - i,
    {
        r.push(logs[n - 1 - i].clone());
        i += 1;
    }
    assert(text::views(r@) =~= newest_first(text::views(logs@)));
    r
}

/// The record never holds more than its limit, its newest entry is the one
/// that came last, and the entries before it keep their order.
pub proof fn lemma_record_is_bounded(logs: Seq<LogModel>, entry: LogModel)
    ensures
        logged(logs, entry).len() <= KEPT_LOGS,
        logged(logs, entry).last() == entry,
        logs.len() < KEPT_LOGS ==> logged(logs, entry) == logs.push(entry),
        logged(logs, entry).drop_last().is_suffix_of(logs),
{
    let kept = logged(logs, entry);
    let n = kept.len() - 1;
    assert(kept.drop_last() =~= logs.subrange(logs.len() - n, logs.len() as int));
}

/// The newest entry of the record is the first that an administrator is shown.
pub proof fn lemma_newest_is_shown_first(logs: Seq<LogModel>, entry: LogModel)
    ensures
        newest_first(logged(logs, entry)).len() <= SHOWN_LOGS,
        newest_first(logged(logs, entry))[0] == entry,
{
    lemma_record_is_bounded(logs, entry);
}

/// An entry of the record holds what the note says, the status in digits, the
/// time and the address of the client.
pub proof fn lemma_entry_holds_the_note(
    username: Option<Seq<char>>,
    action: Seq<char>,
    path: Option<Seq<char>>,
    status: u16,
    detail: Seq<char>,
    logs: Seq<LogModel>,
    headers: HeadersModel,
    at: Timestamp,
)
    ensures
        ({
            let entry = recorded(
                logs,
                headers,
                noted(username, action, path, status, detail),
                at,
            ).last();
            &&& entry.username == username && entry.action == action && entry.path == path
            &&& entry.detail == detail && entry.at == at
            &&& crate::config::is_number(entry.status) && crate::config::number_value(entry.status)
                == status
            &&& entry.ip == headers::address_of(headers)
        }),
        ({
            let note = noted(username, action, path, status, detail);
            &&& note.username == username && note.action == action && note.path == path
            &&& note.status == status && note.detail == detail
        }),
{
    let entry = entry_of(
        noted(username, action, path, status, detail),
        headers::address_of(headers),
        at,
    );
    lemma_record_is_bounded(logs, entry);
    crate::config::lemma_decimal_digits(status as nat);
}

/// The record keeps the thousand newest entries in their order: one more entry
/// comes last, and the oldest goes only where the record was full.
pub proof fn lemma_record_keeps_a_thousand(logs: Seq<LogModel>, entry: LogModel)
    requires
        logs.len() <= 1000,
    ensures
        logs.len() < 1000 ==> logged(logs, entry) == logs.push(entry),
        logs.len() == 1000 ==> logged(logs, entry) == logs.drop_first().push(entry),
{
    assert(logs.len() == 1000 ==> logs.push(entry).skip(1) =~= logs.drop_first().push(entry));
}

/// An administrator is shown the newest entries, two hundred of them at most,
/// from the newest back.
pub proof fn lemma_shown_record(logs: Seq<LogModel>, i: int)
    ensures
        newest_first(logs).len() == (if logs.len() < 200 {
            logs.len() as int
        } else {
            200
        }),
        0 <= i < newest_first(logs).len() ==> newest_first(logs)[i] == logs[logs.len() - 1 - i],
{
}

} // verus!
