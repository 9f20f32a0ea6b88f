//! What a request that is refused is answered.

use crate::audit::{AuditNote, NoteModel};
use crate::text;
use vstd::prelude::*;

verus! {

/// The value of the header that asks a client for a name and a password.
pub const CHALLENGE: &'static str = "Basic realm=\"Remote File\", charset=\"UTF-8\"";

/// The value of the header that keeps such an answer out of caches.
pub const NOT_CACHED: &'static str = "no-store, no-cache, must-revalidate";

/// The answer to a request that is refused: a status, a message, whether the
/// client is asked for a name and a password, and the note for the record.
#[derive(Debug)]
pub struct Refusal {
    pub status: u16,
    pub message: String,
    pub challenge: bool,
    pub note: Option<AuditNote>,
}

/// The answer to a request that is refused.
#[verifier::ext_equal]
pub struct RefusalModel {
    pub status: u16,
    pub message: Seq<char>,
    pub challenge: bool,
    pub note: Option<NoteModel>,
}

impl View for Refusal {
    type V = RefusalModel;

    open spec fn view(&self) -> RefusalModel {
        RefusalModel {
            status: self.status,
            message: self.message@,
            challenge: self.challenge,
            note: text::opt_view(self.note),
        }
    }
}

/// A refusal that leaves nothing on the record.
pub open spec fn refused(status: u16, message: Seq<char>) -> RefusalModel {
    RefusalModel { status, message, challenge: false, note: None }
}

/// A refusal with a note for the record.
pub open spec fn refused_with(status: u16, message: Seq<char>, note: NoteModel) -> RefusalModel {
    RefusalModel { status, message, challenge: false, note: Some(note) }
}

/// A refusal that asks the client for a name and a password.
pub open spec fn challenged(note: NoteModel) -> RefusalModel {
    RefusalModel { status: 401, message: "请先登录"@, challenge: true, note: Some(note) }
}

/// A refusal of a client who has not signed in.
pub open spec fn not_signed_in() -> RefusalModel {
    refused(401, "请先登录"@)
}

/// A refusal that leaves nothing on the record.
pub fn error(status: u16, message: &str) -> (r: Refusal)
    ensures
        r@ == refused(status, message@),
{
    Refusal { status, message: message.to_owned(), challenge: false, note: None }
}

/// A refusal with a note for the record.
pub fn error_with(status: u16, message: &str, note: AuditNote) -> (r: Refusal)
    ensures
        r@ == refused_with(status, message@, note@),
{
    Refusal { status, message: message.to_owned(), challenge: false, note: Some(note) }
}

/// A refusal that asks the client for a name and a password.
pub fn basic_auth_required(note: AuditNote) -> (r: Refusal)
    ensures
        r@ == challenged(note@),
{
    Refusal { status: 401, message: "请先登录".to_owned(), challenge: true, note: Some(note) }
}

/// A refusal of a client who has not signed in.
pub fn sign_in_first() -> (r: Refusal)
    ensures
        r@ == not_signed_in(),
{
    error(401, "请先登录")
}

/// A refusal holds the status and the message that it was made with. Only one
/// that asks for a name and a password says so, and only one that was given a
/// note leaves it on the record.
pub proof fn lemma_refusals(status: u16, message: Seq<char>, note: NoteModel)
    ensures
        refused(status, message).status == status && refused(status, message).message == message,
        !refused(status, message).challenge && refused(status, message).note is None,
        refused_with(status, message, note).status == status,
        refused_with(status, message, note).message == message,
        !refused_with(status, message, note).challenge,
        refused_with(status, message, note).note == Some(note),
        challenged(note).status == 401 && challenged(note).message == "请先登录"@,
        challenged(note).challenge && challenged(note).note == Some(note),
        not_signed_in().status == 401 && not_signed_in().message == "请先登录"@,
        !not_signed_in().challenge && not_signed_in().note is None,
{
}

} // verus!
