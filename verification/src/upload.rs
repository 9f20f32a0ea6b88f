//! Uploading files and making directories.

use crate::account;
use crate::audit;
use crate::audit::{AuditNote, NoteModel};
use crate::headers::{HeadersModel, RequestHeaders};
use crate::path;
use crate::permit;
use crate::permit::{Permit, PermitModel};
use crate::reply;
use crate::reply::{Refusal, RefusalModel};
use crate::secrets;
use crate::sharing;
use crate::store;
use crate::store::{Store, StoreModel};
use crate::table::Table;
use crate::text;
use vstd::prelude::*;
use vstd::utf8::*;

verus! {

/// The number below which a number is tried for a file whose name is taken.
pub const TRIED_NUMBERS: u64 = 1000;

/// What is done with a file whose name is taken.
#[derive(Debug, Clone, Copy, PartialEq, Eq, Structural)]
pub enum UploadConflict {
    Error,
    Overwrite,
    Rename,
}

/// What a query says of a file whose name is taken.
pub open spec fn conflict_of(query: Map<Seq<char>, Seq<char>>) -> UploadConflict {
    match store::found(query, "conflict"@) {
        Some(value) => if value == "overwrite"@ {
            UploadConflict::Overwrite
        } else if value == "rename"@ {
            UploadConflict::Rename
        } else {
            UploadConflict::Error
        },
        None => UploadConflict::Error,
    }
}

impl UploadConflict {
    /// What a query says of a file whose name is taken.
    pub fn from_query(query: &Table<String>) -> (r: Self)
        ensures
            r == conflict_of(query@),
    {
        match query.get("conflict") {
            Some(value) => {
                if text::same(value, "overwrite") {
                    UploadConflict::Overwrite
                } else if text::same(value, "rename") {
                    UploadConflict::Rename
                } else {
                    UploadConflict::Error
                }
            },
            None => UploadConflict::Error,
        }
    }
}

/// What to do next to find the name of a file that is uploaded: write it under
/// a name, refuse it, or ask the disk whether a name with a number is taken.
#[derive(Debug)]
pub enum UploadStep {
    Write { name: String },
    Refuse { refusal: Refusal },
    Ask { name: String, number: u64 },
}

/// What to do next to find the name of a file that is uploaded.
#[verifier::ext_equal]
pub enum UploadStepModel {
    Write { name: Seq<char> },
    Refuse { refusal: RefusalModel },
    Ask { name: Seq<char>, number: u64 },
}

impl View for UploadStep {
    type V = UploadStepModel;

    open spec fn view(&self) -> UploadStepModel {
        match self {
            UploadStep::Write { name } => UploadStepModel::Write { name: name@ },
            UploadStep::Refuse { refusal } => UploadStepModel::Refuse { refusal: refusal@ },
            UploadStep::Ask { name, number } => UploadStepModel::Ask {
                name: name@,
                number: *number,
            },
        }
    }
}

/// Leave to upload to a directory, else a refusal.
pub open spec fn upload_check(
    store: StoreModel,
    headers: HeadersModel,
    root: Seq<char>,
    dir: Seq<char>,
) -> Result<PermitModel, RefusalModel> {
    match store::identified(store, headers) {
        None => Err(reply::not_signed_in()),
        Some(user) => if !user.permissions.can_upload {
            Err(sharing::denied(user, "upload"@, dir, "没有上传权限"@, "上传权限不足"@))
        } else if !account::may_read(user, dir) {
            Err(
                sharing::denied(
                    user,
                    "upload"@,
                    dir,
                    "不能上传到这个目录"@,
                    "上传目录权限不足"@,
                ),
            )
        } else {
            Ok(permit::permitted(user, dir, root))
        },
    }
}

/// The first step for a file, given whether its name is taken.
pub open spec fn first_step_of(
    file_name: Seq<char>,
    taken: bool,
    conflict: UploadConflict,
) -> UploadStepModel {
    if !taken || conflict == UploadConflict::Overwrite {
        UploadStepModel::Write { name: file_name }
    } else if conflict == UploadConflict::Error {
        UploadStepModel::Refuse { refusal: reply::refused(409, "文件已存在"@) }
    } else {
        UploadStepModel::Ask { name: path::numbered_name(file_name, 1), number: 1 }
    }
}

/// The step after the disk said whether the name with a number is taken.
pub open spec fn next_step_of(
    file_name: Seq<char>,
    number: u64,
    taken: bool,
) -> UploadStepModel {
    if !taken {
        UploadStepModel::Write { name: path::numbered_name(file_name, number as nat) }
    } else if number + 1 < TRIED_NUMBERS {
        UploadStepModel::Ask {
            name: path::numbered_name(file_name, (number + 1) as nat),
            number: (number + 1) as u64,
        }
    } else {
        UploadStepModel::Refuse { refusal: reply::refused(500, "无法生成可用文件名"@) }
    }
}

/// The name under which a file is kept while it is uploaded.
pub open spec fn temporary_name(file_name: Seq<char>, token: Seq<char>) -> Seq<char> {
    seq!['.'] + file_name + seq!['.'] + secrets::base64_text(encode_utf8(token), true, false)
        + ".uploading"@
}

/// The note of a user who uploaded files.
pub open spec fn upload_note(username: Seq<char>, dir: Seq<char>, uploaded: nat) -> NoteModel {
    audit::noted(
        Some(username),
        "upload"@,
        Some(dir),
        204,
        "上传 "@ + text::decimal_digits(uploaded) + " 个文件"@,
    )
}

/// Leave to make a directory, else a refusal.
pub open spec fn directory_check(
    store: StoreModel,
    headers: HeadersModel,
    root: Seq<char>,
    parent: Seq<char>,
    name: Seq<char>,
) -> Result<PermitModel, RefusalModel> {
    let target = path::child(parent, text::trimmed(name));
    match store::signed_in(store, headers) {
        None => Err(reply::not_signed_in()),
        Some(user) => if !user.permissions.can_upload {
            Err(
                sharing::denied(
                    user,
                    "mkdir"@,
                    parent,
                    "没有创建文件夹权限"@,
                    "创建文件夹权限不足"@,
                ),
            )
        } else if !account::may_read(user, parent) {
            Err(
                sharing::denied(
                    user,
                    "mkdir"@,
                    parent,
                    "不能在这个目录创建文件夹"@,
                    "目录权限不足"@,
                ),
            )
        } else if !path::is_name(text::trimmed(name)) {
            Err(reply::refused(400, "文件夹名称不合法"@))
        } else if !account::may_read(user, target) {
            Err(reply::refused(403, "不能创建这个文件夹"@))
        } else {
            Ok(permit::permitted(user, target, root))
        },
    }
}

/// Leave to upload to a directory, else a refusal.
pub fn check_upload(store: &Store, headers: &RequestHeaders, root: &str, dir: &str) -> (r: Result<
    Permit,
    Refusal,
>)
    ensures
        text::result_view(r) == upload_check(store@, headers@, root@, dir@),
{
    match store::current_user_or_basic(store, headers) {
        None => Err(reply::sign_in_first()),
        Some(user) => {
            if !user.permissions.can_upload {
                return Err(sharing::deny(&user, "upload", dir, "没有上传权限", "上传权限不足"));
            }
            if !account::can_read(&user, dir) {
                return Err(
                    sharing::deny(&user, "upload", dir, "不能上传到这个目录", "上传目录权限不足"),
                );
            }
            Ok(permit::permit(user, dir.to_owned(), root))
        },
    }
}

/// The first step for a file, given whether its name is taken.
pub fn first_step(file_name: &str, taken: bool, conflict: UploadConflict) -> (r: UploadStep)
    ensures
        r@ == first_step_of(file_name@, taken, conflict),
{
    if !taken || conflict == UploadConflict::Overwrite {
        UploadStep::Write { name: file_name.to_owned() }
    } else if conflict == UploadConflict::Error {
        UploadStep::Refuse { refusal: reply::error(409, "文件已存在") }
    } else {
        UploadStep::Ask { name: path::numbered_file_name(file_name, 1), number: 1 }
    }
}

/// The step after the disk said whether the name with a number is taken.
pub fn next_step(file_name: &str, number: u64, taken: bool) -> (r: UploadStep)
    ensures
        r@ == next_step_of(file_name@, number, taken),
{
    if !taken {
        UploadStep::Write { name: path::numbered_file_name(file_name, number) }
    } else if number < TRIED_NUMBERS - 1 {
        UploadStep::Ask {
            name: path::numbered_file_name(file_name, number + 1),
            number: number + 1,
        }
    } else {
        UploadStep::Refuse { refusal: reply::error(500, "无法生成可用文件名") }
    }
}

/// Where on disk a file is kept while it is uploaded to a directory, given a
/// token.
pub fn upload_temp_path_with(dir: &str, file_name: &str, token: &str) -> (r: String)
    requires
        encode_utf8(token@).len() <= 0x1000_0000,
    ensures
        r@ == path::pushed(dir@, temporary_name(file_name@, token@)),
{
    let safe_token: String = secrets::encode_url_safe(token.as_bytes());
    let head: String = text::concat(&text::concat(".", file_name), ".");
    let name: String = text::concat(&text::concat(&head, &safe_token), ".uploading");
    proof {
        reveal_strlit(".");
        assert("."@ =~= seq!['.']);
    }
    path::push_name(dir, &name)
}

/// Where on disk a file is kept while it is uploaded to a directory, under a
/// new random token.
pub fn upload_temp_path(dir: &str, file_name: &str) -> (r: String)
    ensures
        exists|token: Seq<char>|
            secrets::is_token(token) && r@ == path::pushed(
                dir@,
                #[trigger] temporary_name(file_name@, token),
            ),
{
    let token: String = secrets::random_token();
    proof {
        lemma_token_bytes(token@);
    }
    upload_temp_path_with(dir, file_name, &token)
}

proof fn lemma_token_bytes(token: Seq<char>)
    requires
        secrets::is_token(token),
    ensures
        encode_utf8(token).len() == 43,
{
    secrets::lemma_token_symbols(token);
    assert forall|i: int| 0 <= i < token.len() implies 0 <= #[trigger] (token[i] as nat) < 128 by {
        let n = choose|n: int|
            0 <= n < 64 && token[i] == #[trigger] secrets::base64_symbol(n, false);
    }
    is_ascii_chars_encode_utf8(token);
}

/// The note of a user who uploaded files.
pub fn note_upload(username: &str, dir: &str, uploaded: u64) -> (r: AuditNote)
    ensures
        r@ == upload_note(username@, dir@, uploaded as nat),
{
    let detail: String = text::concat(
        &text::concat("上传 ", &text::decimal(uploaded)),
        " 个文件",
    );
    audit::note(Some(username.to_owned()), "upload", Some(dir.to_owned()), 204, &detail)
}

/// Leave to make a directory, else a refusal.
pub fn check_new_directory(
    store: &Store,
    headers: &RequestHeaders,
    root: &str,
    parent: &str,
    name: &str,
) -> (r: Result<Permit, Refusal>)
    ensures
        text::result_view(r) == directory_check(store@, headers@, root@, parent@, name@),
{
    let user = match store::current_user(store, headers) {
        None => {
            return Err(reply::sign_in_first());
        },
        Some(user) => user,
    };
    if !user.permissions.can_upload {
        return Err(
            sharing::deny(&user, "mkdir", parent, "没有创建文件夹权限", "创建文件夹权限不足"),
        );
    }
    if !account::can_read(&user, parent) {
        return Err(
            sharing::deny(&user, "mkdir", parent, "不能在这个目录创建文件夹", "目录权限不足"),
        );
    }
    match path::clean_directory_name(name) {
        None => Err(reply::error(400, "文件夹名称不合法")),
        Some(name) => {
            let target: String = path::join_virtual(parent, &name);
            if !account::can_read(&user, &target) {
                return Err(reply::error(403, "不能创建这个文件夹"));
            }
            Ok(permit::permit(user, target, root))
        },
    }
}

/// The refusal to make a directory where the disk holds something.
pub fn directory_exists() -> (r: Refusal)
    ensures
        r@ == reply::refused(409, "文件夹已存在"@),
{
    reply::error(409, "文件夹已存在")
}

/// The note of a user who made a directory.
pub fn note_directory(username: &str, path: &str) -> (r: AuditNote)
    ensures
        r@ == audit::noted(Some(username@), "mkdir"@, Some(path@), 201, "创建文件夹"@),
{
    audit::note(
        Some(username.to_owned()),
        "mkdir",
        Some(path.to_owned()),
        201,
        "创建文件夹",
    )
}

/// The step that ends the search for the name of a file, given the names that
/// are taken on disk.
pub open spec fn last_step(
    file_name: Seq<char>,
    step: UploadStepModel,
    taken: Set<Seq<char>>,
) -> UploadStepModel
    decreases TRIED_NUMBERS - step->number,
{
    match step {
        UploadStepModel::Ask { name, number } => {
            let next = next_step_of(file_name, number, taken.contains(name));
            if next is Ask && number < TRIED_NUMBERS {
                last_step(file_name, next, taken)
            } else {
                next
            }
        },
        _ => step,
    }
}

proof fn lemma_last_step(file_name: Seq<char>, number: u64, taken: Set<Seq<char>>)
    requires
        1 <= number < TRIED_NUMBERS,
        forall|n: nat|
            1 <= n < number ==> taken.contains(#[trigger] path::numbered_name(file_name, n)),
    ensures
        ({
            let step = UploadStepModel::Ask {
                name: path::numbered_name(file_name, number as nat),
                number,
            };
            match last_step(file_name, step, taken) {
                UploadStepModel::Write { name } => is_first_free(file_name, taken, name),
                UploadStepModel::Refuse { refusal } => all_taken(file_name, taken) && refusal
                    == reply::refused(500, "无法生成可用文件名"@),
                UploadStepModel::Ask { .. } => false,
            }
        }),
    decreases TRIED_NUMBERS - number,
{
    let name = path::numbered_name(file_name, number as nat);
    if !taken.contains(name) {
        assert(first_free_at(file_name, taken, number as nat));
    } else if number + 1 < TRIED_NUMBERS {
        lemma_last_step(file_name, (number + 1) as u64, taken);
    }
}

/// Whether a number is the first whose name is free.
pub open spec fn first_free_at(file_name: Seq<char>, taken: Set<Seq<char>>, number: nat) -> bool {
    &&& 1 <= number < TRIED_NUMBERS
    &&& !taken.contains(path::numbered_name(file_name, number))
    &&& forall|n: nat|
        1 <= n < number ==> taken.contains(#[trigger] path::numbered_name(file_name, n))
}

/// Whether a name is the first free one among those with a number.
pub open spec fn is_first_free(
    file_name: Seq<char>,
    taken: Set<Seq<char>>,
    name: Seq<char>,
) -> bool {
    exists|number: nat| #[trigger]
        first_free_at(file_name, taken, number) && name == path::numbered_name(file_name, number)
}

/// Whether every name with a number is taken.
pub open spec fn all_taken(file_name: Seq<char>, taken: Set<Seq<char>>) -> bool {
    forall|n: nat|
        1 <= n < TRIED_NUMBERS ==> taken.contains(#[trigger] path::numbered_name(file_name, n))
}

/// A file takes the place of another only where that was asked for. Where its
/// name is taken, it is refused, or it gets the first free name with a number;
/// it is refused too where no such name is free.
pub proof fn lemma_upload_keeps_what_is_there(
    file_name: Seq<char>,
    taken: Set<Seq<char>>,
    conflict: UploadConflict,
)
    ensures
        ({
            let first = first_step_of(file_name, taken.contains(file_name), conflict);
            match last_step(file_name, first, taken) {
                UploadStepModel::Write { name } => {
                    ||| name == file_name && (conflict == UploadConflict::Overwrite
                        || !taken.contains(name))
                    ||| conflict == UploadConflict::Rename && taken.contains(file_name)
                        && is_first_free(file_name, taken, name)
                },
                UploadStepModel::Refuse { refusal } => {
                    &&& taken.contains(file_name)
                    &&& conflict == UploadConflict::Error ==> refusal.status == 409
                    &&& conflict == UploadConflict::Rename ==> refusal.status == 500 && all_taken(
                        file_name,
                        taken,
                    )
                    &&& conflict != UploadConflict::Overwrite
                },
                UploadStepModel::Ask { .. } => false,
            }
        }),
{
    if taken.contains(file_name) && conflict == UploadConflict::Rename {
        lemma_last_step(file_name, 1, taken);
    }
}

/// A query asks to replace a file by `overwrite` and for another name by
/// `rename`, under `conflict`; otherwise nothing is replaced.
pub proof fn lemma_conflicts(query: Map<Seq<char>, Seq<char>>)
    ensures
        conflict_of(query) == UploadConflict::Overwrite <==> query.contains_key("conflict"@)
            && query["conflict"@] == "overwrite"@,
        conflict_of(query) == UploadConflict::Rename <==> query.contains_key("conflict"@)
            && query["conflict"@] == "rename"@,
{
    reveal_strlit("overwrite");
    reveal_strlit("rename");
    assert("overwrite"@.len() != "rename"@.len());
}

/// Leave to upload is for the directory that was asked for and for its place on
/// disk. A user has it exactly where they may upload and may see the directory.
pub proof fn lemma_upload_leave(
    store: StoreModel,
    headers: HeadersModel,
    root: Seq<char>,
    dir: Seq<char>,
)
    ensures
        upload_check(store, headers, root, dir) is Ok <==> (store::identified(
            store,
            headers,
        ) matches Some(user) && user.permissions.can_upload && account::may_read(user, dir)),
        upload_check(store, headers, root, dir) matches Ok(permit) ==> {
            &&& store::identified(store, headers) == Some(permit.user)
            &&& permit.path == dir
            &&& permit.full_path == path::located(root, dir)
        },
        upload_check(store, headers, root, dir) matches Err(e) ==> {
            &&& !e.challenge
            &&& match store::identified(store, headers) {
                None => e.status == 401 && e.message == "请先登录"@ && e.note is None,
                Some(user) => e.status == 403 && e.message == (if user.permissions.can_upload {
                    "不能上传到这个目录"@
                } else {
                    "没有上传权限"@
                }) && (e.note matches Some(note) && note.username == Some(user.username)
                    && note.action == "upload"@ && note.path == Some(dir) && note.status == 403
                    && note.detail == (if user.permissions.can_upload {
                    "上传目录权限不足"@
                } else {
                    "上传权限不足"@
                })),
            }
        },
{
}

/// A name that is free is kept. One that is taken is kept to replace the file,
/// refused, or given the numbers from one to 999 in turn.
pub proof fn lemma_upload_steps(
    file_name: Seq<char>,
    taken: bool,
    conflict: UploadConflict,
    number: u64,
)
    requires
        1 <= number <= 999,
    ensures
        match first_step_of(file_name, taken, conflict) {
            UploadStepModel::Write { name } => name == file_name && (!taken || conflict
                == UploadConflict::Overwrite),
            UploadStepModel::Refuse { refusal } => taken && conflict == UploadConflict::Error
                && refusal.status == 409 && refusal.message == "文件已存在"@,
            UploadStepModel::Ask { name, number } => taken && conflict == UploadConflict::Rename
                && number == 1 && name == path::numbered_name(file_name, 1),
        },
        match next_step_of(file_name, number, taken) {
            UploadStepModel::Write { name } => !taken && name == path::numbered_name(
                file_name,
                number as nat,
            ),
            UploadStepModel::Refuse { refusal } => taken && number == 999 && refusal.status == 500
                && refusal.message == "无法生成可用文件名"@,
            UploadStepModel::Ask { name, number: next } => taken && next == number + 1 && next
                <= 999 && name == path::numbered_name(file_name, next as nat),
        },
{
}

/// While a file is uploaded it lies in the directory where it will be, under
/// another name that tells what it is.
pub proof fn lemma_temporary_name(dir: Seq<char>, file_name: Seq<char>, token: Seq<char>)
    requires
        path::is_name(temporary_name(file_name, token)),
    ensures
        (seq!['.'] + file_name + seq!['.']).is_prefix_of(temporary_name(file_name, token)),
        ".uploading"@.is_suffix_of(temporary_name(file_name, token)),
        temporary_name(file_name, token) != file_name,
        secrets::base64_text(encode_utf8(token), true, false) == temporary_name(
            file_name,
            token,
        ).subrange(
            file_name.len() as int + 2,
            temporary_name(file_name, token).len() - ".uploading"@.len(),
        ),
        path::names_in(path::pushed(dir, temporary_name(file_name, token))) == path::names_in(
            dir,
        ).push(temporary_name(file_name, token)),
{
    reveal_strlit(".uploading");
    let name = temporary_name(file_name, token);
    let head = seq!['.'] + file_name + seq!['.'];
    let middle = secrets::base64_text(encode_utf8(token), true, false);
    assert(name =~= head + middle + ".uploading"@);
    assert(head =~= name.take(head.len() as int));
    assert(".uploading"@ =~= name.subrange(name.len() - 10, name.len() as int));
    assert(middle =~= name.subrange(file_name.len() as int + 2, name.len() - 10));
    path::lemma_pushed(dir, name);
}

/// The note of an upload says who uploaded how many files where.
pub proof fn lemma_upload_note(username: Seq<char>, dir: Seq<char>, uploaded: nat) -> (digits: Seq<
    char,
>)
    ensures
        crate::config::is_number(digits),
        crate::config::number_value(digits) == uploaded,
        upload_note(username, dir, uploaded).detail == "上传 "@ + digits + " 个文件"@,
        upload_note(username, dir, uploaded).username == Some(username),
        upload_note(username, dir, uploaded).action == "upload"@,
        upload_note(username, dir, uploaded).path == Some(dir),
        upload_note(username, dir, uploaded).status == 204,
{
    crate::config::lemma_decimal_digits(uploaded);
    text::decimal_digits(uploaded)
}

/// Leave to make a directory is for the entry of that name, without the white
/// space around it, in the directory that was asked for. A user has it exactly
/// where they may upload, may see the directory and the new one, and the name is
/// a name.
pub proof fn lemma_directory_leave(
    store: StoreModel,
    headers: HeadersModel,
    root: Seq<char>,
    parent: Seq<char>,
    name: Seq<char>,
)
    ensures
        directory_check(store, headers, root, parent, name) is Ok <==> (store::signed_in(
            store,
            headers,
        ) matches Some(user) && user.permissions.can_upload && account::may_read(user, parent)
            && text::trimmed(name).len() > 0 && text::trimmed(name) != seq!['.'] && text::trimmed(
            name,
        ) != seq!['.', '.'] && !text::trimmed(name).contains('/') && account::may_read(
            user,
            path::child(parent, text::trimmed(name)),
        )),
        directory_check(store, headers, root, parent, name) matches Ok(permit) ==> {
            &&& store::signed_in(store, headers) == Some(permit.user)
            &&& permit.path == path::child(parent, text::trimmed(name))
            &&& permit.full_path == path::located(root, permit.path)
        },
        directory_check(store, headers, root, parent, name) matches Err(e) ==> {
            &&& !e.challenge
            &&& match store::signed_in(store, headers) {
                None => e.status == 401 && e.message == "请先登录"@ && e.note is None,
                Some(user) => if !user.permissions.can_upload {
                    e.status == 403 && e.message == "没有创建文件夹权限"@ && (e.note matches Some(note)
                        && note.username == Some(user.username) && note.action == "mkdir"@
                        && note.path == Some(parent) && note.status == 403 && note.detail
                        == "创建文件夹权限不足"@)
                } else if !account::may_read(user, parent) {
                    e.status == 403 && e.message == "不能在这个目录创建文件夹"@ && (e.note matches Some(note)
                        && note.username == Some(user.username) && note.action == "mkdir"@
                        && note.path == Some(parent) && note.status == 403 && note.detail
                        == "目录权限不足"@)
                } else {
                    e.note is None && (e.status == 400 && e.message == "文件夹名称不合法"@ || e.status
                        == 403 && e.message == "不能创建这个文件夹"@)
                },
            }
        },
{
}

} // verus!
