//! Publishing files, granting them to users, and deleting them.

use crate::account;
use crate::account::{User, UserModel, UserPayloadModel};
use crate::audit;
use crate::audit::{AuditNote, NoteModel};
use crate::browsing;
use crate::clock;
use crate::clock::Timestamp;
use crate::headers::{HeadersModel, RequestHeaders};
use crate::order;
use crate::path;
use crate::permit;
use crate::permit::{Permit, PermitModel};
use crate::reply;
use crate::reply::{Refusal, RefusalModel};
use crate::store;
use crate::store::{FileGrant, FileGrantModel, PublicFile, PublicFileModel, Store, StoreModel};
use crate::text;
use crate::upload;
use vstd::prelude::*;

verus! {

/// The answer to a client that published a file.
#[derive(Debug)]
pub struct PublishReply {
    pub public_path: String,
    pub public_url: String,
    pub note: AuditNote,
}

/// The answer to a client that published a file.
#[verifier::ext_equal]
pub struct PublishReplyModel {
    pub public_path: Seq<char>,
    pub public_url: Seq<char>,
    pub note: NoteModel,
}

impl View for PublishReply {
    type V = PublishReplyModel;

    open spec fn view(&self) -> PublishReplyModel {
        PublishReplyModel {
            public_path: self.public_path@,
            public_url: self.public_url@,
            note: self.note@,
        }
    }
}

/// The answer to a client that withdrew a public link.
#[derive(Debug)]
pub struct UnpublishReply {
    pub public_path: String,
    pub note: AuditNote,
}

/// The answer to a client that withdrew a public link.
#[verifier::ext_equal]
pub struct UnpublishReplyModel {
    pub public_path: Seq<char>,
    pub note: NoteModel,
}

impl View for UnpublishReply {
    type V = UnpublishReplyModel;

    open spec fn view(&self) -> UnpublishReplyModel {
        UnpublishReplyModel { public_path: self.public_path@, note: self.note@ }
    }
}

/// The answer to a client that granted a file.
#[derive(Debug)]
pub struct GrantReply {
    pub download_url: String,
    pub granted_users: Vec<String>,
    pub note: AuditNote,
}

/// The answer to a client that granted a file.
#[verifier::ext_equal]
pub struct GrantReplyModel {
    pub download_url: Seq<char>,
    pub granted_users: Seq<Seq<char>>,
    pub note: NoteModel,
}

impl View for GrantReply {
    type V = GrantReplyModel;

    open spec fn view(&self) -> GrantReplyModel {
        GrantReplyModel {
            download_url: self.download_url@,
            granted_users: text::views(self.granted_users@),
            note: self.note@,
        }
    }
}

/// The refusal of a user with a note of what the user tried.
pub open spec fn denied(
    user: UserModel,
    action: Seq<char>,
    path: Seq<char>,
    message: Seq<char>,
    detail: Seq<char>,
) -> RefusalModel {
    reply::refused_with(
        403,
        message,
        audit::noted(Some(user.username), action, Some(path), 403, detail),
    )
}

/// Leave to delete a path, else a refusal.
pub open spec fn delete_check(
    store: StoreModel,
    headers: HeadersModel,
    root: Seq<char>,
    request: Seq<char>,
) -> Result<PermitModel, RefusalModel> {
    match store::signed_in(store, headers) {
        None => Err(reply::not_signed_in()),
        Some(user) => {
            let target = path::normalized(request);
            if !user.permissions.can_delete {
                Err(denied(user, "delete"@, request, "没有删除权限"@, "删除权限不足"@))
            } else if !account::may_read(user, target) {
                Err(denied(user, "delete"@, target, "不能删除这个文件"@, "路径权限不足"@))
            } else {
                Ok(permit::permitted(user, target, root))
            }
        },
    }
}

/// What is remembered once a path is gone.
pub open spec fn without_path(store: StoreModel, path: Seq<char>) -> StoreModel {
    StoreModel {
        public_files: store.public_files.remove(path),
        public_copies: store.public_copies.remove(path),
        file_grants: store.file_grants.remove(path),
        download_counts: store.download_counts.remove(path),
        ..store
    }
}

/// The note of a user who deleted a path.
pub open spec fn delete_note(username: Seq<char>, path: Seq<char>) -> NoteModel {
    audit::noted(Some(username), "delete"@, Some(path), 204, "删除文件或目录"@)
}

/// Leave to publish a file, else a refusal.
pub open spec fn publish_check(
    store: StoreModel,
    headers: HeadersModel,
    root: Seq<char>,
    request: Seq<char>,
) -> Result<PermitModel, RefusalModel> {
    match store::signed_in(store, headers) {
        None => Err(reply::not_signed_in()),
        Some(user) => {
            let target = path::normalized(request);
            if !user.permissions.can_publish {
                Err(denied(user, "publish"@, target, "没有公开权限"@, "公开权限不足"@))
            } else if !account::may_read(user, target) {
                Err(denied(user, "publish"@, target, "不能公开这个文件"@, "路径权限不足"@))
            } else {
                Ok(permit::permitted(user, target, root))
            }
        },
    }
}

/// Why what is found on disk cannot be shared, where it cannot: nothing is
/// there, or a directory is.
pub open spec fn unshareable(is_dir: Option<bool>, message: Seq<char>) -> Option<RefusalModel> {
    match is_dir {
        None => Some(reply::refused(404, "文件不存在"@)),
        Some(true) => Some(reply::refused(400, message)),
        Some(false) => None,
    }
}

/// What is remembered after a user published a file.
pub open spec fn with_public(
    store: StoreModel,
    username: Seq<char>,
    path: Seq<char>,
    now: Timestamp,
) -> StoreModel {
    StoreModel {
        public_files: store.public_files.insert(
            path,
            PublicFileModel { path, published_by: username, published_at: now },
        ),
        public_copies: store.public_copies.remove(path),
        ..store
    }
}

/// The answer to a user who published a file.
pub open spec fn publish_reply(username: Seq<char>, path: Seq<char>) -> PublishReplyModel {
    PublishReplyModel {
        public_path: path,
        public_url: path::public_url(path),
        note: audit::noted(Some(username), "publish"@, Some(path), 200, "公开文件链接"@),
    }
}

/// The answer to a client that withdraws a public link.
pub open spec fn unpublish_answer(
    store: StoreModel,
    headers: HeadersModel,
    request: Seq<char>,
) -> Result<UnpublishReplyModel, RefusalModel> {
    let target = path::normalized(request);
    match store::signed_in(store, headers) {
        None => Err(reply::not_signed_in()),
        Some(_) => Ok(
            UnpublishReplyModel {
                public_path: target,
                note: audit::noted(
                    None,
                    "unpublish"@,
                    Some(target),
                    204,
                    "取消公开链接 "@ + target,
                ),
            },
        ),
    }
}

/// What is remembered after a client withdrew a public link.
pub open spec fn after_unpublish(
    store: StoreModel,
    headers: HeadersModel,
    request: Seq<char>,
) -> StoreModel {
    let target = path::normalized(request);
    match store::signed_in(store, headers) {
        None => store,
        Some(_) => StoreModel {
            public_files: store.public_files.remove(target),
            public_copies: store.public_copies.remove(target),
            download_counts: store.download_counts.remove(target),
            ..store
        },
    }
}

/// The file that a client wants to grant, else a refusal.
pub open spec fn grant_target(
    store: StoreModel,
    headers: HeadersModel,
    root: Seq<char>,
    request: Seq<char>,
) -> Result<PermitModel, RefusalModel> {
    match store::signed_in(store, headers) {
        None => Err(reply::not_signed_in()),
        Some(user) => Ok(permit::permitted(user, path::normalized(request), root)),
    }
}

/// The users to whom a file is granted, in the order in which they are first
/// asked for: neither an empty name nor the name of the user who grants is
/// one. The first name that no user has is the error.
pub open spec fn grantees(
    users: Map<Seq<char>, UserModel>,
    grantor: Seq<char>,
    asked: Seq<Seq<char>>,
) -> Result<Seq<Seq<char>>, Seq<char>>
    decreases asked.len(),
{
    if asked.len() == 0 {
        Ok(Seq::empty())
    } else {
        let name = text::trimmed(asked.last());
        match grantees(users, grantor, asked.drop_last()) {
            Err(unknown) => Err(unknown),
            Ok(before) => if name.len() == 0 || name == grantor {
                Ok(before)
            } else if !users.contains_key(name) {
                Err(name)
            } else if before.contains(name) {
                Ok(before)
            } else {
                Ok(before.push(name))
            },
        }
    }
}

/// The answer to a user who grants a file.
pub open spec fn grant_answer(
    store: StoreModel,
    user: UserModel,
    path: Seq<char>,
    asked: Seq<Seq<char>>,
) -> Result<GrantReplyModel, RefusalModel> {
    if !store::may_access(store, user, path) {
        Err(denied(user, "grant"@, path, "不能授权这个文件"@, "授权路径权限不足"@))
    } else {
        match grantees(store.users, user.username, asked) {
            Err(unknown) => Err(reply::refused(400, "用户 "@ + unknown + " 不存在"@)),
            Ok(names) => {
                let sorted = order::sorted_texts(names);
                Ok(
                    GrantReplyModel {
                        download_url: "/api/files"@ + path::encoded_path(path),
                        granted_users: sorted,
                        note: audit::noted(
                            Some(user.username),
                            "grant"@,
                            Some(path),
                            200,
                            if sorted.len() == 0 {
                                "清空授权"@
                            } else {
                                "授权给 "@ + text::joined(sorted, ", "@)
                            },
                        ),
                    },
                )
            },
        }
    }
}

/// What is remembered after a user granted a file. A grant to nobody takes an
/// earlier one back.
pub open spec fn after_grant(
    store: StoreModel,
    user: UserModel,
    path: Seq<char>,
    asked: Seq<Seq<char>>,
    now: Timestamp,
) -> StoreModel {
    match grant_answer(store, user, path, asked) {
        Err(_) => store,
        Ok(reply) => StoreModel {
            file_grants: if reply.granted_users.len() == 0 {
                store.file_grants.remove(path)
            } else {
                store.file_grants.insert(
                    path,
                    FileGrantModel {
                        path,
                        users: reply.granted_users,
                        updated_by: user.username,
                        updated_at: now,
                    },
                )
            },
            ..store
        },
    }
}

/// The refusal of a user with a note of what the user tried.
pub fn deny(user: &User, action: &str, path: &str, message: &str, detail: &str) -> (r: Refusal)
    ensures
        r@ == denied(user@, action@, path@, message@, detail@),
{
    reply::error_with(
        403,
        message,
        audit::note(
            Some(user.username.clone()),
            action,
            Some(path.to_owned()),
            403,
            detail,
        ),
    )
}

/// Leave to delete a path, else a refusal.
pub fn check_delete(store: &Store, headers: &RequestHeaders, root: &str, request: &str) -> (r:
    Result<Permit, Refusal>)
    ensures
        text::result_view(r) == delete_check(store@, headers@, root@, request@),
{
    match store::current_user(store, headers) {
        None => Err(reply::sign_in_first()),
        Some(user) => {
            if !user.permissions.can_delete {
                return Err(deny(&user, "delete", request, "没有删除权限", "删除权限不足"));
            }
            let target: String = path::normalize_path(request);
            if !account::can_read(&user, &target) {
                return Err(deny(&user, "delete", &target, "不能删除这个文件", "路径权限不足"));
            }
            Ok(permit::permit(user, target, root))
        },
    }
}

/// Forgets a path that is gone: its link, its grant and its count.
pub fn forget_path(store: &mut Store, username: &str, path: &str) -> (r: AuditNote)
    ensures
        final(store)@ == without_path(old(store)@, path@),
        r@ == delete_note(username@, path@),
{
    let _ = store.public_files.remove(path);
    let _ = store.public_copies.remove(path);
    let _ = store.file_grants.remove(path);
    let _ = store.download_counts.remove(path);
    audit::note(
        Some(username.to_owned()),
        "delete",
        Some(path.to_owned()),
        204,
        "删除文件或目录",
    )
}

/// Leave to publish a file, else a refusal.
pub fn check_publish(store: &Store, headers: &RequestHeaders, root: &str, request: &str) -> (r:
    Result<Permit, Refusal>)
    ensures
        text::result_view(r) == publish_check(store@, headers@, root@, request@),
{
    match store::current_user(store, headers) {
        None => Err(reply::sign_in_first()),
        Some(user) => {
            let target: String = path::normalize_path(request);
            if !user.permissions.can_publish {
                return Err(deny(&user, "publish", &target, "没有公开权限", "公开权限不足"));
            }
            if !account::can_read(&user, &target) {
                return Err(deny(&user, "publish", &target, "不能公开这个文件", "路径权限不足"));
            }
            Ok(permit::permit(user, target, root))
        },
    }
}

/// Why what is found on disk cannot be shared, where it cannot.
fn check_shareable(is_dir: Option<bool>, message: &str) -> (r: Option<Refusal>)
    ensures
        text::opt_view(r) == unshareable(is_dir, message@),
{
    match is_dir {
        None => Some(reply::error(404, "文件不存在")),
        Some(dir) => {
            if dir {
                Some(reply::error(400, message))
            } else {
                None
            }
        },
    }
}

/// Why what is found on disk cannot be published, where it cannot.
pub fn check_publishable(is_dir: Option<bool>) -> (r: Option<Refusal>)
    ensures
        text::opt_view(r) == unshareable(is_dir, "暂不支持公开整个目录"@),
{
    check_shareable(is_dir, "暂不支持公开整个目录")
}

/// Why what is found on disk cannot be granted, where it cannot.
pub fn check_grantable(is_dir: Option<bool>) -> (r: Option<Refusal>)
    ensures
        text::opt_view(r) == unshareable(is_dir, "暂不支持授权整个目录"@),
{
    check_shareable(is_dir, "暂不支持授权整个目录")
}

/// Publishes a file at a given time.
pub fn publish_at(store: &mut Store, username: &str, path: &str, now: Timestamp) -> (r:
    PublishReply)
    ensures
        final(store)@ == with_public(old(store)@, username@, path@, now),
        r@ == publish_reply(username@, path@),
{
    let _ = store.public_copies.remove(path);
    store.public_files.insert(
        path.to_owned(),
        PublicFile {
            path: path.to_owned(),
            published_by: username.to_owned(),
            published_at: now,
        },
    );
    PublishReply {
        public_path: path.to_owned(),
        public_url: path::public_url_for_source_path(path),
        note: audit::note(
            Some(username.to_owned()),
            "publish",
            Some(path.to_owned()),
            200,
            "公开文件链接",
        ),
    }
}

/// Publishes a file now.
pub fn publish(store: &mut Store, username: &str, path: &str) -> (r: PublishReply)
    ensures
        exists|now: Timestamp|
            final(store)@ == #[trigger] with_public(old(store)@, username@, path@, now),
        r@ == publish_reply(username@, path@),
{
    let now: Timestamp = clock::now();
    publish_at(store, username, path, now)
}

/// Withdraws a public link.
pub fn unpublish(store: &mut Store, headers: &RequestHeaders, request: &str) -> (r: Result<
    UnpublishReply,
    Refusal,
>)
    ensures
        text::result_view(r) == unpublish_answer(old(store)@, headers@, request@),
        final(store)@ == after_unpublish(old(store)@, headers@, request@),
{
    match store::current_user(store, headers) {
        None => Err(reply::sign_in_first()),
        Some(_) => {
            let target: String = path::normalize_path(request);
            let _ = store.public_copies.remove(&target);
            let _ = store.public_files.remove(&target);
            let _ = store.download_counts.remove(&target);
            let note: AuditNote = audit::note(
                None,
                "unpublish",
                Some(target.clone()),
                204,
                &text::concat("取消公开链接 ", &target),
            );
            Ok(UnpublishReply { public_path: target, note })
        },
    }
}

/// The file that a client wants to grant, else a refusal.
pub fn find_grant_target(store: &Store, headers: &RequestHeaders, root: &str, request: &str) -> (r:
    Result<Permit, Refusal>)
    ensures
        text::result_view(r) == grant_target(store@, headers@, root@, request@),
{
    match store::current_user(store, headers) {
        None => Err(reply::sign_in_first()),
        Some(user) => Ok(permit::permit(user, path::normalize_path(request), root)),
    }
}

/// The users to whom a file is granted, or the first name that no user has.
fn collect_grantees(store: &Store, grantor: &str, asked: &Vec<String>) -> (r: Result<
    Vec<String>,
    String,
>)
    ensures
        match r {
            Ok(names) => grantees(store@.users, grantor@, text::views(asked@)) == Ok::<
                Seq<Seq<char>>,
                Seq<char>,
            >(text::views(names@)),
            Err(unknown) => grantees(store@.users, grantor@, text::views(asked@)) == Err::<
                Seq<Seq<char>>,
                Seq<char>,
            >(unknown@),
        },
{
    let mut r: Vec<String> = Vec::new();
    let ghost all = text::views(asked@);
    let mut i: usize = 0;
    assert(text::views(r@) =~= Seq::<Seq<char>>::empty());
    assert(all.take(0) =~= Seq::<Seq<char>>::empty());
    while i < asked.len()
        invariant
            i <= asked@.len(),
            all == text::views(asked@),
            grantees(store@.users, grantor@, all.take(i as int)) == Ok::<
                Seq<Seq<char>>,
                Seq<char>,
            >(text::views(r@)),
        decreases asked@.len() - i,
    {
        let name: String = text::trim(&asked[i]);
        assert(all.take(i + 1).drop_last() =~= all.take(i as int));
        assert(all.take(i + 1).last() == asked@[i as int]@);
        if !name.as_str().is_empty() && !text::same(&name, grantor) {
            if !store.users.contains_key(&name) {
                proof {
                    lemma_grantees_unknown(
                        store@.users,
                        grantor@,
                        all,
                        i + 1,
                        name@,
                    );
                }
                return Err(name);
            }
            if !text::contains(&r, &name) {
                let ghost before = text::views(r@);
                r.push(name);
                assert(text::views(r@) =~= before.push(r@.last()@));
            }
        }
        i += 1;
    }
    assert(all.take(i as int) =~= all);
    Ok(r)
}

/// A name that no user has stays the error whatever else is asked for.
proof fn lemma_grantees_unknown(
    users: Map<Seq<char>, UserModel>,
    grantor: Seq<char>,
    asked: Seq<Seq<char>>,
    n: int,
    unknown: Seq<char>,
)
    requires
        0 <= n <= asked.len(),
        grantees(users, grantor, asked.take(n)) == Err::<Seq<Seq<char>>, Seq<char>>(unknown),
    ensures
        grantees(users, grantor, asked) == Err::<Seq<Seq<char>>, Seq<char>>(unknown),
    decreases asked.len() - n,
{
    if n == asked.len() {
        assert(asked.take(n) =~= asked);
    } else {
        assert(asked.take(n + 1).drop_last() =~= asked.take(n));
        lemma_grantees_unknown(users, grantor, asked, n + 1, unknown);
    }
}

/// Grants a file to users at a given time.
pub fn grant_at(
    store: &mut Store,
    user: &User,
    path: &str,
    asked: &Vec<String>,
    now: Timestamp,
) -> (r: Result<GrantReply, Refusal>)
    ensures
        text::result_view(r) == grant_answer(old(store)@, user@, path@, text::views(asked@)),
        final(store)@ == after_grant(old(store)@, user@, path@, text::views(asked@), now),
{
    if !store::can_access_path(store, user, path) {
        return Err(deny(user, "grant", path, "不能授权这个文件", "授权路径权限不足"));
    }
    let names: Vec<String> = match collect_grantees(store, &user.username, asked) {
        Ok(names) => names,
        Err(unknown) => {
            let message: String = text::concat(&text::concat("用户 ", &unknown), " 不存在");
            return Err(reply::error(400, &message));
        },
    };
    let granted_users: Vec<String> = order::sort_texts(&names);
    let detail: String = if granted_users.len() == 0 {
        let _ = store.file_grants.remove(path);
        "清空授权".to_owned()
    } else {
        store.file_grants.insert(
            path.to_owned(),
            FileGrant {
                path: path.to_owned(),
                users: text::copy_all(&granted_users),
                updated_by: user.username.clone(),
                updated_at: now,
            },
        );
        text::concat("授权给 ", &text::join(&granted_users, ", "))
    };
    let note: AuditNote = audit::note(
        Some(user.username.clone()),
        "grant",
        Some(path.to_owned()),
        200,
        &detail,
    );
    let download_url: String = text::concat("/api/files", &path::encode_path(path));
    Ok(GrantReply { download_url, granted_users, note })
}

/// Grants a file to users now.
pub fn grant(store: &mut Store, user: &User, path: &str, asked: &Vec<String>) -> (r: Result<
    GrantReply,
    Refusal,
>)
    ensures
        text::result_view(r) == grant_answer(old(store)@, user@, path@, text::views(asked@)),
        exists|now: Timestamp|
            final(store)@ == #[trigger] after_grant(
                old(store)@,
                user@,
                path@,
                text::views(asked@),
                now,
            ),
{
    let now: Timestamp = clock::now();
    grant_at(store, user, path, asked, now)
}

/// Whether nothing else that is public stands in the way of the link of a file:
/// neither a file at the path that the link asks for, or behind the public area
/// in it, nor one with the same link that comes before.
pub open spec fn link_is_free(store: StoreModel, path: Seq<char>) -> bool {
    let asked = path::followed(path);
    let named = path::behind_public(asked);
    named == path || forall|other: Seq<char>| #[trigger]
        store.public_files.contains_key(other) && other != path ==> {
            &&& other != named
            &&& asked == path || (other != asked && (path::followed(other) == asked
                ==> text::text_before(path, other)))
        }
}

/// A file that was published is reached without signing in, by the link that it
/// was given: a client who asks for what stands behind `/public/` in the link,
/// in any percent-encoding, gets the file. Left out is a link that another
/// public file claims.
pub proof fn lemma_published_file_is_reached(
    store: StoreModel,
    username: Seq<char>,
    path: Seq<char>,
    now: Timestamp,
    root: Seq<char>,
    request: Seq<char>,
)
    requires
        link_is_free(store, path),
        path::decoded(request) == path::decoded(
            publish_reply(username, path).public_url.skip("/public/"@.len() as int),
        ),
    ensures
        "/public/"@.is_prefix_of(publish_reply(username, path).public_url),
        store::resolved(
            with_public(store, username, path, now),
            path::public_request(request),
        ) == Some(path),
        browsing::public_check(with_public(store, username, path, now), root, request)
            matches Ok(permit) && permit.source_path == path && permit.full_path
            == path::located(root, path),
{
    reveal_strlit("/public/");
    let files = with_public(store, username, path, now).public_files;
    let asked = path::followed(path);
    let named = path::behind_public(asked);
    path::lemma_public_link_form(path);
    path::lemma_public_request(request, path::public_url(path).skip(8));
    if !files.contains_key(named) && !files.contains_key(asked) {
        assert forall|other: Seq<char>| #[trigger]
            store::leads_to(files, asked, other) && other != path implies text::text_before(
            path,
            other,
        ) by {
            assert(store.public_files.contains_key(other));
        }
        store::lemma_first_to_unique(files, asked, path);
    }
}

/// Nothing stands in the way of the link of a file outside the public area and
/// the directories of users.
pub proof fn lemma_own_link_is_free(store: StoreModel, path: Seq<char>)
    requires
        path::is_normal(path),
        path::names_in(path).len() == 0 || path::names_in(path)[0] != "public"@,
        path::names_in(path).len() < 3 || path::names_in(path)[0] != "user"@,
    ensures
        link_is_free(store, path),
{
    path::lemma_own_link(path);
}

/// Only what is public is reached without signing in.
pub proof fn lemma_only_public_files_are_reached(store: StoreModel, public_path: Seq<char>)
    ensures
        store::resolved(store, public_path) matches Some(source)
            ==> store.public_files.contains_key(source),
{
}

/// A file whose link was withdrawn is reached by no link.
pub proof fn lemma_unpublished_file_is_not_reached(
    store: StoreModel,
    headers: HeadersModel,
    request: Seq<char>,
    public_path: Seq<char>,
)
    requires
        store::signed_in(store, headers) is Some,
    ensures
        store::resolved(after_unpublish(store, headers, request), public_path) != Some(
            path::normalized(request),
        ),
        store::downloads(after_unpublish(store, headers, request), path::normalized(request)) == 0,
{
    lemma_only_public_files_are_reached(
        after_unpublish(store, headers, request),
        public_path,
    );
}

/// Nothing is left of a path that was deleted: no link, no grant, no count.
pub proof fn lemma_deleted_path_is_forgotten(
    store: StoreModel,
    path: Seq<char>,
    public_path: Seq<char>,
    user: UserModel,
)
    ensures
        store::resolved(without_path(store, path), public_path) != Some(path),
        store::may_access(without_path(store, path), user, path) == account::may_read(user, path),
        store::downloads(without_path(store, path), path) == 0,
{
    lemma_only_public_files_are_reached(without_path(store, path), public_path);
}

/// Whether a name is asked for and counts: it is neither empty nor the name of
/// the user who grants.
pub open spec fn asked_for(asked: Seq<Seq<char>>, grantor: Seq<char>, name: Seq<char>) -> bool {
    name.len() > 0 && name != grantor && exists|i: int|
        0 <= i < asked.len() && text::trimmed(#[trigger] asked[i]) == name
}

proof fn lemma_grantees_members(
    users: Map<Seq<char>, UserModel>,
    grantor: Seq<char>,
    asked: Seq<Seq<char>>,
    name: Seq<char>,
)
    requires
        grantees(users, grantor, asked) is Ok,
    ensures
        grantees(users, grantor, asked)->Ok_0.contains(name) <==> asked_for(asked, grantor, name),
        grantees(users, grantor, asked)->Ok_0.contains(name) ==> users.contains_key(name),
        grantees(users, grantor, asked)->Ok_0.len() <= asked.len(),
    decreases asked.len(),
{
    let names = grantees(users, grantor, asked)->Ok_0;
    if asked.len() > 0 {
        let rest = asked.drop_last();
        let before = grantees(users, grantor, rest)->Ok_0;
        let last = text::trimmed(asked.last());
        lemma_grantees_members(users, grantor, rest, name);
        lemma_grantees_members(users, grantor, rest, last);
        if asked_for(asked, grantor, name) {
            let i = choose|i: int|
                0 <= i < asked.len() && text::trimmed(#[trigger] asked[i]) == name;
            if i < rest.len() {
                assert(rest[i] == asked[i]);
            }
        }
        if asked_for(rest, grantor, name) {
            let i = choose|i: int|
                0 <= i < rest.len() && text::trimmed(#[trigger] rest[i]) == name;
            assert(asked[i] == rest[i]);
        }
        if names != before {
            assert(names == before.push(last));
            assert(names[names.len() - 1] == last);
            if before.contains(name) {
                let k = choose|k: int| 0 <= k < before.len() && before[k] == name;
                assert(names[k] == name);
            }
            if names.contains(name) && name != last {
                let k = choose|k: int| 0 <= k < names.len() && names[k] == name;
                assert(before[k] == name);
            }
            assert(asked[asked.len() - 1] == asked.last());
        }
    }
}

/// After a grant, a user may download the file exactly where they might read
/// it anyhow or their name was asked for. No other file is touched. A grant
/// that asks for nobody takes an earlier one back.
pub proof fn lemma_grant_decides_access(
    store: StoreModel,
    user: UserModel,
    path: Seq<char>,
    asked: Seq<Seq<char>>,
    now: Timestamp,
    other: UserModel,
    other_path: Seq<char>,
)
    requires
        grant_answer(store, user, path, asked) is Ok,
        asked.len() <= usize::MAX,
    ensures
        store::may_access(after_grant(store, user, path, asked, now), other, path) == (
        account::may_read(other, path) || asked_for(asked, user.username, other.username)),
        other_path != path ==> store::may_access(
            after_grant(store, user, path, asked, now),
            other,
            other_path,
        ) == store::may_access(store, other, other_path),
{
    let names = grantees(store.users, user.username, asked)->Ok_0;
    lemma_grantees_members(store.users, user.username, asked, other.username);
    order::lemma_picked_members(names, order::text_keys(names), other.username);
}

/// A refused grant changes nothing.
pub proof fn lemma_refused_grant_changes_nothing(
    store: StoreModel,
    user: UserModel,
    path: Seq<char>,
    asked: Seq<Seq<char>>,
    now: Timestamp,
)
    requires
        !store::may_access(store, user, path) || grantees(store.users, user.username, asked) is Err,
    ensures
        grant_answer(store, user, path, asked) is Err,
        after_grant(store, user, path, asked, now) == store,
{
}

/// Leave to delete is for the path that was asked for and for its place on disk. A
/// user has it exactly where they have signed in, have the right to delete and may
/// see the path.
pub proof fn lemma_delete_leave(
    store: StoreModel,
    headers: HeadersModel,
    root: Seq<char>,
    request: Seq<char>,
)
    ensures
        delete_check(store, headers, root, request) is Ok <==> (store::signed_in(
            store,
            headers,
        ) matches Some(user) && user.permissions.can_delete && account::may_read(
            user,
            path::normalized(request),
        )),
        delete_check(store, headers, root, request) matches Ok(permit) ==> {
            &&& store::signed_in(store, headers) == Some(permit.user)
            &&& permit.path == path::normalized(request)
            &&& permit.full_path == path::located(root, path::normalized(request))
        },
        delete_check(store, headers, root, request) matches Err(e) ==> {
            &&& !e.challenge
            &&& match store::signed_in(store, headers) {
                None => e.status == 401 && e.message == "请先登录"@ && e.note is None,
                Some(user) => e.status == 403 && e.message == (if user.permissions.can_delete {
                    "不能删除这个文件"@
                } else {
                    "没有删除权限"@
                }) && (e.note matches Some(note) && note.username == Some(user.username)
                    && note.action == "delete"@ && note.status == 403 && note.path == Some(
                    if user.permissions.can_delete {
                        path::normalized(request)
                    } else {
                        request
                    },
                ) && note.detail == (if user.permissions.can_delete {
                    "路径权限不足"@
                } else {
                    "删除权限不足"@
                })),
            }
        },
{
}

/// Leave to publish is for the path that was asked for and for its place on disk. A
/// user has it exactly where they have signed in, have the right to publish and may
/// see the path.
pub proof fn lemma_publish_leave(
    store: StoreModel,
    headers: HeadersModel,
    root: Seq<char>,
    request: Seq<char>,
)
    ensures
        publish_check(store, headers, root, request) is Ok <==> (store::signed_in(
            store,
            headers,
        ) matches Some(user) && user.permissions.can_publish && account::may_read(
            user,
            path::normalized(request),
        )),
        publish_check(store, headers, root, request) matches Ok(permit) ==> {
            &&& store::signed_in(store, headers) == Some(permit.user)
            &&& permit.path == path::normalized(request)
            &&& permit.full_path == path::located(root, path::normalized(request))
        },
        publish_check(store, headers, root, request) matches Err(e) ==> {
            &&& !e.challenge
            &&& match store::signed_in(store, headers) {
                None => e.status == 401 && e.message == "请先登录"@ && e.note is None,
                Some(user) => e.status == 403 && e.message == (if user.permissions.can_publish {
                    "不能公开这个文件"@
                } else {
                    "没有公开权限"@
                }) && (e.note matches Some(note) && note.username == Some(user.username)
                    && note.action == "publish"@ && note.status == 403 && note.path == Some(
                    if user.permissions.can_publish {
                        path::normalized(request)
                    } else {
                        path::normalized(request)
                    },
                ) && note.detail == (if user.permissions.can_publish {
                    "路径权限不足"@
                } else {
                    "公开权限不足"@
                })),
            }
        },
{
}

/// A user who was created with the switches to delete, to publish and to upload
/// gets leave for it in their directories, and one without does not.
pub proof fn lemma_switches_decide(
    store: StoreModel,
    headers: HeadersModel,
    root: Seq<char>,
    request: Seq<char>,
    payload: UserPayloadModel,
    password_hash: Seq<char>,
    now: Timestamp,
)
    requires
        store::signed_in(store, headers) == Some(
            account::payload_user(payload, password_hash, now),
        ),
        payload.role != account::Role::Admin,
        path::is_normal(path::normalized(request)),
    ensures
        ({
            let user = account::payload_user(payload, password_hash, now);
            let dir = path::normalized(request);
            let inside = exists|i: int|
                0 <= i < user.permissions.roots.len() && path::names_in(
                    #[trigger] user.permissions.roots[i],
                ).is_prefix_of(path::names_in(dir));
            &&& delete_check(store, headers, root, request) is Ok <==> payload.can_delete && inside
            &&& publish_check(store, headers, root, request) is Ok <==> payload.can_publish
                && inside
            &&& upload::upload_check(store, headers, root, dir) is Ok <==> payload.can_upload
                && inside
        }),
{
    let user = account::payload_user(payload, password_hash, now);
    account::lemma_switches_are_kept(payload, password_hash, now);
    account::lemma_users_read_their_directories(user, path::normalized(request));
    lemma_delete_leave(store, headers, root, request);
    lemma_publish_leave(store, headers, root, request);
    upload::lemma_upload_leave(store, headers, root, path::normalized(request));
}

/// Deleting a path forgets what was remembered of that path, and of no other, and
/// is noted.
pub proof fn lemma_delete_touches_one_path(
    store: StoreModel,
    username: Seq<char>,
    path: Seq<char>,
    other: Seq<char>,
)
    ensures
        ({
            let after = without_path(store, path);
            &&& after.users == store.users && after.sessions == store.sessions
            &&& after.fresh_setup == store.fresh_setup
            &&& !after.public_files.contains_key(path) && !after.public_copies.contains_key(path)
            &&& !after.file_grants.contains_key(path) && !after.download_counts.contains_key(path)
            &&& other != path ==> store::found(after.public_files, other) == store::found(
                store.public_files,
                other,
            ) && store::found(after.public_copies, other) == store::found(
                store.public_copies,
                other,
            ) && store::found(after.file_grants, other) == store::found(store.file_grants, other)
                && store::downloads(after, other) == store::downloads(store, other)
        }),
        ({
            let note = delete_note(username, path);
            note.username == Some(username) && note.action == "delete"@ && note.path == Some(path)
                && note.status == 204 && note.detail == "删除文件或目录"@
        }),
{
}

/// Only a file can be shared: where nothing is there it is not found, and a
/// directory is refused with the message.
pub proof fn lemma_only_files_are_shared(is_dir: Option<bool>, message: Seq<char>)
    ensures
        unshareable(is_dir, message) is None <==> is_dir == Some(false),
        unshareable(is_dir, message) matches Some(e) ==> !e.challenge && e.note is None && (
        is_dir is None && e.status == 404 && e.message == "文件不存在"@ || is_dir == Some(true)
            && e.status == 400 && e.message == message),
{
}

/// Publishing makes that file public, by that user, now, and touches nothing
/// else. The answer names the file and its link.
pub proof fn lemma_publish(
    store: StoreModel,
    username: Seq<char>,
    path: Seq<char>,
    now: Timestamp,
    other: Seq<char>,
)
    ensures
        ({
            let after = with_public(store, username, path, now);
            &&& after.users == store.users && after.sessions == store.sessions
            &&& after.file_grants == store.file_grants && after.download_counts
                == store.download_counts && after.fresh_setup == store.fresh_setup
            &&& after.public_files.contains_key(path) && after.public_files[path].path == path
            &&& after.public_files[path].published_by == username
                && after.public_files[path].published_at == now
            &&& !after.public_copies.contains_key(path)
            &&& other != path ==> store::found(after.public_files, other) == store::found(
                store.public_files,
                other,
            ) && store::found(after.public_copies, other) == store::found(
                store.public_copies,
                other,
            )
        }),
        ({
            let reply = publish_reply(username, path);
            &&& reply.public_path == path && reply.public_url == path::public_url(path)
            &&& reply.note.username == Some(username) && reply.note.action == "publish"@
            &&& reply.note.path == Some(path) && reply.note.status == 200 && reply.note.detail
                == "公开文件链接"@
        }),
{
}

/// Withdrawing a link takes that file out of the public files, for anyone who
/// has signed in, and touches no other file.
pub proof fn lemma_unpublish(
    store: StoreModel,
    headers: HeadersModel,
    request: Seq<char>,
    other: Seq<char>,
)
    ensures
        unpublish_answer(store, headers, request) is Ok <==> store::signed_in(
            store,
            headers,
        ) is Some,
        unpublish_answer(store, headers, request) matches Ok(reply) ==> {
            let path = path::normalized(request);
            &&& reply.public_path == path
            &&& reply.note.username is None && reply.note.action == "unpublish"@
            &&& reply.note.path == Some(path) && reply.note.status == 204 && reply.note.detail
                == "取消公开链接 "@ + path
        },
        unpublish_answer(store, headers, request) matches Err(e) ==> e.status == 401 && e.message
            == "请先登录"@ && e.note is None && after_unpublish(store, headers, request) == store,
        ({
            let after = after_unpublish(store, headers, request);
            let path = path::normalized(request);
            &&& after.users == store.users && after.sessions == store.sessions
            &&& after.file_grants == store.file_grants && after.fresh_setup == store.fresh_setup
            &&& store::signed_in(store, headers) is Some ==> !after.public_files.contains_key(path)
                && !after.public_copies.contains_key(path)
            &&& other != path ==> store::found(after.public_files, other) == store::found(
                store.public_files,
                other,
            ) && store::found(after.public_copies, other) == store::found(
                store.public_copies,
                other,
            ) && store::downloads(after, other) == store::downloads(store, other)
        }),
{
}

/// The file that a client wants to grant is the one that it asks for.
pub proof fn lemma_grant_target(
    store: StoreModel,
    headers: HeadersModel,
    root: Seq<char>,
    request: Seq<char>,
)
    ensures
        grant_target(store, headers, root, request) is Ok <==> store::signed_in(
            store,
            headers,
        ) is Some,
        grant_target(store, headers, root, request) matches Ok(permit) ==> {
            &&& store::signed_in(store, headers) == Some(permit.user)
            &&& permit.path == path::normalized(request)
            &&& permit.full_path == path::located(root, path::normalized(request))
        },
        grant_target(store, headers, root, request) matches Err(e) ==> e.status == 401 && e.message
            == "请先登录"@ && e.note is None,
{
}

/// The names in a grant are all known exactly where each name that counts is
/// the name of a user, and otherwise the first that is not is the error.
pub proof fn lemma_grantees_are_users(
    users: Map<Seq<char>, UserModel>,
    grantor: Seq<char>,
    asked: Seq<Seq<char>>,
)
    ensures
        grantees(users, grantor, asked) is Ok <==> forall|i: int|
            0 <= i < asked.len() ==> {
                let name = text::trimmed(#[trigger] asked[i]);
                name.len() == 0 || name == grantor || users.contains_key(name)
            },
        grantees(users, grantor, asked) matches Err(name) ==> name.len() > 0 && name != grantor
            && !users.contains_key(name) && exists|i: int|
            0 <= i < asked.len() && text::trimmed(#[trigger] asked[i]) == name,
        grantees(users, grantor, asked) matches Ok(names) ==> names.no_duplicates(),
    decreases asked.len(),
{
    if asked.len() > 0 {
        let rest = asked.drop_last();
        let last = text::trimmed(asked.last());
        lemma_grantees_are_users(users, grantor, rest);
        assert(asked[asked.len() - 1] == asked.last());
        assert(forall|i: int| 0 <= i < rest.len() ==> #[trigger] rest[i] == asked[i]);
        match grantees(users, grantor, rest) {
            Err(name) => {
                let i = choose|i: int|
                    0 <= i < rest.len() && text::trimmed(#[trigger] rest[i]) == name;
                assert(text::trimmed(asked[i]) == name);
            },
            Ok(before) => {
                assert forall|i: int| 0 <= i < rest.len() implies ({
                    let name = text::trimmed(#[trigger] asked[i]);
                    name.len() == 0 || name == grantor || users.contains_key(name)
                }) by {
                    assert(rest[i] == asked[i]);
                }
                if grantees(users, grantor, asked) is Ok {
                    assert forall|i: int| 0 <= i < asked.len() implies ({
                        let name = text::trimmed(#[trigger] asked[i]);
                        name.len() == 0 || name == grantor || users.contains_key(name)
                    }) by {
                        if i < rest.len() {
                            assert(rest[i] == asked[i]);
                        }
                    }
                    let names = grantees(users, grantor, asked)->Ok_0;
                    if names != before {
                        assert(names == before.push(last));
                        assert(!before.contains(last));
                        assert forall|a: int, b: int|
                            0 <= a < names.len() && 0 <= b < names.len() && a
                                != b implies names[a] != names[b] by {
                            if a < before.len() && b < before.len() {
                                assert(before[a] != before[b]);
                            } else if a < before.len() {
                                assert(before.contains(before[a]));
                            } else {
                                assert(before.contains(before[b]));
                            }
                        }
                    }
                } else {
                    assert(text::trimmed(asked[asked.len() - 1]) == last);
                }
            },
        }
    }
}

/// A grant succeeds exactly where the user may download the file and every name
/// that counts is the name of a user. Each of those users is granted the file
/// once, in the order of their names, and the answer and the note say so.
pub proof fn lemma_grant_succeeds(
    store: StoreModel,
    user: UserModel,
    path: Seq<char>,
    asked: Seq<Seq<char>>,
    name: Seq<char>,
    a: int,
    b: int,
)
    requires
        asked.len() <= usize::MAX,
    ensures
        grant_answer(store, user, path, asked) is Ok <==> (account::may_read(user, path) || (
        store.file_grants.contains_key(path) && store.file_grants[path].users.contains(
            user.username,
        ))) && forall|i: int|
            0 <= i < asked.len() ==> {
                let asked_name = text::trimmed(#[trigger] asked[i]);
                asked_name.len() == 0 || asked_name == user.username || store.users.contains_key(
                    asked_name,
                )
            },
        grant_answer(store, user, path, asked) matches Ok(reply) ==> {
            &&& reply.download_url == "/api/files"@ + path::encoded_path(path)
            &&& reply.granted_users.contains(name) <==> name.len() > 0 && name != user.username
                && exists|i: int|
                0 <= i < asked.len() && text::trimmed(#[trigger] asked[i]) == name
            &&& 0 <= a < b < reply.granted_users.len() ==> text::text_before(
                reply.granted_users[a],
                reply.granted_users[b],
            )
            &&& reply.note.username == Some(user.username) && reply.note.action == "grant"@
            &&& reply.note.path == Some(path) && reply.note.status == 200
            &&& reply.granted_users.len() == 0 ==> reply.note.detail == "清空授权"@
            &&& reply.granted_users.len() > 0 ==> reply.note.detail == "授权给 "@ + text::joined(
                reply.granted_users,
                ", "@,
            )
        },
        grant_answer(store, user, path, asked) matches Err(e) ==> !e.challenge && (
        !store::may_access(store, user, path) && e.status == 403 && e.message == "不能授权这个文件"@
            && (e.note matches Some(note) && note.username == Some(user.username) && note.action
            == "grant"@ && note.path == Some(path) && note.status == 403 && note.detail
            == "授权路径权限不足"@) || store::may_access(store, user, path) && e.status == 400
            && e.note is None && (grantees(store.users, user.username, asked) matches Err(unknown)
            && e.message == "用户 "@ + unknown + " 不存在"@)),
{
    lemma_grantees_are_users(store.users, user.username, asked);
    store::lemma_access(store, user, path);
    if let Ok(names) = grantees(store.users, user.username, asked) {
        lemma_grantees_members(store.users, user.username, asked, name);
        order::lemma_picked_members(names, order::text_keys(names), name);
        if 0 <= a < b < names.len() {
            order::lemma_sorted_texts(names, a, b);
        }
    }
}

/// A grant is kept for the file with its users, by whom and when, and a grant to
/// nobody is taken away. Nothing else is touched.
pub proof fn lemma_grant_is_kept(
    store: StoreModel,
    user: UserModel,
    path: Seq<char>,
    asked: Seq<Seq<char>>,
    now: Timestamp,
    other: Seq<char>,
)
    requires
        grant_answer(store, user, path, asked) is Ok,
    ensures
        ({
            let after = after_grant(store, user, path, asked, now);
            let granted = grant_answer(store, user, path, asked)->Ok_0.granted_users;
            &&& after.users == store.users && after.sessions == store.sessions
            &&& after.public_files == store.public_files && after.public_copies
                == store.public_copies
            &&& after.download_counts == store.download_counts && after.fresh_setup
                == store.fresh_setup
            &&& other != path ==> store::found(after.file_grants, other) == store::found(
                store.file_grants,
                other,
            )
            &&& after.file_grants.contains_key(path) <==> granted.len() > 0
            &&& granted.len() > 0 ==> after.file_grants[path].path == path
                && after.file_grants[path].users == granted && after.file_grants[path].updated_by
                == user.username && after.file_grants[path].updated_at == now
        }),
{
}

} // verus!
