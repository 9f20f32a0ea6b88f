//! What only administrators may do: manage users and read the record.

use crate::account;
use crate::account::{
    Permissions, Role, User, UserModel, UserPayload, UserPayloadModel, UserView, UserViewModel,
};
use crate::audit;
use crate::audit::{AuditLog, AuditNote, NoteModel};
use crate::clock::Timestamp;
use crate::headers::{HeadersModel, RequestHeaders};
use crate::order;
use crate::order::{Key, KeyModel};
use crate::path;
use crate::permit;
use crate::reply;
use crate::reply::{Refusal, RefusalModel};
use crate::secrets;
use crate::session;
use crate::session::LoginPayloadModel;
use crate::store;
use crate::store::{Session, SessionModel, Store, StoreModel};
use crate::table;
use crate::table::Table;
use crate::text;
use vstd::prelude::*;

verus! {

/// A user who is to be created once the directories exist.
#[derive(Debug)]
pub struct NewUser {
    pub admin: String,
    pub user: User,
    pub directories: Vec<String>,
}

/// A change of a user that is to be made once the directories exist.
#[derive(Debug)]
pub struct UserChange {
    pub admin: String,
    pub directories: Vec<String>,
}

/// A change of a user that is to be made once the directories exist.
#[verifier::ext_equal]
pub struct UserChangeModel {
    pub admin: Seq<char>,
    pub directories: Seq<Seq<char>>,
}

impl View for UserChange {
    type V = UserChangeModel;

    open spec fn view(&self) -> UserChangeModel {
        UserChangeModel { admin: self.admin@, directories: text::views(self.directories@) }
    }
}

/// The administrator who sends a request, else a refusal with the message.
pub open spec fn admin_for(
    store: StoreModel,
    headers: HeadersModel,
    message: Seq<char>,
) -> Result<UserModel, RefusalModel> {
    match store::signed_in(store, headers) {
        None => Err(reply::not_signed_in()),
        Some(user) => if user.role != Role::Admin {
            Err(reply::refused(403, message))
        } else {
            Ok(user)
        },
    }
}

/// The directories on disk for several virtual directories.
pub open spec fn directories_for(root: Seq<char>, roots: Seq<Seq<char>>) -> Seq<Seq<char>> {
    Seq::new(roots.len(), |i: int| path::located(root, roots[i]))
}

/// What is shown of the users in the rows of a table.
pub open spec fn users_shown(rows: Seq<(Seq<char>, UserModel)>) -> Seq<UserViewModel> {
    Seq::new(rows.len(), |i: int| account::shown_user(rows[i].1))
}

/// The names by which the users in the rows of a table are listed.
pub open spec fn user_keys(rows: Seq<(Seq<char>, UserModel)>) -> Seq<KeyModel> {
    Seq::new(rows.len(), |i: int| (0u8, rows[i].1.username))
}

/// What is shown of the users, in the order of their names.
pub open spec fn users_listed(rows: Seq<(Seq<char>, UserModel)>) -> Seq<UserViewModel> {
    order::picked(users_shown(rows), order::listing(user_keys(rows)))
}

/// The administrator who may create the user of a payload, else a refusal.
pub open spec fn creation_check(
    store: StoreModel,
    headers: HeadersModel,
    payload: UserPayloadModel,
) -> Result<UserModel, RefusalModel> {
    match admin_for(store, headers, "只有管理员可以创建用户"@) {
        Err(e) => Err(e),
        Ok(admin) => if text::trimmed(payload.username).len() == 0 || payload.password is None
            || payload.password->0.len() == 0 {
            Err(reply::refused(400, "用户名和密码不能为空"@))
        } else if store.users.contains_key(payload.username) {
            Err(reply::refused(409, "用户已存在"@))
        } else {
            Ok(admin)
        },
    }
}

/// What is remembered after a user was added.
pub open spec fn with_user(store: StoreModel, user: UserModel) -> StoreModel {
    StoreModel { users: store.users.insert(user.username, user), ..store }
}

/// The note of an administrator who created a user.
pub open spec fn creation_note(admin: Seq<char>, username: Seq<char>) -> NoteModel {
    audit::noted(Some(admin), "create_user"@, None, 201, "创建用户 "@ + username)
}

/// Whether someone besides a user is an administrator.
pub open spec fn other_admin(users: Map<Seq<char>, UserModel>, username: Seq<char>) -> bool {
    exists|name: Seq<char>| #[trigger]
        users.contains_key(name) && name != username && users[name].role == Role::Admin
}

/// Whether someone is an administrator.
pub open spec fn has_admin(users: Map<Seq<char>, UserModel>) -> bool {
    exists|name: Seq<char>| #[trigger]
        users.contains_key(name) && users[name].role == Role::Admin
}

/// What is to be done to change a user, else a refusal.
pub open spec fn change_plan(
    store: StoreModel,
    headers: HeadersModel,
    root: Seq<char>,
    username: Seq<char>,
    payload: UserPayloadModel,
) -> Result<UserChangeModel, RefusalModel> {
    let new_username = text::trimmed(payload.username);
    match admin_for(store, headers, "只有管理员可以修改用户"@) {
        Err(e) => Err(e),
        Ok(admin) => if new_username.len() == 0 {
            Err(reply::refused(400, "用户名不能为空"@))
        } else if new_username != username && store.users.contains_key(new_username) {
            Err(reply::refused(409, "用户名已存在"@))
        } else if !store.users.contains_key(username) {
            Err(reply::refused(404, "用户不存在"@))
        } else if store.users[username].role == Role::Admin && payload.role != Role::Admin
            && !other_admin(store.users, username) {
            Err(reply::refused(400, "至少需要保留一个管理员"@))
        } else {
            Ok(
                UserChangeModel {
                    admin: admin.username,
                    directories: directories_for(
                        root,
                        account::payload_permissions(payload).roots,
                    ),
                },
            )
        },
    }
}

/// The user after a change, given what is stored of a new password.
pub open spec fn changed_user(
    user: UserModel,
    payload: UserPayloadModel,
    new_hash: Option<Seq<char>>,
) -> UserModel {
    UserModel {
        username: text::trimmed(payload.username),
        password_hash: match new_hash {
            Some(hash) => hash,
            None => user.password_hash,
        },
        role: payload.role,
        permissions: account::payload_permissions(payload),
        created_at: user.created_at,
    }
}

/// The sessions after the name of a user changed.
pub open spec fn renamed_sessions(
    sessions: Map<Seq<char>, SessionModel>,
    from: Seq<char>,
    to: Seq<char>,
) -> Map<Seq<char>, SessionModel> {
    Map::new(
        |token: Seq<char>| sessions.contains_key(token),
        |token: Seq<char>|
            if sessions[token].username == from {
                SessionModel { username: to, ..sessions[token] }
            } else {
                sessions[token]
            },
    )
}

/// The sessions of everyone but one user.
pub open spec fn sessions_without(
    sessions: Map<Seq<char>, SessionModel>,
    username: Seq<char>,
) -> Map<Seq<char>, SessionModel> {
    Map::new(
        |token: Seq<char>| sessions.contains_key(token) && sessions[token].username != username,
        |token: Seq<char>| sessions[token],
    )
}

/// What is remembered after a user was changed.
pub open spec fn after_change(
    store: StoreModel,
    username: Seq<char>,
    payload: UserPayloadModel,
    new_hash: Option<Seq<char>>,
) -> StoreModel {
    let new_username = text::trimmed(payload.username);
    if store.users.contains_key(username) {
        StoreModel {
            users: store.users.remove(username).insert(
                new_username,
                changed_user(store.users[username], payload, new_hash),
            ),
            sessions: renamed_sessions(store.sessions, username, new_username),
            ..store
        }
    } else {
        store
    }
}

/// What is shown of a user after a change, where there is such a user.
pub open spec fn change_answer(
    store: StoreModel,
    username: Seq<char>,
    payload: UserPayloadModel,
) -> Result<UserViewModel, RefusalModel> {
    if store.users.contains_key(username) {
        Ok(account::shown_user(changed_user(store.users[username], payload, None)))
    } else {
        Err(reply::refused(404, "用户不存在"@))
    }
}

/// The note of an administrator who changed a user.
pub open spec fn change_note(admin: Seq<char>, username: Seq<char>) -> NoteModel {
    audit::noted(Some(admin), "update_user"@, None, 200, "修改用户 "@ + username)
}

/// The new password that a payload gives, where it gives one.
pub open spec fn new_password(payload: UserPayloadModel) -> Option<Seq<char>> {
    match payload.password {
        Some(password) if password.len() > 0 => Some(password),
        _ => None,
    }
}

/// The answer to a request to delete a user.
pub open spec fn deletion_answer(
    store: StoreModel,
    headers: HeadersModel,
    username: Seq<char>,
) -> Result<NoteModel, RefusalModel> {
    match admin_for(store, headers, "只有管理员可以删除用户"@) {
        Err(e) => Err(e),
        Ok(admin) => if !store.users.contains_key(username) {
            Err(reply::refused(404, "用户不存在"@))
        } else if store.users[username].role == Role::Admin && !other_admin(
            store.users,
            username,
        ) {
            Err(reply::refused(400, "至少需要保留一个管理员"@))
        } else {
            Ok(
                audit::noted(
                    Some(admin.username),
                    "delete_user"@,
                    None,
                    204,
                    "删除用户 "@ + username,
                ),
            )
        },
    }
}

/// What is remembered after a request to delete a user.
pub open spec fn after_deletion(
    store: StoreModel,
    headers: HeadersModel,
    username: Seq<char>,
) -> StoreModel {
    if deletion_answer(store, headers, username) is Ok {
        StoreModel {
            users: store.users.remove(username),
            sessions: sessions_without(store.sessions, username),
            ..store
        }
    } else {
        store
    }
}

/// The administrator who sends a request, else a refusal with the message.
pub fn require_admin(store: &Store, headers: &RequestHeaders, message: &str) -> (r: Result<
    User,
    Refusal,
>)
    ensures
        text::result_view(r) == admin_for(store@, headers@, message@),
{
    match store::current_user(store, headers) {
        None => Err(reply::sign_in_first()),
        Some(user) => {
            if user.role != Role::Admin {
                Err(reply::error(403, message))
            } else {
                Ok(user)
            }
        },
    }
}

/// What is shown of the users, in the order of their names.
fn sort_users(users: &Table<User>) -> (r: Vec<UserView>)
    ensures
        text::views(r@) == users_listed(users.rows()),
{
    let n: usize = users.len();
    let ghost rows = users.rows();
    let mut keys: Vec<Key> = Vec::new();
    let mut i: usize = 0;
    while i < n
        invariant
            i <= n,
            n == rows.len(),
            rows == users.rows(),
            keys@.len() == i,
            forall|j: int| 0 <= j < i ==> (#[trigger] keys@[j])@ == (0u8, rows[j].1.username),
        decreases n - i,
    {
        keys.push((0, text::chars_of(&users.value_at(i).username)));
        i += 1;
    }
    assert(text::views(keys@) =~= user_keys(rows));
    let order: Vec<usize> = order::listing_order(&keys);
    let mut r: Vec<UserView> = Vec::new();
    let mut a: usize = 0;
    while a < order.len()
        invariant
            a <= order@.len(),
            r@.len() == a,
            n == rows.len(),
            rows == users.rows(),
            keys@.len() == n,
            order::is_listing(text::views(keys@), order@),
            forall|b: int|
                0 <= b < a ==> (#[trigger] r@[b])@ == account::shown_user(rows[order@[b] as int].1),
        decreases order@.len() - a,
    {
        assert(order@[a as int] < keys@.len());
        r.push(UserView::from(users.value_at(order[a])));
        a += 1;
    }
    assert(text::views(r@) =~= users_listed(rows));
    r
}

/// What an administrator is shown of the users, in the order of their names.
pub fn list_users(store: &Store, headers: &RequestHeaders) -> (r: Result<Vec<UserView>, Refusal>)
    ensures
        match r {
            Ok(users) => admin_for(store@, headers@, "只有管理员可以访问后台"@) is Ok
                && text::views(users@) == users_listed(store.users.rows()),
            Err(e) => admin_for(store@, headers@, "只有管理员可以访问后台"@) == Err::<UserModel, _>(e@),
        },
{
    match require_admin(store, headers, "只有管理员可以访问后台") {
        Ok(_) => Ok(sort_users(&store.users)),
        Err(e) => Err(e),
    }
}

/// What an administrator is shown of the record: the newest entries, the
/// newest first.
pub fn list_audit_logs(store: &Store, headers: &RequestHeaders, logs: &Vec<AuditLog>) -> (r: Result<
    Vec<AuditLog>,
    Refusal,
>)
    ensures
        match r {
            Ok(shown) => admin_for(store@, headers@, "只有管理员可以查看活动记录"@) is Ok
                && text::views(shown@) == audit::newest_first(text::views(logs@)),
            Err(e) => admin_for(store@, headers@, "只有管理员可以查看活动记录"@) == Err::<UserModel, _>(e@),
        },
{
    match require_admin(store, headers, "只有管理员可以查看活动记录") {
        Ok(_) => Ok(audit::recent_logs(logs)),
        Err(e) => Err(e),
    }
}

/// The administrator who may create the user of a payload, else a refusal.
pub fn check_new_user(store: &Store, headers: &RequestHeaders, payload: &UserPayload) -> (r: Result<
    User,
    Refusal,
>)
    ensures
        text::result_view(r) == creation_check(store@, headers@, payload@),
{
    let admin: User = match require_admin(store, headers, "只有管理员可以创建用户") {
        Ok(admin) => admin,
        Err(e) => {
            return Err(e);
        },
    };
    let no_password: bool = match &payload.password {
        Some(password) => password.as_str().is_empty(),
        None => true,
    };
    if text::trim(&payload.username).as_str().is_empty() || no_password {
        return Err(reply::error(400, "用户名和密码不能为空"));
    }
    if store.users.contains_key(&payload.username) {
        return Err(reply::error(409, "用户已存在"));
    }
    Ok(admin)
}

/// The directories on disk for several virtual directories.
fn locate_all(root: &str, roots: &Vec<String>) -> (r: Vec<String>)
    ensures
        text::views(r@) == directories_for(root@, text::views(roots@)),
{
    let mut r: Vec<String> = Vec::new();
    let mut i: usize = 0;
    while i < roots.len()
        invariant
            i <= roots@.len(),
            r@.len() == i,
            forall|j: int| 0 <= j < i ==> (#[trigger] r@[j])@ == path::located(root@, roots@[j]@),
        decreases roots@.len() - i,
    {
        r.push(permit::locate(root, &roots[i]));
        i += 1;
    }
    assert(text::views(r@) =~= directories_for(root@, text::views(roots@)));
    r
}

/// Makes the user of a payload ready to be created, with the directories that
/// are to exist before.
pub fn prepare_user(
    store: &Store,
    headers: &RequestHeaders,
    root: &str,
    payload: &UserPayload,
) -> (r: Result<NewUser, Refusal>)
    ensures
        match r {
            Ok(new) => {
                &&& creation_check(store@, headers@, payload@) matches Ok(admin)
                    && new.admin@ == admin.username
                &&& new.user@ == account::payload_user(
                    payload@,
                    new.user@.password_hash,
                    new.user@.created_at,
                )
                &&& secrets::is_hash_of(payload@.password->0, new.user@.password_hash)
                &&& text::views(new.directories@) == directories_for(
                    root@,
                    new.user@.permissions.roots,
                )
            },
            Err(e) => creation_check(store@, headers@, payload@) == Err::<UserModel, _>(e@),
        },
{
    match check_new_user(store, headers, payload) {
        Ok(admin) => {
            let user: User = account::user_from_payload(payload);
            let directories: Vec<String> = locate_all(root, &user.permissions.roots);
            Ok(NewUser { admin: admin.username, user, directories })
        },
        Err(e) => Err(e),
    }
}

/// Adds a user whose directories exist.
pub fn add_user(store: &mut Store, admin: &str, user: User) -> (r: (UserView, AuditNote))
    ensures
        final(store)@ == with_user(old(store)@, user@),
        r.0@ == account::shown_user(user@),
        r.1@ == creation_note(admin@, user@.username),
{
    let view: UserView = UserView::from(&user);
    let detail: String = text::concat("创建用户 ", &user.username);
    store.users.insert(user.username.clone(), user);
    (view, audit::note(Some(admin.to_owned()), "create_user", None, 201, &detail))
}

/// Whether someone besides a user is an administrator.
fn has_other_admin(users: &Table<User>, username: &str) -> (r: bool)
    ensures
        r == other_admin(users@, username@),
{
    let n: usize = users.len();
    let ghost rows = users.rows();
    let mut i: usize = 0;
    while i < n
        invariant
            i <= n,
            n == rows.len(),
            rows == users.rows(),
            users@ == table::rows_map(rows),
            table::distinct_keys(rows),
            forall|j: int|
                0 <= j < i ==> (#[trigger] rows[j]).0 == username@ || rows[j].1.role != Role::Admin,
        decreases n - i,
    {
        proof {
            table::lemma_rows_map_at(rows, i as int);
        }
        let role: Role = users.value_at(i).role;
        if role == Role::Admin && !text::same(users.key_at(i), username) {
            assert(users@.contains_key(rows[i as int].0));
            return true;
        }
        i += 1;
    }
    proof {
        assert forall|name: Seq<char>| #[trigger]
            users@.contains_key(name) && name != username@ implies users@[name].role
            != Role::Admin by {
            table::lemma_rows_map_keys(rows, name);
            let j = choose|j: int| 0 <= j < rows.len() && (#[trigger] rows[j]).0 == name;
            table::lemma_rows_map_at(rows, j);
        }
    }
    false
}

/// What is to be done to change a user, else a refusal.
pub fn plan_change(
    store: &Store,
    headers: &RequestHeaders,
    root: &str,
    username: &str,
    payload: &UserPayload,
) -> (r: Result<UserChange, Refusal>)
    ensures
        text::result_view(r) == change_plan(store@, headers@, root@, username@, payload@),
{
    let admin: User = match require_admin(store, headers, "只有管理员可以修改用户") {
        Ok(admin) => admin,
        Err(e) => {
            return Err(e);
        },
    };
    let new_username: String = text::trim(&payload.username);
    if new_username.as_str().is_empty() {
        return Err(reply::error(400, "用户名不能为空"));
    }
    if !text::same(&new_username, username) && store.users.contains_key(&new_username) {
        return Err(reply::error(409, "用户名已存在"));
    }
    match store.users.get(username) {
        None => {
            return Err(reply::error(404, "用户不存在"));
        },
        Some(user) => {
            if user.role == Role::Admin && payload.role != Role::Admin && !has_other_admin(
                &store.users,
                username,
            ) {
                return Err(reply::error(400, "至少需要保留一个管理员"));
            }
        },
    }
    let permissions: Permissions = account::permissions_from_payload(payload);
    let directories: Vec<String> = locate_all(root, &permissions.roots);
    Ok(UserChange { admin: admin.username, directories })
}

/// The sessions after the name of a user changed.
fn rename_sessions(sessions: &Table<Session>, from: &str, to: &str) -> (r: Table<Session>)
    ensures
        r@ == renamed_sessions(sessions@, from@, to@),
{
    let n: usize = sessions.len();
    let ghost rows = sessions.rows();
    let mut r: Table<Session> = Table::new();
    let mut i: usize = 0;
    assert(r@ =~= renamed_sessions(table::rows_map(rows.take(0)), from@, to@));
    while i < n
        invariant
            i <= n,
            n == rows.len(),
            rows == sessions.rows(),
            r@ == renamed_sessions(table::rows_map(rows.take(i as int)), from@, to@),
        decreases n - i,
    {
        let session: &Session = sessions.value_at(i);
        let username: String = if text::same(&session.username, from) {
            to.to_owned()
        } else {
            session.username.clone()
        };
        r.insert(
            sessions.key_at(i).clone(),
            Session { username, created_at: session.created_at },
        );
        assert(rows.take(i + 1).drop_last() =~= rows.take(i as int));
        assert(r@ =~= renamed_sessions(table::rows_map(rows.take(i + 1)), from@, to@));
        i += 1;
    }
    assert(rows.take(i as int) =~= rows);
    r
}

/// The sessions of everyone but one user.
fn drop_sessions(sessions: &Table<Session>, username: &str) -> (r: Table<Session>)
    ensures
        r@ == sessions_without(sessions@, username@),
{
    let n: usize = sessions.len();
    let ghost rows = sessions.rows();
    let mut r: Table<Session> = Table::new();
    let mut i: usize = 0;
    assert(r@ =~= sessions_without(table::rows_map(rows.take(0)), username@));
    while i < n
        invariant
            i <= n,
            n == rows.len(),
            rows == sessions.rows(),
            table::distinct_keys(rows),
            r@ == sessions_without(table::rows_map(rows.take(i as int)), username@),
        decreases n - i,
    {
        let session: &Session = sessions.value_at(i);
        let ghost before = rows.take(i as int);
        assert(rows.take(i + 1).drop_last() =~= before);
        proof {
            table::lemma_rows_map_keys(before, rows[i as int].0);
            if table::rows_map(before).contains_key(rows[i as int].0) {
                let j = choose|j: int|
                    0 <= j < before.len() && (#[trigger] before[j]).0 == rows[i as int].0;
                assert(rows[j].0 != rows[i as int].0);
            }
        }
        if !text::same(&session.username, username) {
            r.insert(
                sessions.key_at(i).clone(),
                Session { username: session.username.clone(), created_at: session.created_at },
            );
        }
        assert(r@ =~= sessions_without(table::rows_map(rows.take(i + 1)), username@));
        i += 1;
    }
    assert(rows.take(i as int) =~= rows);
    r
}

/// Changes a user, given what is stored of a new password.
pub fn apply_change_with(
    store: &mut Store,
    username: &str,
    payload: &UserPayload,
    new_hash: Option<String>,
) -> (r: Result<UserView, Refusal>)
    ensures
        text::result_view(r) == change_answer(old(store)@, username@, payload@),
        final(store)@ == after_change(
            old(store)@,
            username@,
            payload@,
            text::opt_view(new_hash),
        ),
{
    let user: User = match store.users.remove(username) {
        Some(user) => user,
        None => {
            assert(store@ =~= old(store)@);
            return Err(reply::error(404, "用户不存在"));
        },
    };
    let new_username: String = text::trim(&payload.username);
    let password_hash: String = match new_hash {
        Some(hash) => hash,
        None => user.password_hash,
    };
    let changed = User {
        username: new_username.clone(),
        password_hash,
        role: payload.role,
        permissions: account::permissions_from_payload(payload),
        created_at: user.created_at,
    };
    let view: UserView = UserView::from(&changed);
    store.sessions = rename_sessions(&store.sessions, username, &new_username);
    store.users.insert(new_username, changed);
    Ok(view)
}

/// Changes a user. A password that is not empty replaces the one before.
pub fn apply_change(store: &mut Store, username: &str, payload: &UserPayload) -> (r: Result<
    UserView,
    Refusal,
>)
    ensures
        text::result_view(r) == change_answer(old(store)@, username@, payload@),
        exists|new_hash: Option<Seq<char>>|
            final(store)@ == #[trigger] after_change(
                old(store)@,
                username@,
                payload@,
                new_hash,
            ) && match (new_password(payload@), new_hash) {
                (Some(password), Some(hash)) => secrets::is_hash_of(password, hash),
                (None, None) => true,
                _ => false,
            },
{
    let new_hash: Option<String> = match &payload.password {
        Some(password) => {
            if password.as_str().is_empty() {
                None
            } else {
                Some(secrets::hash_password(password))
            }
        },
        None => None,
    };
    let ghost hash = text::opt_view(new_hash);
    let r: Result<UserView, Refusal> = apply_change_with(store, username, payload, new_hash);
    assert(store@ == after_change(old(store)@, username@, payload@, hash));
    r
}

/// The note of an administrator who changed a user.
pub fn note_change(admin: &str, username: &str) -> (r: AuditNote)
    ensures
        r@ == change_note(admin@, username@),
{
    audit::note(
        Some(admin.to_owned()),
        "update_user",
        None,
        200,
        &text::concat("修改用户 ", username),
    )
}

/// Deletes a user and ends their sessions.
pub fn delete_user(store: &mut Store, headers: &RequestHeaders, username: &str) -> (r: Result<
    AuditNote,
    Refusal,
>)
    ensures
        text::result_view(r) == deletion_answer(old(store)@, headers@, username@),
        final(store)@ == after_deletion(old(store)@, headers@, username@),
{
    let admin: User = match require_admin(store, headers, "只有管理员可以删除用户") {
        Ok(admin) => admin,
        Err(e) => {
            return Err(e);
        },
    };
    match store.users.get(username) {
        None => {
            return Err(reply::error(404, "用户不存在"));
        },
        Some(user) => {
            if user.role == Role::Admin && !has_other_admin(&store.users, username) {
                return Err(reply::error(400, "至少需要保留一个管理员"));
            }
        },
    }
    let _ = store.users.remove(username);
    store.sessions = drop_sessions(&store.sessions, username);
    Ok(
        audit::note(
            Some(admin.username),
            "delete_user",
            None,
            204,
            &text::concat("删除用户 ", username),
        ),
    )
}

/// Whether every user is found under their own name.
pub open spec fn keyed(users: Map<Seq<char>, UserModel>) -> bool {
    forall|name: Seq<char>| #[trigger]
        users.contains_key(name) ==> users[name].username == name
}

/// A new installation has an administrator, and its user is found under their
/// own name.
pub proof fn lemma_fresh_store_has_admin(admin: UserModel)
    requires
        admin.role == Role::Admin,
        admin.username == account::DEFAULT_ADMIN@,
    ensures
        has_admin(store::fresh_store(admin).users),
        keyed(store::fresh_store(admin).users),
{
    assert(store::fresh_store(admin).users.contains_key(account::DEFAULT_ADMIN@));
}

/// Someone is an administrator after a user was created, unless the new user
/// takes the place of the last one. The name that is asked for may differ from
/// a name in use by white space alone.
pub proof fn lemma_admin_remains_after_creation(
    store: StoreModel,
    headers: HeadersModel,
    payload: UserPayloadModel,
    password_hash: Seq<char>,
    now: Timestamp,
)
    requires
        has_admin(store.users),
        creation_check(store, headers, payload) is Ok,
        payload.role == Role::Admin || !store.users.contains_key(text::trimmed(payload.username))
            || other_admin(store.users, text::trimmed(payload.username)),
    ensures
        has_admin(with_user(store, account::payload_user(payload, password_hash, now)).users),
{
    let user = account::payload_user(payload, password_hash, now);
    let after = with_user(store, user).users;
    if payload.role == Role::Admin {
        assert(after.contains_key(user.username));
    } else {
        let name = choose|name: Seq<char>| #[trigger]
            store.users.contains_key(name) && store.users[name].role == Role::Admin && (
            store.users.contains_key(user.username) ==> name != user.username);
        assert(after.contains_key(name));
    }
}

/// Someone is an administrator after a user was changed.
pub proof fn lemma_admin_remains_after_change(
    store: StoreModel,
    headers: HeadersModel,
    root: Seq<char>,
    username: Seq<char>,
    payload: UserPayloadModel,
    new_hash: Option<Seq<char>>,
)
    requires
        has_admin(store.users),
        change_plan(store, headers, root, username, payload) is Ok,
    ensures
        has_admin(after_change(store, username, payload, new_hash).users),
{
    let after = after_change(store, username, payload, new_hash).users;
    if payload.role == Role::Admin {
        assert(after.contains_key(text::trimmed(payload.username)));
    } else {
        let name = choose|name: Seq<char>| #[trigger]
            store.users.contains_key(name) && store.users[name].role == Role::Admin && name
                != username;
        assert(after.contains_key(name));
    }
}

/// Someone is an administrator after a request to delete a user.
pub proof fn lemma_admin_remains_after_deletion(
    store: StoreModel,
    headers: HeadersModel,
    username: Seq<char>,
)
    requires
        has_admin(store.users),
    ensures
        has_admin(after_deletion(store, headers, username).users),
{
    if deletion_answer(store, headers, username) is Ok {
        let name = choose|name: Seq<char>| #[trigger]
            store.users.contains_key(name) && store.users[name].role == Role::Admin && name
                != username;
        assert(after_deletion(store, headers, username).users.contains_key(name));
    }
}

/// Users stay under their own names whatever is created, changed or deleted.
pub proof fn lemma_users_stay_keyed(
    store: StoreModel,
    headers: HeadersModel,
    user: UserModel,
    username: Seq<char>,
    payload: UserPayloadModel,
    new_hash: Option<Seq<char>>,
)
    requires
        keyed(store.users),
    ensures
        keyed(with_user(store, user).users),
        keyed(after_change(store, username, payload, new_hash).users),
        keyed(after_deletion(store, headers, username).users),
{
}

/// A user who was deleted is neither found by name nor by any session.
pub proof fn lemma_deletion_ends_sessions(
    store: StoreModel,
    headers: HeadersModel,
    username: Seq<char>,
    token: Seq<char>,
)
    requires
        deletion_answer(store, headers, username) is Ok,
        keyed(store.users),
    ensures
        !after_deletion(store, headers, username).users.contains_key(username),
        store::session_user(after_deletion(store, headers, username), token) matches Some(user)
            ==> user.username != username,
        store::found(store.sessions, token) matches Some(session) && session.username != username
            ==> store::session_user(after_deletion(store, headers, username), token)
            == store::session_user(store, token),
{
}

/// The sessions of a user outlive a change of the user, and those of the others
/// are not touched.
pub proof fn lemma_change_keeps_sessions(
    store: StoreModel,
    headers: HeadersModel,
    root: Seq<char>,
    username: Seq<char>,
    payload: UserPayloadModel,
    new_hash: Option<Seq<char>>,
    token: Seq<char>,
)
    requires
        change_plan(store, headers, root, username, payload) is Ok,
        store.sessions.contains_key(token),
        store.users.contains_key(store.sessions[token].username),
    ensures
        store.sessions[token].username == username ==> store::session_user(
            after_change(store, username, payload, new_hash),
            token,
        ) == Some(changed_user(store.users[username], payload, new_hash)),
        store.sessions[token].username != username ==> store::session_user(
            after_change(store, username, payload, new_hash),
            token,
        ) == store::session_user(store, token),
{
}

/// A change without a new password keeps the password, and one with a new
/// password makes it the one that matches.
pub proof fn lemma_change_of_password(
    store: StoreModel,
    username: Seq<char>,
    payload: UserPayloadModel,
    hash: Seq<char>,
    password: Seq<char>,
)
    requires
        store.users.contains_key(username),
        secrets::is_hash_of(password, hash),
    ensures
        after_change(store, username, payload, None).users[text::trimmed(
            payload.username,
        )].password_hash == store.users[username].password_hash,
        secrets::password_matches(
            password,
            after_change(store, username, payload, Some(hash)).users[text::trimmed(
                payload.username,
            )].password_hash,
        ),
{
    secrets::lemma_hash_matches(password, hash);
}

/// A new user can sign in with the name and the password that they were given.
pub proof fn lemma_created_user_can_sign_in(
    store: StoreModel,
    payload: UserPayloadModel,
    password: Seq<char>,
    password_hash: Seq<char>,
    now: Timestamp,
)
    requires
        secrets::is_hash_of(password, password_hash),
    ensures
        session::password_right(
            with_user(store, account::payload_user(payload, password_hash, now)),
            (LoginPayloadModel { username: text::trimmed(payload.username), password }),
        ),
{
    secrets::lemma_hash_matches(password, password_hash);
}

/// A client that is not signed in as an administrator is refused, and changes
/// nothing.
pub proof fn lemma_only_admins_manage_users(
    store: StoreModel,
    headers: HeadersModel,
    root: Seq<char>,
    username: Seq<char>,
    payload: UserPayloadModel,
    message: Seq<char>,
)
    requires
        store::signed_in(store, headers) matches Some(user) ==> user.role != Role::Admin,
    ensures
        ({
            let status: u16 = if store::signed_in(store, headers) is Some {
                403
            } else {
                401
            };
            &&& admin_for(store, headers, message) matches Err(e) && e.status == status
            &&& creation_check(store, headers, payload) matches Err(e) && e.status == status
            &&& change_plan(store, headers, root, username, payload) matches Err(e) && e.status
                == status
            &&& deletion_answer(store, headers, username) matches Err(e) && e.status == status
        }),
        after_deletion(store, headers, username) == store,
{
}

/// Only a client that has signed in as an administrator passes.
pub proof fn lemma_admin_leave(store: StoreModel, headers: HeadersModel, message: Seq<char>)
    ensures
        match admin_for(store, headers, message) {
            Ok(user) => store::signed_in(store, headers) == Some(user) && user.role == Role::Admin,
            Err(e) => !e.challenge && e.note is None && match store::signed_in(store, headers) {
                None => e.status == 401 && e.message == "请先登录"@,
                Some(user) => user.role != Role::Admin && e.status == 403 && e.message == message,
            },
        },
{
}

/// A user is created exactly where an administrator asks for it, with a name and
/// a password that are not empty, and a name that is not in use.
pub proof fn lemma_creation_leave(
    store: StoreModel,
    headers: HeadersModel,
    payload: UserPayloadModel,
)
    ensures
        ({
            let complete = text::trimmed(payload.username).len() > 0 && (
            payload.password matches Some(password) && password.len() > 0);
            match creation_check(store, headers, payload) {
                Ok(admin) => store::signed_in(store, headers) == Some(admin) && admin.role
                    == Role::Admin && complete && !store.users.contains_key(payload.username),
                Err(e) => !e.challenge && e.note is None && match store::signed_in(store, headers) {
                    None => e.status == 401 && e.message == "请先登录"@,
                    Some(user) => if user.role != Role::Admin {
                        e.status == 403 && e.message == "只有管理员可以创建用户"@
                    } else if !complete {
                        e.status == 400 && e.message == "用户名和密码不能为空"@
                    } else {
                        store.users.contains_key(payload.username) && e.status == 409 && e.message
                            == "用户已存在"@
                    },
                },
            }
        }),
{
}

/// A user who was created is found under their name, as they were made, and no
/// other user is touched.
pub proof fn lemma_created_user_is_found(
    store: StoreModel,
    admin: Seq<char>,
    user: UserModel,
    other: Seq<char>,
)
    ensures
        with_user(store, user).users.contains_key(user.username),
        with_user(store, user).users[user.username] == user,
        other != user.username ==> store::found(with_user(store, user).users, other)
            == store::found(store.users, other),
        with_user(store, user).sessions == store.sessions,
        with_user(store, user).public_files == store.public_files,
        with_user(store, user).public_copies == store.public_copies,
        with_user(store, user).file_grants == store.file_grants,
        with_user(store, user).download_counts == store.download_counts,
        with_user(store, user).fresh_setup == store.fresh_setup,
        ({
            let note = creation_note(admin, user.username);
            note.username == Some(admin) && note.action == "create_user"@ && note.path is None
                && note.status == 201 && note.detail == "创建用户 "@ + user.username
        }),
{
}

/// The directories of a user are made at their places on disk, one for each.
pub proof fn lemma_directories_are_located(root: Seq<char>, roots: Seq<Seq<char>>, i: int)
    ensures
        directories_for(root, roots).len() == roots.len(),
        0 <= i < roots.len() ==> directories_for(root, roots)[i] == path::located(root, roots[i]),
{
}

/// A user is changed exactly where an administrator asks for it, the new name is
/// neither empty nor that of another, there is such a user, and an administrator
/// is left.
pub proof fn lemma_change_leave(
    store: StoreModel,
    headers: HeadersModel,
    root: Seq<char>,
    username: Seq<char>,
    payload: UserPayloadModel,
)
    ensures
        ({
            let name = text::trimmed(payload.username);
            let last_admin = store.users[username].role == Role::Admin && payload.role
                != Role::Admin && !(exists|other: Seq<char>| #[trigger]
                store.users.contains_key(other) && other != username && store.users[other].role
                    == Role::Admin);
            match change_plan(store, headers, root, username, payload) {
                Ok(change) => {
                    &&& store::signed_in(store, headers) matches Some(admin) && admin.role
                        == Role::Admin && change.admin == admin.username
                    &&& name.len() > 0
                    &&& name == username || !store.users.contains_key(name)
                    &&& store.users.contains_key(username)
                    &&& !last_admin
                    &&& change.directories == directories_for(
                        root,
                        account::payload_user(
                            payload,
                            Seq::empty(),
                            store.users[username].created_at,
                        ).permissions.roots,
                    )
                },
                Err(e) => !e.challenge && e.note is None && match store::signed_in(store, headers) {
                    None => e.status == 401 && e.message == "请先登录"@,
                    Some(user) => if user.role != Role::Admin {
                        e.status == 403 && e.message == "只有管理员可以修改用户"@
                    } else if name.len() == 0 {
                        e.status == 400 && e.message == "用户名不能为空"@
                    } else if name != username && store.users.contains_key(name) {
                        e.status == 409 && e.message == "用户名已存在"@
                    } else if !store.users.contains_key(username) {
                        e.status == 404 && e.message == "用户不存在"@
                    } else {
                        last_admin && e.status == 400 && e.message == "至少需要保留一个管理员"@
                    },
                },
            }
        }),
{
}

/// A user who was changed is found under the new name with what the payload
/// gives, as a new user would have it, and keeps their age. Nobody else is
/// touched, and nothing but users and sessions.
pub proof fn lemma_changed_user_is_found(
    store: StoreModel,
    headers: HeadersModel,
    root: Seq<char>,
    username: Seq<char>,
    payload: UserPayloadModel,
    new_hash: Option<Seq<char>>,
    other: Seq<char>,
)
    requires
        change_plan(store, headers, root, username, payload) is Ok,
    ensures
        ({
            let name = text::trimmed(payload.username);
            let after = after_change(store, username, payload, new_hash);
            let before = store.users[username];
            let made = account::payload_user(payload, before.password_hash, before.created_at);
            &&& after.users.contains_key(name)
            &&& after.users[name].username == name && after.users[name].role == payload.role
            &&& after.users[name].permissions == made.permissions
            &&& after.users[name].created_at == before.created_at
            &&& new_hash is None ==> after.users[name].password_hash == before.password_hash
            &&& new_hash matches Some(hash) ==> after.users[name].password_hash == hash
            &&& name != username ==> !after.users.contains_key(username)
            &&& other != name && other != username ==> store::found(after.users, other)
                == store::found(store.users, other)
            &&& after.public_files == store.public_files && after.public_copies
                == store.public_copies
            &&& after.file_grants == store.file_grants && after.download_counts
                == store.download_counts && after.fresh_setup == store.fresh_setup
            &&& change_answer(store, username, payload) matches Ok(view) && view.username == name
                && view.role == payload.role && view.permissions == made.permissions
                && view.created_at == before.created_at
        }),
{
}

/// Sessions go with the name of their user, keep their age, and none is opened or
/// ended by a change. A deletion ends those of the user and no other.
pub proof fn lemma_sessions_follow_users(
    sessions: Map<Seq<char>, SessionModel>,
    from: Seq<char>,
    to: Seq<char>,
    token: Seq<char>,
)
    ensures
        renamed_sessions(sessions, from, to).contains_key(token) <==> sessions.contains_key(token),
        sessions.contains_key(token) ==> {
            let after = renamed_sessions(sessions, from, to)[token];
            &&& after.created_at == sessions[token].created_at
            &&& sessions[token].username == from ==> after.username == to
            &&& sessions[token].username != from ==> after.username == sessions[token].username
        },
        sessions_without(sessions, from).contains_key(token) <==> sessions.contains_key(token)
            && sessions[token].username != from,
        sessions_without(sessions, from).contains_key(token) ==> sessions_without(
            sessions,
            from,
        )[token] == sessions[token],
{
}

/// The note of a change says who changed whom, and a payload gives a new password
/// only where it is not empty.
pub proof fn lemma_change_is_noted(
    admin: Seq<char>,
    username: Seq<char>,
    payload: UserPayloadModel,
)
    ensures
        ({
            let note = change_note(admin, username);
            note.username == Some(admin) && note.action == "update_user"@ && note.path is None
                && note.status == 200 && note.detail == "修改用户 "@ + username
        }),
        match new_password(payload) {
            Some(password) => payload.password == Some(password) && password.len() > 0,
            None => payload.password matches Some(password) ==> password.len() == 0,
        },
{
}

/// A user is deleted exactly where an administrator asks for it, there is such a
/// user, and an administrator is left. Nobody else is touched, and nothing but
/// users and sessions.
pub proof fn lemma_deletion(
    store: StoreModel,
    headers: HeadersModel,
    username: Seq<char>,
    other: Seq<char>,
)
    ensures
        ({
            let last_admin = store.users[username].role == Role::Admin && !(exists|
                name: Seq<char>,
            | #[trigger]
                store.users.contains_key(name) && name != username && store.users[name].role
                    == Role::Admin);
            match deletion_answer(store, headers, username) {
                Ok(note) => {
                    &&& store::signed_in(store, headers) matches Some(admin) && admin.role
                        == Role::Admin && note.username == Some(admin.username)
                    &&& store.users.contains_key(username) && !last_admin
                    &&& note.action == "delete_user"@ && note.path is None && note.status == 204
                        && note.detail == "删除用户 "@ + username
                },
                Err(e) => !e.challenge && e.note is None && match store::signed_in(store, headers) {
                    None => e.status == 401 && e.message == "请先登录"@,
                    Some(user) => if user.role != Role::Admin {
                        e.status == 403 && e.message == "只有管理员可以删除用户"@
                    } else if !store.users.contains_key(username) {
                        e.status == 404 && e.message == "用户不存在"@
                    } else {
                        last_admin && e.status == 400 && e.message == "至少需要保留一个管理员"@
                    },
                },
            }
        }),
        ({
            let after = after_deletion(store, headers, username);
            &&& deletion_answer(store, headers, username) is Ok ==> !after.users.contains_key(
                username,
            )
            &&& deletion_answer(store, headers, username) is Err ==> after == store
            &&& other != username ==> store::found(after.users, other) == store::found(
                store.users,
                other,
            )
            &&& after.public_files == store.public_files && after.public_copies
                == store.public_copies
            &&& after.file_grants == store.file_grants && after.download_counts
                == store.download_counts && after.fresh_setup == store.fresh_setup
        }),
{
}

/// Every user is listed once, as they are, in the order of their names.
pub proof fn lemma_users_are_listed(rows: Seq<(Seq<char>, UserModel)>, k: int, a: int, b: int)
    requires
        rows.len() <= usize::MAX,
        0 <= k < rows.len(),
    ensures
        users_listed(rows).len() == rows.len(),
        exists|i: int|
            0 <= i < rows.len() && (#[trigger] users_listed(rows)[i]).username
                == rows[k].1.username && users_listed(rows)[i].role == rows[k].1.role
                && users_listed(rows)[i].permissions == rows[k].1.permissions
                && users_listed(rows)[i].created_at == rows[k].1.created_at,
        0 <= a < b < rows.len() ==> users_listed(rows)[a].username == users_listed(
            rows,
        )[b].username || text::text_before(
            users_listed(rows)[a].username,
            users_listed(rows)[b].username,
        ),
{
    let keys = user_keys(rows);
    let shown = users_shown(rows);
    let view = account::shown_user(rows[k].1);
    assert(shown[k] == view);
    assert(shown.contains(view));
    order::lemma_picked_members(shown, keys, view);
    let i = choose|i: int| 0 <= i < users_listed(rows).len() && users_listed(rows)[i] == view;
    assert(users_listed(rows)[i].username == rows[k].1.username);
    if 0 <= a < b < rows.len() {
        order::lemma_listing_is_sorted(keys, a, b);
    }
}

/// After a deletion no session of the user is left, even for one who is created
/// under the same name later, and the sessions of the others stay as they were.
/// A change opens and ends none: those of the user go under the new name, and
/// the others stay as they were.
pub proof fn lemma_sessions_after_deletion_and_change(
    store: StoreModel,
    headers: HeadersModel,
    username: Seq<char>,
    payload: UserPayloadModel,
    new_hash: Option<Seq<char>>,
    token: Seq<char>,
    later: UserModel,
)
    ensures
        deletion_answer(store, headers, username) is Ok ==> {
            let after = after_deletion(store, headers, username);
            &&& after.sessions.contains_key(token) <==> store.sessions.contains_key(token)
                && store.sessions[token].username != username
            &&& after.sessions.contains_key(token) ==> after.sessions[token]
                == store.sessions[token]
            &&& store.sessions.contains_key(token) && store.sessions[token].username == username
                ==> store::session_user(with_user(after, later), token) is None
        },
        store.users.contains_key(username) ==> {
            let after = after_change(store, username, payload, new_hash);
            &&& after.sessions.contains_key(token) <==> store.sessions.contains_key(token)
            &&& store.sessions.contains_key(token) ==> after.sessions[token].created_at
                == store.sessions[token].created_at && after.sessions[token].username == (
            if store.sessions[token].username == username {
                text::trimmed(payload.username)
            } else {
                store.sessions[token].username
            })
        },
{
}

} // verus!
