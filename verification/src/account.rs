//! Users, what they may do and what they may see.

use crate::clock;
use crate::clock::Timestamp;
use crate::path;
use crate::secrets;
use crate::text;
use vstd::prelude::*;

verus! {

/// The name of the administrator that a new installation has.
pub const DEFAULT_ADMIN: &'static str = "admin";

/// The password of a user for whom none was given.
pub const DEFAULT_PASSWORD: &'static str = "admin";

/// The role of a user.
#[derive(Clone, Copy, Debug, PartialEq, Eq, Structural)]
pub enum Role {
    Admin,
    User,
}

/// What a user may do, and in which directories.
#[derive(Debug)]
pub struct Permissions {
    pub roots: Vec<String>,
    pub can_upload: bool,
    pub can_delete: bool,
    pub can_publish: bool,
}

/// What a user may do, and in which directories.
#[verifier::ext_equal]
pub struct PermissionsModel {
    pub roots: Seq<Seq<char>>,
    pub can_upload: bool,
    pub can_delete: bool,
    pub can_publish: bool,
}

impl View for Permissions {
    type V = PermissionsModel;

    open spec fn view(&self) -> PermissionsModel {
        PermissionsModel {
            roots: text::views(self.roots@),
            can_upload: self.can_upload,
            can_delete: self.can_delete,
            can_publish: self.can_publish,
        }
    }
}

impl Clone for Permissions {
    fn clone(&self) -> (r: Self)
        ensures
            r@ == self@,
    {
        Permissions {
            roots: text::copy_all(&self.roots),
            can_upload: self.can_upload,
            can_delete: self.can_delete,
            can_publish: self.can_publish,
        }
    }
}

/// A user, with what is stored of their password.
#[derive(Debug)]
pub struct User {
    pub username: String,
    pub password_hash: String,
    pub role: Role,
    pub permissions: Permissions,
    pub created_at: Timestamp,
}

/// A user, with what is stored of their password.
#[verifier::ext_equal]
pub struct UserModel {
    pub username: Seq<char>,
    pub password_hash: Seq<char>,
    pub role: Role,
    pub permissions: PermissionsModel,
    pub created_at: Timestamp,
}

impl View for User {
    type V = UserModel;

    open spec fn view(&self) -> UserModel {
        UserModel {
            username: self.username@,
            password_hash: self.password_hash@,
            role: self.role,
            permissions: self.permissions@,
            created_at: self.created_at,
        }
    }
}

impl Clone for User {
    fn clone(&self) -> (r: Self)
        ensures
            r@ == self@,
    {
        User {
            username: self.username.clone(),
            password_hash: self.password_hash.clone(),
            role: self.role,
            permissions: self.permissions.clone(),
            created_at: self.created_at,
        }
    }
}

/// What others are shown of a user: everything but the password.
#[derive(Debug)]
pub struct UserView {
    pub username: String,
    pub role: Role,
    pub permissions: Permissions,
    pub created_at: Timestamp,
}

/// What others are shown of a user: everything but the password.
#[verifier::ext_equal]
pub struct UserViewModel {
    pub username: Seq<char>,
    pub role: Role,
    pub permissions: PermissionsModel,
    pub created_at: Timestamp,
}

impl View for UserView {
    type V = UserViewModel;

    open spec fn view(&self) -> UserViewModel {
        UserViewModel {
            username: self.username@,
            role: self.role,
            permissions: self.permissions@,
            created_at: self.created_at,
        }
    }
}

/// What others are shown of a user.
pub open spec fn shown_user(user: UserModel) -> UserViewModel {
    UserViewModel {
        username: user.username,
        role: user.role,
        permissions: user.permissions,
        created_at: user.created_at,
    }
}

/// What an administrator sends to create or change a user.
#[derive(Debug)]
pub struct UserPayload {
    pub username: String,
    pub password: Option<String>,
    pub role: Role,
    pub roots: Vec<String>,
    pub can_upload: bool,
    pub can_delete: bool,
    pub can_publish: bool,
}

/// What an administrator sends to create or change a user.
#[verifier::ext_equal]
pub struct UserPayloadModel {
    pub username: Seq<char>,
    pub password: Option<Seq<char>>,
    pub role: Role,
    pub roots: Seq<Seq<char>>,
    pub can_upload: bool,
    pub can_delete: bool,
    pub can_publish: bool,
}

impl View for UserPayload {
    type V = UserPayloadModel;

    open spec fn view(&self) -> UserPayloadModel {
        UserPayloadModel {
            username: self.username@,
            password: text::opt_view(self.password),
            role: self.role,
            roots: text::views(self.roots@),
            can_upload: self.can_upload,
            can_delete: self.can_delete,
            can_publish: self.can_publish,
        }
    }
}

/// The directories that were given for a user, in normal form. For a user who
/// is no administrator the root directory is left out.
pub open spec fn given_roots(role: Role, roots: Seq<Seq<char>>) -> Seq<Seq<char>>
    decreases roots.len(),
{
    if roots.len() == 0 {
        Seq::empty()
    } else {
        let before = given_roots(role, roots.drop_last());
        let root = path::normalized(roots.last());
        if role == Role::Admin || root != seq!['/'] {
            before.push(root)
        } else {
            before
        }
    }
}

/// The directories that a user gets: those that were given, else the root
/// directory for an administrator and their own directory for anyone else.
/// Everyone but an administrator gets the public area with them.
pub open spec fn effective_roots(
    username: Seq<char>,
    role: Role,
    roots: Seq<Seq<char>>,
) -> Seq<Seq<char>> {
    let given = given_roots(role, roots);
    if role == Role::Admin {
        if given.len() == 0 {
            seq![seq!['/']]
        } else {
            given
        }
    } else if given.len() == 0 {
        seq!["/user/"@ + username, "/public"@]
    } else if given.contains("/public"@) {
        given
    } else {
        given.push("/public"@)
    }
}

/// What a user may do: an administrator may always delete and publish.
pub open spec fn effective(
    username: Seq<char>,
    role: Role,
    roots: Seq<Seq<char>>,
    can_upload: bool,
    can_delete: bool,
    can_publish: bool,
) -> PermissionsModel {
    PermissionsModel {
        roots: effective_roots(username, role, roots),
        can_upload,
        can_delete: role == Role::Admin || can_delete,
        can_publish: role == Role::Admin || can_publish,
    }
}

/// The permissions that a payload gives.
pub open spec fn payload_permissions(payload: UserPayloadModel) -> PermissionsModel {
    effective(
        text::trimmed(payload.username),
        payload.role,
        payload.roots,
        payload.can_upload,
        payload.can_delete,
        payload.can_publish,
    )
}

/// The password that a payload gives, or the default one.
pub open spec fn payload_password(payload: UserPayloadModel) -> Seq<char> {
    match payload.password {
        Some(password) => password,
        None => DEFAULT_PASSWORD@,
    }
}

/// The user that a payload makes, given what is stored of the password and the
/// time.
pub open spec fn payload_user(
    payload: UserPayloadModel,
    password_hash: Seq<char>,
    now: Timestamp,
) -> UserModel {
    UserModel {
        username: text::trimmed(payload.username),
        password_hash,
        role: payload.role,
        permissions: payload_permissions(payload),
        created_at: now,
    }
}

/// The user that a name and a role make, given what is stored of the password
/// and the time.
pub open spec fn default_user(
    username: Seq<char>,
    role: Role,
    password_hash: Seq<char>,
    now: Timestamp,
) -> UserModel {
    UserModel {
        username,
        password_hash,
        role,
        permissions: effective(username, role, Seq::empty(), true, false, false),
        created_at: now,
    }
}

/// Whether a directory in normal form is or holds a path.
pub open spec fn covers(root: Seq<char>, path: Seq<char>) -> bool {
    ||| root == seq!['/']
    ||| path == root
    ||| (text::without_trailing(root, '/') + seq!['/']).is_prefix_of(path)
}

/// Whether one of the directories of a user is or holds a path.
pub open spec fn roots_cover(roots: Seq<Seq<char>>, path: Seq<char>) -> bool {
    exists|i: int| 0 <= i < roots.len() && covers(path::cleaned(#[trigger] roots[i]), path)
}

/// Whether a user may see a path by their role or their directories.
pub open spec fn may_read(user: UserModel, path: Seq<char>) -> bool {
    user.role == Role::Admin || roots_cover(user.permissions.roots, path)
}

impl UserView {
    /// What others are shown of a user.
    pub fn from(user: &User) -> (r: Self)
        ensures
            r@ == shown_user(user@),
    {
        UserView {
            username: user.username.clone(),
            role: user.role,
            permissions: user.permissions.clone(),
            created_at: user.created_at,
        }
    }
}

impl User {
    /// The user that a name and a role make, given what is stored of the
    /// password and the time.
    pub fn with_hash(username: &str, role: Role, password_hash: String, now: Timestamp) -> (r: Self)
        ensures
            r@ == default_user(username@, role, password_hash@, now),
    {
        let roots: Vec<String> = Vec::new();
        let permissions: Permissions = effective_permissions(
            username,
            role,
            &roots,
            true,
            false,
            false,
        );
        assert(text::views(roots@) =~= Seq::empty());
        User { username: username.to_owned(), password_hash, role, permissions, created_at: now }
    }

    /// A new user with a password: an administrator has the root directory,
    /// anyone else their own.
    pub fn new(username: &str, password: &str, role: Role) -> (r: Self)
        ensures
            r@ == default_user(username@, role, r@.password_hash, r@.created_at),
            secrets::is_hash_of(password@, r@.password_hash),
    {
        let password_hash: String = secrets::hash_password(password);
        Self::with_hash(username, role, password_hash, clock::now())
    }
}

/// The directories that were given for a user, in normal form.
fn collect_roots(role: Role, roots: &[String]) -> (r: Vec<String>)
    ensures
        text::views(r@) == given_roots(role, text::views(roots@)),
{
    let mut r: Vec<String> = Vec::new();
    let mut i: usize = 0;
    proof {
        reveal_strlit("/");
        assert("/"@ =~= seq!['/']);
        assert(text::views(r@) =~= given_roots(role, text::views(roots@).take(0)));
    }
    while i < roots.len()
        invariant
            i <= roots@.len(),
            "/"@ == seq!['/'],
            text::views(r@) == given_roots(role, text::views(roots@).take(i as int)),
        decreases roots@.len() - i,
    {
        assert(text::views(roots@).take(i + 1).drop_last() =~= text::views(roots@).take(i as int));
        let root: String = path::normalize_path(&roots[i]);
        let ghost before = r@;
        if role == Role::Admin || !text::same(&root, "/") {
            let ghost added = root@;
            r.push(root);
            assert(text::views(r@) =~= text::views(before).push(added));
        }
        i += 1;
    }
    assert(text::views(roots@).take(i as int) =~= text::views(roots@));
    r
}

/// What a user may do, from what an administrator has given.
pub fn effective_permissions(
    username: &str,
    role: Role,
    roots: &[String],
    can_upload: bool,
    can_delete: bool,
    can_publish: bool,
) -> (r: Permissions)
    ensures
        r@ == effective(username@, role, text::views(roots@), can_upload, can_delete, can_publish),
{
    let mut given: Vec<String> = collect_roots(role, roots);
    let ghost listed = text::views(given@);
    if given.len() == 0 {
        if role == Role::Admin {
            proof {
                reveal_strlit("/");
            }
            given.push("/".to_owned());
            assert(given@[0]@ =~= seq!['/']);
        } else {
            given.push(text::concat("/user/", username));
            given.push("/public".to_owned());
        }
    } else if role != Role::Admin && !text::contains(&given, "/public") {
        given.push("/public".to_owned());
        assert(text::views(given@) =~= listed.push("/public"@));
    }
    assert(text::views(given@) =~= effective_roots(username@, role, text::views(roots@)));
    Permissions {
        roots: given,
        can_upload,
        can_delete: role == Role::Admin || can_delete,
        can_publish: role == Role::Admin || can_publish,
    }
}

/// The permissions that a payload gives.
pub fn permissions_from_payload(payload: &UserPayload) -> (r: Permissions)
    ensures
        r@ == payload_permissions(payload@),
{
    effective_permissions(
        &text::trim(&payload.username),
        payload.role,
        &payload.roots,
        payload.can_upload,
        payload.can_delete,
        payload.can_publish,
    )
}

/// The user that a payload makes, given what is stored of the password and the
/// time.
pub fn user_from_payload_with_hash(
    payload: &UserPayload,
    password_hash: String,
    now: Timestamp,
) -> (r: User)
    ensures
        r@ == payload_user(payload@, password_hash@, now),
{
    User {
        username: text::trim(&payload.username),
        password_hash,
        role: payload.role,
        permissions: permissions_from_payload(payload),
        created_at: now,
    }
}

/// The user that a payload makes.
pub fn user_from_payload(payload: &UserPayload) -> (r: User)
    ensures
        r@ == payload_user(payload@, r@.password_hash, r@.created_at),
        secrets::is_hash_of(payload_password(payload@), r@.password_hash),
{
    let password_hash: String = match &payload.password {
        Some(password) => secrets::hash_password(password),
        None => secrets::hash_password(DEFAULT_PASSWORD),
    };
    user_from_payload_with_hash(payload, password_hash, clock::now())
}

/// Whether a user may see a path by their role or their directories.
pub fn can_read(user: &User, path: &str) -> (r: bool)
    ensures
        r == may_read(user@, path@),
{
    if user.role == Role::Admin {
        return true;
    }
    let roots: &Vec<String> = &user.permissions.roots;
    let mut i: usize = 0;
    proof {
        reveal_strlit("/");
        assert("/"@ =~= seq!['/']);
    }
    while i < roots.len()
        invariant
            i <= roots@.len(),
            "/"@ == seq!['/'],
            user.role != Role::Admin,
            text::views(roots@) == user@.permissions.roots,
            forall|j: int|
                0 <= j < i ==> !covers(
                    path::cleaned(#[trigger] text::views(roots@)[j]),
                    path@,
                ),
        decreases roots@.len() - i,
    {
        let root: String = path::clean_path(&roots[i]);
        assert(root@ == path::cleaned(text::views(roots@)[i as int]));
        if text::same(&root, "/") || text::same(path, &root) || text::starts_with(
            path,
            &text::concat(&text::strip_trailing(&root, '/'), "/"),
        ) {
            assert(covers(path::cleaned(text::views(roots@)[i as int]), path@));
            return true;
        }
        i += 1;
    }
    false
}

proof fn lemma_given_roots(role: Role, roots: Seq<Seq<char>>)
    requires
        role != Role::Admin,
    ensures
        !given_roots(role, roots).contains(seq!['/']),
    decreases roots.len(),
{
    if roots.len() > 0 {
        lemma_given_roots(role, roots.drop_last());
    }
}

/// Only an administrator gets the root directory. Everyone else gets the
/// public area.
pub proof fn lemma_only_admins_get_the_root(username: Seq<char>, role: Role, roots: Seq<Seq<char>>)
    requires
        role != Role::Admin,
    ensures
        !effective_roots(username, role, roots).contains(seq!['/']),
        effective_roots(username, role, roots).contains("/public"@),
{
    let given = given_roots(role, roots);
    let all = effective_roots(username, role, roots);
    lemma_given_roots(role, roots);
    reveal_strlit("/public");
    reveal_strlit("/user/");
    assert(("/user/"@ + username).len() >= 6);
    assert("/public"@.len() == 7);
    if given.len() == 0 {
        assert(all[1] == "/public"@);
    } else if !given.contains("/public"@) {
        assert(all[given.len() as int] == "/public"@);
        if all.contains(seq!['/']) {
            let i = choose|i: int| 0 <= i < all.len() && all[i] == seq!['/'];
            assert(given[i] == seq!['/']);
        }
    }
}

/// A directory in normal form holds itself and what lies below it, and not what
/// merely starts with its name.
pub proof fn lemma_directory_covers(names: Seq<Seq<char>>, path: Seq<char>)
    requires
        names.len() > 0,
        path::all_names(names),
    ensures
        covers(path::cleaned(path::rooted(names)), path) <==> path::lies_in(
            path,
            path::rooted(names),
        ),
{
    let dir = path::rooted(names);
    path::lemma_cleaned(dir);
    let last = names.last();
    assert(path::is_name(names[names.len() - 1]));
    assert(dir.last() == last.last());
    assert(last.contains(last[last.len() - 1]));
    assert(dir.len() > 1);
}

/// A user with the default directories sees their own directory and the public
/// area, and nothing else.
pub proof fn lemma_default_user_reads_own_directory(
    username: Seq<char>,
    role: Role,
    password_hash: Seq<char>,
    now: Timestamp,
    path: Seq<char>,
)
    requires
        role != Role::Admin,
        path::is_name(username),
    ensures
        may_read(default_user(username, role, password_hash, now), path) <==> path::lies_in(
            path,
            "/user/"@ + username,
        ) || path::lies_in(path, "/public"@),
{
    let roots = default_user(username, role, password_hash, now).permissions.roots;
    reveal_strlit("/user/");
    reveal_strlit("/public");
    let user = seq!['u', 's', 'e', 'r'];
    let public = seq!['p', 'u', 'b', 'l', 'i', 'c'];
    let own = seq![user, username];
    reveal_with_fuel(path::chain, 3);
    assert(own.drop_last() =~= seq![user]);
    assert(seq![user].drop_last() =~= Seq::<Seq<char>>::empty());
    assert(seq![public].drop_last() =~= Seq::<Seq<char>>::empty());
    assert("/user/"@ + username =~= path::rooted(own));
    assert("/public"@ =~= path::rooted(seq![public]));
    assert(path::all_names(own)) by {
        assert(own[0] == user && own[1] == username);
        assert(!user.contains('/'));
    }
    assert(path::all_names(seq![public])) by {
        assert(!public.contains('/'));
    }
    lemma_directory_covers(own, path);
    lemma_directory_covers(seq![public], path);
    assert(roots[0] == "/user/"@ + username && roots[1] == "/public"@);
    assert(roots.len() == 2);
}

/// What lies in a directory that a user may see, the user may see too.
pub proof fn lemma_children_are_readable(user: UserModel, dir: Seq<char>, name: Seq<char>)
    requires
        path::is_normal(dir),
        may_read(user, dir),
    ensures
        may_read(user, path::child(dir, name)),
{
    if user.role != Role::Admin {
        let roots = user.permissions.roots;
        let i = choose|i: int|
            0 <= i < roots.len() && covers(path::cleaned(#[trigger] roots[i]), dir);
        path::lemma_cleaned(roots[i]);
        lemma_child_is_covered(path::cleaned(roots[i]), dir, name);
    }
}

proof fn lemma_child_is_covered(root: Seq<char>, dir: Seq<char>, name: Seq<char>)
    requires
        path::is_normal(root),
        path::is_normal(dir),
        covers(root, dir),
    ensures
        covers(root, path::child(dir, name)),
{
    if root != seq!['/'] {
        path::lemma_normal_end(root);
        path::lemma_normal_end(dir);
        let inside = root + seq!['/'];
        let child = path::child(dir, name);
        if dir == seq!['/'] {
            assert(inside.len() > 1);
        } else {
            assert(child == dir + seq!['/'] + name);
            if dir == root {
                assert(inside =~= child.take(inside.len() as int));
            } else {
                assert(inside =~= child.take(inside.len() as int)) by {
                    assert(inside =~= dir.take(inside.len() as int));
                }
            }
        }
    }
}

/// What a user may see who is no administrator lies, on disk, in the place of
/// one of their directories.
pub proof fn lemma_readable_path_lies_in_a_directory(
    user: UserModel,
    root: Seq<char>,
    path: Seq<char>,
) -> (found: (int, Seq<Seq<char>>))
    requires
        user.role != Role::Admin,
        may_read(user, path),
    ensures
        0 <= found.0 < user.permissions.roots.len(),
        path::all_names(found.1),
        path::located(root, path) == path::disk_path(
            path::located(root, user.permissions.roots[found.0]),
            found.1,
        ),
{
    let roots = user.permissions.roots;
    let i = choose|i: int|
        0 <= i < roots.len() && covers(path::cleaned(#[trigger] roots[i]), path);
    let dir = path::cleaned(roots[i]);
    path::lemma_cleaned(roots[i]);
    if dir == seq!['/'] {
        path::lemma_located_below_root(root, path);
        path::lemma_names_of_slash();
        (i, path::names_in(path))
    } else {
        path::lemma_normal_end(dir);
        (i, path::lemma_located_in_directory(root, dir, path))
    }
}

/// What others are shown of a user is their name, role, permissions and age.
pub proof fn lemma_user_is_shown(user: UserModel)
    ensures
        shown_user(user).username == user.username,
        shown_user(user).role == user.role,
        shown_user(user).permissions == user.permissions,
        shown_user(user).created_at == user.created_at,
{
}

/// The switches that a payload gives are the switches that the user has. An
/// administrator may always delete and publish.
pub proof fn lemma_switches_are_kept(
    payload: UserPayloadModel,
    password_hash: Seq<char>,
    now: Timestamp,
)
    ensures
        ({
            let user = payload_user(payload, password_hash, now);
            &&& user.role == payload.role
            &&& user.username == text::trimmed(payload.username)
            &&& user.password_hash == password_hash
            &&& user.created_at == now
            &&& user.permissions.can_upload == payload.can_upload
            &&& payload.role != Role::Admin ==> user.permissions.can_delete == payload.can_delete
                && user.permissions.can_publish == payload.can_publish
            &&& payload.role == Role::Admin ==> user.permissions.can_delete
                && user.permissions.can_publish
        }),
{
}

/// A user who is made by name and role alone may upload. An administrator may
/// delete and publish too, and has the root directory.
pub proof fn lemma_default_user(
    username: Seq<char>,
    role: Role,
    password_hash: Seq<char>,
    now: Timestamp,
)
    ensures
        ({
            let user = default_user(username, role, password_hash, now);
            &&& user.username == username && user.role == role
            &&& user.password_hash == password_hash && user.created_at == now
            &&& user.permissions.can_upload
            &&& user.permissions.can_delete == (role == Role::Admin)
            &&& user.permissions.can_publish == (role == Role::Admin)
            &&& role == Role::Admin ==> user.permissions.roots == seq![seq!['/']]
            &&& role != Role::Admin ==> user.permissions.roots == seq![
                "/user/"@ + username,
                "/public"@,
            ]
        }),
{
}

proof fn lemma_given_roots_members(role: Role, roots: Seq<Seq<char>>, dir: Seq<char>)
    ensures
        given_roots(role, roots).contains(dir) <==> (role == Role::Admin || dir != seq!['/'])
            && exists|i: int| 0 <= i < roots.len() && path::normalized(#[trigger] roots[i]) == dir,
        given_roots(role, roots).len() == 0 <==> forall|i: int|
            0 <= i < roots.len() ==> role != Role::Admin && path::normalized(#[trigger] roots[i])
                == seq!['/'],
    decreases roots.len(),
{
    if roots.len() > 0 {
        let rest = roots.drop_last();
        let before = given_roots(role, rest);
        let all = given_roots(role, roots);
        let last = path::normalized(roots.last());
        lemma_given_roots_members(role, rest, dir);
        assert(roots[roots.len() - 1] == roots.last());
        assert(forall|i: int| 0 <= i < rest.len() ==> #[trigger] rest[i] == roots[i]);
        if before.contains(dir) {
            let k = choose|k: int| 0 <= k < before.len() && before[k] == dir;
            assert(all[k] == dir);
            let i = choose|i: int| 0 <= i < rest.len() && path::normalized(#[trigger] rest[i]) == dir;
            assert(path::normalized(roots[i]) == dir);
        }
        if all != before {
            assert(all[all.len() - 1] == last);
        }
        if all.contains(dir) && !before.contains(dir) {
            let k = choose|k: int| 0 <= k < all.len() && all[k] == dir;
            if k < before.len() {
                assert(before[k] == dir);
            }
        }
        if exists|i: int| 0 <= i < roots.len() && path::normalized(#[trigger] roots[i]) == dir {
            let i = choose|i: int|
                0 <= i < roots.len() && path::normalized(#[trigger] roots[i]) == dir;
            if i < rest.len() {
                assert(path::normalized(rest[i]) == dir);
            }
        }
        if all.len() == 0 {
            assert forall|i: int| 0 <= i < roots.len() implies role != Role::Admin
                && path::normalized(#[trigger] roots[i]) == seq!['/'] by {
                if i < rest.len() {
                    assert(rest[i] == roots[i]);
                }
            }
        } else if before.len() == 0 {
            assert(!(role != Role::Admin && path::normalized(roots[roots.len() - 1]) == seq!['/']));
        } else {
            let i = choose|i: int|
                0 <= i < rest.len() && !(role != Role::Admin && path::normalized(#[trigger] rest[i])
                    == seq!['/']);
            assert(rest[i] == roots[i]);
        }
    }
}

/// A user gets every directory that they are given, and the root directory only
/// as an administrator. Where none is left, an administrator gets the root
/// directory and anyone else their own. Everyone but an administrator gets the
/// public area with them, and there is nothing more.
pub proof fn lemma_directories_that_a_user_gets(
    username: Seq<char>,
    role: Role,
    roots: Seq<Seq<char>>,
    dir: Seq<char>,
)
    ensures
        role == Role::Admin ==> (effective_roots(username, role, roots).contains(dir) <==> (exists|
            i: int,
        |
            0 <= i < roots.len() && path::normalized(#[trigger] roots[i]) == dir) || (roots.len()
            == 0 && dir == seq!['/'])),
        role != Role::Admin ==> (effective_roots(username, role, roots).contains(dir) <==> dir
            == "/public"@ || (dir != seq!['/'] && exists|i: int|
            0 <= i < roots.len() && path::normalized(#[trigger] roots[i]) == dir) || (dir
            == "/user/"@ + username && forall|i: int|
            0 <= i < roots.len() ==> path::normalized(#[trigger] roots[i]) == seq!['/'])),
{
    let given = given_roots(role, roots);
    let all = effective_roots(username, role, roots);
    lemma_given_roots_members(role, roots, dir);
    if role == Role::Admin {
        if given.len() == 0 {
            assert(roots.len() == 0) by {
                if roots.len() > 0 {
                    assert(path::normalized(roots[0]) == path::normalized(roots[0]));
                }
            }
            assert(all[0] == seq!['/']);
        } else if roots.len() == 0 {
            assert(given_roots(role, roots).len() == 0);
        }
    } else {
        if given.len() == 0 {
            assert(all[0] == "/user/"@ + username && all[1] == "/public"@);
            if all.contains(dir) {
                let k = choose|k: int| 0 <= k < all.len() && all[k] == dir;
                assert(k == 0 || k == 1);
            }
        } else if !given.contains("/public"@) {
            assert(all[given.len() as int] == "/public"@);
            if given.contains(dir) {
                let k = choose|k: int| 0 <= k < given.len() && given[k] == dir;
                assert(all[k] == dir);
            }
            if all.contains(dir) && dir != "/public"@ {
                let k = choose|k: int| 0 <= k < all.len() && all[k] == dir;
                assert(given[k] == dir);
            }
        }
    }
}

/// A directory is or holds a path exactly where the names of the path start
/// with those of the directory.
pub proof fn lemma_covers_by_names(dir: Seq<Seq<char>>, path: Seq<Seq<char>>)
    requires
        path::all_names(dir),
        path::all_names(path),
    ensures
        covers(path::rooted(dir), path::rooted(path)) <==> dir.is_prefix_of(path),
{
    let (d, p) = (path::rooted(dir), path::rooted(path));
    path::lemma_names_in_rooted(dir);
    path::lemma_names_in_rooted(path);
    if dir.len() == 0 {
        assert(dir =~= path.subrange(0, 0));
    } else {
        path::lemma_cleaned(d);
        assert(path::is_normal(d));
        lemma_directory_covers(dir, p);
        if covers(d, p) {
            let rest = path::lemma_located_in_directory(Seq::empty(), d, p);
            assert(dir =~= path.subrange(0, dir.len() as int));
        }
        if dir.is_prefix_of(path) {
            path::lemma_rooted_prefix(dir, path.skip(dir.len() as int));
            assert(path =~= dir + path.skip(dir.len() as int));
        }
    }
}

/// An administrator sees everything. Anyone else sees a path exactly where its
/// names start with the names of one of their directories.
pub proof fn lemma_users_read_their_directories(user: UserModel, path: Seq<char>)
    requires
        path::is_normal(path),
    ensures
        user.role == Role::Admin ==> may_read(user, path),
        user.role != Role::Admin ==> (may_read(user, path) <==> exists|i: int|
            0 <= i < user.permissions.roots.len() && path::names_in(
                #[trigger] user.permissions.roots[i],
            ).is_prefix_of(path::names_in(path))),
{
    let roots = user.permissions.roots;
    path::lemma_cleaned(path);
    path::lemma_names_in(path);
    assert forall|i: int| 0 <= i < roots.len() implies (covers(
        path::cleaned(#[trigger] roots[i]),
        path,
    ) <==> path::names_in(roots[i]).is_prefix_of(path::names_in(path))) by {
        path::lemma_names_in(roots[i]);
        lemma_covers_by_names(path::names_in(roots[i]), path::names_in(path));
    }
}

/// The directories that are given come first, in their order.
pub proof fn lemma_directories_keep_their_order(
    username: Seq<char>,
    role: Role,
    roots: Seq<Seq<char>>,
)
    requires
        roots.len() > 0,
        role == Role::Admin || forall|i: int|
            0 <= i < roots.len() ==> path::normalized(#[trigger] roots[i]) != seq!['/'],
    ensures
        ({
            let given = Seq::new(roots.len(), |i: int| path::normalized(roots[i]));
            effective_roots(username, role, roots) == given || (role != Role::Admin
                && effective_roots(username, role, roots) == given.push("/public"@)
                && !given.contains("/public"@))
        }),
{
    lemma_given_roots_in_order(role, roots);
}

proof fn lemma_given_roots_in_order(role: Role, roots: Seq<Seq<char>>)
    requires
        role == Role::Admin || forall|i: int|
            0 <= i < roots.len() ==> path::normalized(#[trigger] roots[i]) != seq!['/'],
    ensures
        given_roots(role, roots) == Seq::new(roots.len(), |i: int| path::normalized(roots[i])),
    decreases roots.len(),
{
    if roots.len() > 0 {
        let rest = roots.drop_last();
        assert(roots[roots.len() - 1] == roots.last());
        assert forall|i: int| 0 <= i < rest.len() && role != Role::Admin implies path::normalized(
            #[trigger] rest[i],
        ) != seq!['/'] by {
            assert(rest[i] == roots[i]);
        }
        lemma_given_roots_in_order(role, rest);
    }
    assert(given_roots(role, roots) =~= Seq::new(
        roots.len(),
        |i: int| path::normalized(roots[i]),
    ));
}

/// The password of a new user is the one that is given, else `admin`.
pub proof fn lemma_payload_password(payload: UserPayloadModel)
    ensures
        payload_password(payload) == payload.password.unwrap_or("admin"@),
        DEFAULT_ADMIN@ == "admin"@ && DEFAULT_PASSWORD@ == "admin"@,
{
}

} // verus!
