//! What the server remembers: users, sessions, public files, grants and
//! download counts.

use crate::account;
use crate::account::{Role, User, UserModel};
use crate::clock::Timestamp;
use crate::headers;
use crate::headers::{HeadersModel, RequestHeaders};
use crate::path;
use crate::secrets;
use crate::table;
use crate::table::Table;
use crate::text;
use vstd::prelude::*;

verus! {

/// A client that has signed in.
#[derive(Debug)]
pub struct Session {
    pub username: String,
    pub created_at: Timestamp,
}

/// A client that has signed in.
#[verifier::ext_equal]
pub struct SessionModel {
    pub username: Seq<char>,
    pub created_at: Timestamp,
}

impl View for Session {
    type V = SessionModel;

    open spec fn view(&self) -> SessionModel {
        SessionModel { username: self.username@, created_at: self.created_at }
    }
}

/// A file that anyone may download.
#[derive(Debug)]
pub struct PublicFile {
    pub path: String,
    pub published_by: String,
    pub published_at: Timestamp,
}

/// A file that anyone may download.
#[verifier::ext_equal]
pub struct PublicFileModel {
    pub path: Seq<char>,
    pub published_by: Seq<char>,
    pub published_at: Timestamp,
}

impl View for PublicFile {
    type V = PublicFileModel;

    open spec fn view(&self) -> PublicFileModel {
        PublicFileModel {
            path: self.path@,
            published_by: self.published_by@,
            published_at: self.published_at,
        }
    }
}

/// The users who may download one file beyond their directories.
#[derive(Debug)]
pub struct FileGrant {
    pub path: String,
    pub users: Vec<String>,
    pub updated_by: String,
    pub updated_at: Timestamp,
}

/// The users who may download one file beyond their directories.
#[verifier::ext_equal]
pub struct FileGrantModel {
    pub path: Seq<char>,
    pub users: Seq<Seq<char>>,
    pub updated_by: Seq<char>,
    pub updated_at: Timestamp,
}

impl View for FileGrant {
    type V = FileGrantModel;

    open spec fn view(&self) -> FileGrantModel {
        FileGrantModel {
            path: self.path@,
            users: text::views(self.users@),
            updated_by: self.updated_by@,
            updated_at: self.updated_at,
        }
    }
}

/// What the server remembers. `public_copies` holds what an older form of
/// publishing left behind.
#[derive(Debug)]
pub struct Store {
    pub users: Table<User>,
    pub sessions: Table<Session>,
    pub public_files: Table<PublicFile>,
    pub public_copies: Table<String>,
    pub file_grants: Table<FileGrant>,
    pub download_counts: Table<u64>,
    pub fresh_setup: bool,
}

/// What the server remembers.
#[verifier::ext_equal]
pub struct StoreModel {
    pub users: Map<Seq<char>, UserModel>,
    pub sessions: Map<Seq<char>, SessionModel>,
    pub public_files: Map<Seq<char>, PublicFileModel>,
    pub public_copies: Map<Seq<char>, Seq<char>>,
    pub file_grants: Map<Seq<char>, FileGrantModel>,
    pub download_counts: Map<Seq<char>, u64>,
    pub fresh_setup: bool,
}

impl View for Store {
    type V = StoreModel;

    open spec fn view(&self) -> StoreModel {
        StoreModel {
            users: self.users@,
            sessions: self.sessions@,
            public_files: self.public_files@,
            public_copies: self.public_copies@,
            file_grants: self.file_grants@,
            download_counts: self.download_counts@,
            fresh_setup: self.fresh_setup,
        }
    }
}

/// The value of a key, where it has one.
pub open spec fn found<T>(map: Map<Seq<char>, T>, key: Seq<char>) -> Option<T> {
    if map.contains_key(key) {
        Some(map[key])
    } else {
        None
    }
}

/// What a new installation remembers: one administrator.
pub open spec fn fresh_store(admin: UserModel) -> StoreModel {
    StoreModel {
        users: map![account::DEFAULT_ADMIN@ => admin],
        sessions: Map::empty(),
        public_files: Map::empty(),
        public_copies: Map::empty(),
        file_grants: Map::empty(),
        download_counts: Map::empty(),
        fresh_setup: true,
    }
}

/// The user whose session a request carries.
pub open spec fn signed_in(store: StoreModel, headers: HeadersModel) -> Option<UserModel> {
    match headers::token_of(headers) {
        Some(token) => session_user(store, token),
        None => None,
    }
}

/// The user of a session.
pub open spec fn session_user(store: StoreModel, token: Seq<char>) -> Option<UserModel> {
    match found(store.sessions, token) {
        Some(session) => found(store.users, session.username),
        None => None,
    }
}

/// The user with a name and a password.
pub open spec fn user_with_password(
    store: StoreModel,
    credentials: Option<(Seq<char>, Seq<char>)>,
) -> Option<UserModel> {
    match credentials {
        Some((username, password)) => match found(store.users, username) {
            Some(user) if secrets::password_matches(password, user.password_hash) => Some(user),
            _ => None,
        },
        None => None,
    }
}

/// The user whose session, or else whose name and password, a request carries.
pub open spec fn identified(store: StoreModel, headers: HeadersModel) -> Option<UserModel> {
    match signed_in(store, headers) {
        Some(user) => Some(user),
        None => user_with_password(store, headers::credentials_of(headers)),
    }
}

/// Whether a user may download a path: by their role, by their directories or
/// because the file was granted to them.
pub open spec fn may_access(store: StoreModel, user: UserModel, path: Seq<char>) -> bool {
    account::may_read(user, path) || granted(store, path).contains(user.username)
}

/// The users that a file was granted to.
pub open spec fn granted(store: StoreModel, path: Seq<char>) -> Seq<Seq<char>> {
    match found(store.file_grants, path) {
        Some(grant) => grant.users,
        None => Seq::empty(),
    }
}

/// The number of downloads of a path.
pub open spec fn downloads(store: StoreModel, path: Seq<char>) -> u64 {
    match found(store.download_counts, path) {
        Some(n) => n,
        None => 0,
    }
}

/// Whether a file is public and its link, when it is followed, asks for a given
/// path in the public area.
pub open spec fn leads_to(
    files: Map<Seq<char>, PublicFileModel>,
    public_path: Seq<char>,
    source: Seq<char>,
) -> bool {
    files.contains_key(source) && path::followed(source) == public_path
}

/// Whether a file is the first, in the order of their characters, of the
/// public files whose links ask for a given path.
pub open spec fn first_to(
    files: Map<Seq<char>, PublicFileModel>,
    public_path: Seq<char>,
    source: Seq<char>,
) -> bool {
    &&& leads_to(files, public_path, source)
    &&& forall|other: Seq<char>| #[trigger]
        leads_to(files, public_path, other) && other != source ==> text::text_before(source, other)
}

/// The public file whose link asks for a given path.
pub open spec fn linked_source(
    files: Map<Seq<char>, PublicFileModel>,
    public_path: Seq<char>,
) -> Option<Seq<char>> {
    if exists|source: Seq<char>| first_to(files, public_path, source) {
        Some(choose|source: Seq<char>| first_to(files, public_path, source))
    } else {
        None
    }
}

/// The public file that a path leads to: the file at the path that stands
/// behind the public area in it, else the file at the path itself, else, for a
/// path in the public area, a file whose link asks for the path.
pub open spec fn resolved(store: StoreModel, public_path: Seq<char>) -> Option<Seq<char>> {
    let target = path::behind_public(public_path);
    if store.public_files.contains_key(target) {
        Some(target)
    } else if store.public_files.contains_key(public_path) {
        Some(public_path)
    } else if path::in_public_area(public_path) {
        linked_source(store.public_files, public_path)
    } else {
        None
    }
}

/// What is remembered after one more download of a path.
pub open spec fn counted(store: StoreModel, path: Seq<char>) -> StoreModel {
    StoreModel {
        download_counts: store.download_counts.insert(
            path,
            (downloads(store, path) + 1) as u64,
        ),
        ..store
    }
}

/// What is remembered after a download through a public link: it counts for
/// the link and for the file.
pub open spec fn counted_public(
    store: StoreModel,
    source: Seq<char>,
    public_path: Seq<char>,
) -> StoreModel {
    let linked = counted(store, public_path);
    if source != public_path {
        counted(linked, source)
    } else {
        linked
    }
}

impl Store {
    /// What a new installation remembers, with a given administrator.
    pub fn with_admin(admin: User) -> (r: Self)
        ensures
            r@ == fresh_store(admin@),
    {
        let mut users: Table<User> = Table::new();
        users.insert(account::DEFAULT_ADMIN.to_owned(), admin);
        let r = Store {
            users,
            sessions: Table::new(),
            public_files: Table::new(),
            public_copies: Table::new(),
            file_grants: Table::new(),
            download_counts: Table::new(),
            fresh_setup: true,
        };
        r
    }

    /// What a new installation remembers: the default administrator with the
    /// default password.
    pub fn fresh() -> (r: Self)
        ensures
            exists|admin: UserModel|
                r@ == #[trigger] fresh_store(admin) && admin == account::default_user(
                    account::DEFAULT_ADMIN@,
                    Role::Admin,
                    admin.password_hash,
                    admin.created_at,
                ) && secrets::is_hash_of(account::DEFAULT_PASSWORD@, admin.password_hash),
    {
        let admin: User = User::new(
            account::DEFAULT_ADMIN,
            account::DEFAULT_PASSWORD,
            Role::Admin,
        );
        Self::with_admin(admin)
    }
}

/// The user of a session.
fn user_of_session(store: &Store, token: &str) -> (r: Option<User>)
    ensures
        text::opt_view(r) == session_user(store@, token@),
{
    match store.sessions.get(token) {
        Some(session) => match store.users.get(&session.username) {
            Some(user) => Some(user.clone()),
            None => None,
        },
        None => None,
    }
}

/// The user whose session a request carries.
pub fn current_user(store: &Store, headers: &RequestHeaders) -> (r: Option<User>)
    ensures
        text::opt_view(r) == signed_in(store@, headers@),
{
    match headers::session_token(headers) {
        Some(token) => user_of_session(store, &token),
        None => None,
    }
}

/// The user with a name and a password.
pub fn user_by_password(store: &Store, credentials: Option<(String, String)>) -> (r: Option<User>)
    ensures
        text::opt_view(r) == user_with_password(store@, text::opt_view(credentials)),
{
    match credentials {
        Some((username, password)) => match store.users.get(&username) {
            Some(user) => {
                if secrets::verify_password(&password, &user.password_hash) {
                    Some(user.clone())
                } else {
                    None
                }
            },
            None => None,
        },
        None => None,
    }
}

/// The user whose session, or else whose name and password, a request carries.
pub fn current_user_or_basic(store: &Store, headers: &RequestHeaders) -> (r: Option<User>)
    ensures
        text::opt_view(r) == identified(store@, headers@),
{
    match current_user(store, headers) {
        Some(user) => Some(user),
        None => user_by_password(store, headers::basic_credentials(headers)),
    }
}

/// The users that a file was granted to.
pub fn granted_users(store: &Store, path: &str) -> (r: Vec<String>)
    ensures
        text::views(r@) == granted(store@, path@),
{
    match store.file_grants.get(path) {
        Some(grant) => text::copy_all(&grant.users),
        None => {
            let r: Vec<String> = Vec::new();
            assert(text::views(r@) =~= Seq::empty());
            r
        },
    }
}

/// Whether a user may download a path.
pub fn can_access_path(store: &Store, user: &User, path: &str) -> (r: bool)
    ensures
        r == may_access(store@, user@, path@),
{
    account::can_read(user, path) || text::contains(&granted_users(store, path), &user.username)
}

/// The number of downloads of a path.
pub fn download_count(store: &Store, path: &str) -> (r: u64)
    ensures
        r == downloads(store@, path@),
{
    match store.download_counts.get(path) {
        Some(n) => *n,
        None => 0,
    }
}

/// The path under which a file is public, where it is.
pub fn public_path_for_source(store: &Store, source_path: &str) -> (r: Option<String>)
    ensures
        text::opt_view(r) == (if store@.public_files.contains_key(source_path@) {
            Some(source_path@)
        } else {
            None
        }),
{
    if store.public_files.contains_key(source_path) {
        Some(source_path.to_owned())
    } else {
        None
    }
}

/// There is only one first public file whose link asks for a given path.
pub proof fn lemma_first_to_unique(
    files: Map<Seq<char>, PublicFileModel>,
    public_path: Seq<char>,
    source: Seq<char>,
)
    requires
        first_to(files, public_path, source),
    ensures
        linked_source(files, public_path) == Some(source),
{
    let other = choose|other: Seq<char>| first_to(files, public_path, other);
    assert(first_to(files, public_path, other));
    if other != source {
        assert(leads_to(files, public_path, other) && leads_to(files, public_path, source));
        text::lemma_text_order_total(source, other);
    }
}

/// The public file whose link asks for a given path.
fn find_linked_source(files: &Table<PublicFile>, public_path: &str) -> (r: Option<String>)
    ensures
        text::opt_view(r) == linked_source(files@, public_path@),
{
    let mut best: Option<String> = None;
    let n: usize = files.len();
    let mut i: usize = 0;
    let ghost rows = files.rows();
    while i < n
        invariant
            i <= n,
            n == rows.len(),
            rows == files.rows(),
            files@ == table::rows_map(rows),
            table::distinct_keys(rows),
            match best {
                Some(b) => leads_to(files@, public_path@, b@) && forall|j: int|
                    0 <= j < i && path::followed((#[trigger] rows[j]).0) == public_path@ && rows[j].0
                        != b@ ==> text::text_before(b@, rows[j].0),
                None => forall|j: int|
                    0 <= j < i ==> path::followed((#[trigger] rows[j]).0) != public_path@,
            },
        decreases n - i,
    {
        let source: &String = files.key_at(i);
        let ghost before: Option<Seq<char>> = text::opt_view(best);
        if text::same(&path::follow_public_link(source), public_path) {
            proof {
                table::lemma_rows_map_at(rows, i as int);
            }
            let better: bool = match &best {
                Some(b) => text::is_before(&text::chars_of(source), &text::chars_of(b)),
                None => true,
            };
            if better {
                best = Some(source.clone());
                proof {
                    if let Some(b) = before {
                        assert forall|j: int|
                            0 <= j < i + 1 && path::followed((#[trigger] rows[j]).0) == public_path@
                                && rows[j].0 != source@ implies text::text_before(
                            source@,
                            rows[j].0,
                        ) by {
                            if rows[j].0 != b {
                                text::lemma_text_order_transitive(source@, b, rows[j].0);
                            }
                        }
                    }
                }
            } else {
                proof {
                    if let Some(b) = before {
                        text::lemma_text_order_total(source@, b);
                    }
                }
            }
        }
        i += 1;
    }
    let ghost chosen: Option<Seq<char>> = text::opt_view(best);
    proof {
        match chosen {
            Some(b) => {
                assert forall|other: Seq<char>| #[trigger]
                    leads_to(files@, public_path@, other) && other != b implies text::text_before(
                    b,
                    other,
                ) by {
                    table::lemma_rows_map_keys(rows, other);
                    let j = choose|j: int| 0 <= j < rows.len() && (#[trigger] rows[j]).0 == other;
                    assert(rows[j].0 == other);
                }
                lemma_first_to_unique(files@, public_path@, b);
            },
            None => {
                assert forall|other: Seq<char>| !first_to(files@, public_path@, other) by {
                    if leads_to(files@, public_path@, other) {
                        table::lemma_rows_map_keys(rows, other);
                        let j = choose|j: int|
                            0 <= j < rows.len() && (#[trigger] rows[j]).0 == other;
                        assert(path::followed(rows[j].0) != public_path@);
                    }
                }
            },
        }
    }
    best
}

/// The public file that a path leads to.
pub fn public_source_path(store: &Store, public_path: &str) -> (r: Option<String>)
    ensures
        text::opt_view(r) == resolved(store@, public_path@),
{
    let target: String = path::path_behind_public(public_path);
    if store.public_files.contains_key(&target) {
        Some(target)
    } else if store.public_files.contains_key(public_path) {
        Some(public_path.to_owned())
    } else if path::is_public_path(public_path) {
        find_linked_source(&store.public_files, public_path)
    } else {
        None
    }
}

/// Counts one more download of a path.
pub fn increment_download_count(store: &mut Store, path: &str)
    requires
        downloads(old(store)@, path@) < u64::MAX,
    ensures
        final(store)@ == counted(old(store)@, path@),
{
    let n: u64 = download_count(store, path);
    store.download_counts.insert(path.to_owned(), n + 1);
}

/// Counts a download through a public link.
pub fn count_public_download(store: &mut Store, source_path: &str, public_path: &str)
    requires
        downloads(old(store)@, source_path@) < u64::MAX,
        downloads(old(store)@, public_path@) < u64::MAX,
    ensures
        final(store)@ == counted_public(old(store)@, source_path@, public_path@),
{
    increment_download_count(store, public_path);
    if !text::same(source_path, public_path) {
        increment_download_count(store, source_path);
    }
}

/// A finite set of texts has a first one.
proof fn lemma_first_text(texts: Set<Seq<char>>) -> (first: Seq<char>)
    requires
        texts.finite(),
        texts.len() > 0,
    ensures
        texts.contains(first),
        forall|other: Seq<char>| #[trigger]
            texts.contains(other) && other != first ==> text::text_before(first, other),
    decreases texts.len(),
{
    let some = texts.choose();
    let rest = texts.remove(some);
    if rest.len() == 0 {
        assert forall|other: Seq<char>| #[trigger] texts.contains(other) implies other == some by {
            if other != some {
                assert(rest.contains(other));
            }
        }
        some
    } else {
        let next = lemma_first_text(rest);
        text::lemma_text_order_total(some, next);
        let first = if text::text_before(some, next) {
            some
        } else {
            next
        };
        assert forall|other: Seq<char>| #[trigger]
            texts.contains(other) && other != first implies text::text_before(first, other) by {
            if other != some {
                assert(rest.contains(other));
                if first == some && other != next {
                    text::lemma_text_order_transitive(some, next, other);
                }
            }
        }
        first
    }
}

/// The link of every public file leads to a public file.
pub proof fn lemma_every_link_leads_somewhere(store: StoreModel, source: Seq<char>)
    requires
        store.public_files.dom().finite(),
        store.public_files.contains_key(source),
    ensures
        resolved(store, path::followed(source)) is Some,
{
    let files = store.public_files;
    let public_path = path::followed(source);
    let all = files.dom().filter(|other: Seq<char>| path::followed(other) == public_path);
    files.dom().lemma_len_filter(|other: Seq<char>| path::followed(other) == public_path);
    assert(all.contains(source));
    let first = lemma_first_text(all);
    assert forall|other: Seq<char>| #[trigger]
        leads_to(files, public_path, other) && other != first implies text::text_before(
        first,
        other,
    ) by {
        assert(all.contains(other));
    }
    assert(first_to(files, public_path, first));
    let request = path::public_url(source).skip(8);
    path::lemma_public_request(request, request);
}

/// A request is signed in exactly where it carries the token of a session whose
/// user there is.
pub proof fn lemma_signed_in(store: StoreModel, headers: HeadersModel, user: UserModel)
    ensures
        signed_in(store, headers) == Some(user) <==> (headers::token_of(headers) matches Some(token)
            && store.sessions.contains_key(token) && store.users.contains_key(
            store.sessions[token].username,
        ) && store.users[store.sessions[token].username] == user),
{
}

/// A request is a user's where it is signed in as the user, or else carries the
/// name of the user and a password that matches.
pub proof fn lemma_identified(store: StoreModel, headers: HeadersModel, user: UserModel)
    ensures
        signed_in(store, headers) is Some ==> identified(store, headers) == signed_in(
            store,
            headers,
        ),
        signed_in(store, headers) is None ==> (identified(store, headers) == Some(user) <==> (
        headers::credentials_of(headers) matches Some((username, password))
            && store.users.contains_key(username) && store.users[username] == user
            && secrets::password_matches(password, user.password_hash))),
{
}

/// A user may download a path that they may see, or that was granted to them by
/// name, and nothing else.
pub proof fn lemma_access(store: StoreModel, user: UserModel, path: Seq<char>)
    ensures
        may_access(store, user, path) <==> account::may_read(user, path) || (
        store.file_grants.contains_key(path) && store.file_grants[path].users.contains(
            user.username,
        )),
        store.file_grants.contains_key(path) ==> granted(store, path)
            == store.file_grants[path].users,
        !store.file_grants.contains_key(path) ==> granted(store, path).len() == 0,
{
}

/// What was never downloaded counts zero. A download adds one for its path and
/// changes nothing else.
pub proof fn lemma_counting(store: StoreModel, path: Seq<char>, other: Seq<char>)
    requires
        downloads(store, path) < u64::MAX,
    ensures
        store.download_counts.contains_key(path) ==> downloads(store, path)
            == store.download_counts[path],
        !store.download_counts.contains_key(path) ==> downloads(store, path) == 0,
        downloads(counted(store, path), path) == downloads(store, path) + 1,
        other != path ==> downloads(counted(store, path), other) == downloads(store, other),
        counted(store, path).users == store.users,
        counted(store, path).sessions == store.sessions,
        counted(store, path).public_files == store.public_files,
        counted(store, path).public_copies == store.public_copies,
        counted(store, path).file_grants == store.file_grants,
        counted(store, path).fresh_setup == store.fresh_setup,
{
}

/// A public file is found behind the public area under its whole path. Outside
/// the public area a path leads to itself alone, and only where it is public.
pub proof fn lemma_public_file_is_found(store: StoreModel, path: Seq<char>)
    requires
        path::is_normal(path),
    ensures
        store.public_files.contains_key(path) ==> resolved(store, "/public"@ + path) == Some(path),
        !path::in_public_area(path) ==> resolved(store, path) == (if store.public_files.contains_key(
            path,
        ) {
            Some(path)
        } else {
            None
        }),
        path::in_public_area(path) && store.public_files.contains_key(path) && resolved(store, path)
            != Some(path) ==> resolved(store, path) == Some(path::behind_public(path))
            && store.public_files.contains_key(path::behind_public(path)),
{
    path::lemma_behind_public(path);
    path::lemma_cleaned(path);
}

/// A new installation has one user, and remembers nothing else.
pub proof fn lemma_fresh_store(admin: UserModel, key: Seq<char>)
    ensures
        fresh_store(admin).users.contains_key(key) <==> key == "admin"@,
        fresh_store(admin).users["admin"@] == admin,
        !fresh_store(admin).sessions.contains_key(key),
        !fresh_store(admin).public_files.contains_key(key),
        !fresh_store(admin).public_copies.contains_key(key),
        !fresh_store(admin).file_grants.contains_key(key),
        downloads(fresh_store(admin), key) == 0,
        fresh_store(admin).fresh_setup,
{
}

/// A path leads to no other public file than the one behind the public area in
/// it, the one at the path itself, and one whose link asks for the path.
pub proof fn lemma_no_link_leads_astray(store: StoreModel, public_path: Seq<char>)
    ensures
        resolved(store, public_path) matches Some(source) ==> store.public_files.contains_key(
            source,
        ) && (source == path::behind_public(public_path) || source == public_path
            || path::followed(source) == public_path),
{
}

} // verus!
