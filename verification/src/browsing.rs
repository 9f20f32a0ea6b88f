//! Listing directories and downloading files.

use crate::account;
use crate::account::{User, UserModel};
use crate::audit;
use crate::audit::AuditNote;
use crate::clock::Timestamp;
use crate::headers::{HeadersModel, RequestHeaders};
use crate::order;
use crate::order::{Key, KeyModel};
use crate::path;
use crate::percent;
use crate::permit;
use crate::permit::{Permit, PermitModel};
use crate::reply;
use crate::reply::{Refusal, RefusalModel};
use crate::store;
use crate::store::{Store, StoreModel};
use crate::table::Table;
use crate::text;
use vstd::prelude::*;

verus! {

/// What an entry of a directory is.
#[derive(Debug, Clone, Copy, PartialEq, Eq, Structural)]
pub enum FileKind {
    File,
    Directory,
}

/// What the disk says of an entry of a directory.
#[derive(Debug, Clone, Copy, PartialEq, Eq, Structural)]
pub struct Metadata {
    pub is_dir: bool,
    pub size: u64,
    pub modified: Option<Timestamp>,
}

/// An entry that was found in a directory. The disk may say nothing of it.
#[derive(Debug)]
pub struct FoundEntry {
    pub name: String,
    pub metadata: Option<Metadata>,
}

/// An entry that was found in a directory.
#[verifier::ext_equal]
pub struct FoundEntryModel {
    pub name: Seq<char>,
    pub metadata: Option<Metadata>,
}

impl View for FoundEntry {
    type V = FoundEntryModel;

    open spec fn view(&self) -> FoundEntryModel {
        FoundEntryModel { name: self.name@, metadata: self.metadata }
    }
}

/// What a user is shown of an entry of a directory.
#[derive(Debug)]
pub struct FileEntry {
    pub name: String,
    pub path: String,
    pub kind: FileKind,
    pub size: u64,
    pub modified: Option<Timestamp>,
    pub download_url: String,
    pub download_count: u64,
    pub public: bool,
    pub public_url: Option<String>,
    pub granted_users: Vec<String>,
}

/// What a user is shown of an entry of a directory.
#[verifier::ext_equal]
pub struct FileEntryModel {
    pub name: Seq<char>,
    pub path: Seq<char>,
    pub kind: FileKind,
    pub size: u64,
    pub modified: Option<Timestamp>,
    pub download_url: Seq<char>,
    pub download_count: u64,
    pub public: bool,
    pub public_url: Option<Seq<char>>,
    pub granted_users: Seq<Seq<char>>,
}

impl View for FileEntry {
    type V = FileEntryModel;

    open spec fn view(&self) -> FileEntryModel {
        FileEntryModel {
            name: self.name@,
            path: self.path@,
            kind: self.kind,
            size: self.size,
            modified: self.modified,
            download_url: self.download_url@,
            download_count: self.download_count,
            public: self.public,
            public_url: text::opt_view(self.public_url),
            granted_users: text::views(self.granted_users@),
        }
    }
}

impl Clone for FileEntry {
    fn clone(&self) -> (r: Self)
        ensures
            r@ == self@,
    {
        FileEntry {
            name: self.name.clone(),
            path: self.path.clone(),
            kind: self.kind,
            size: self.size,
            modified: self.modified,
            download_url: self.download_url.clone(),
            download_count: self.download_count,
            public: self.public,
            public_url: text::copy_option(&self.public_url),
            granted_users: text::copy_all(&self.granted_users),
        }
    }
}

/// What a user is shown of a directory.
#[derive(Debug)]
pub struct FileList {
    pub path: String,
    pub entries: Vec<FileEntry>,
}

/// What a user is shown of a directory.
#[verifier::ext_equal]
pub struct FileListModel {
    pub path: Seq<char>,
    pub entries: Seq<FileEntryModel>,
}

impl View for FileList {
    type V = FileListModel;

    open spec fn view(&self) -> FileListModel {
        FileListModel { path: self.path@, entries: text::views(self.entries@) }
    }
}

/// Leave for anyone to download a public file.
#[derive(Debug)]
pub struct PublicPermit {
    pub path: String,
    pub source_path: String,
    pub full_path: String,
}

/// Leave for anyone to download a public file.
#[verifier::ext_equal]
pub struct PublicPermitModel {
    pub path: Seq<char>,
    pub source_path: Seq<char>,
    pub full_path: Seq<char>,
}

impl View for PublicPermit {
    type V = PublicPermitModel;

    open spec fn view(&self) -> PublicPermitModel {
        PublicPermitModel {
            path: self.path@,
            source_path: self.source_path@,
            full_path: self.full_path@,
        }
    }
}

/// How a download is answered: a directory by a page, a file by its contents
/// under two headers.
#[derive(Debug)]
pub enum Serving {
    Redirect { location: String },
    Send { content_type: String, disposition: String },
}

/// How a download is answered.
#[verifier::ext_equal]
pub enum ServingModel {
    Redirect { location: Seq<char> },
    Send { content_type: Seq<char>, disposition: Seq<char> },
}

impl View for Serving {
    type V = ServingModel;

    open spec fn view(&self) -> ServingModel {
        match self {
            Serving::Redirect { location } => ServingModel::Redirect { location: location@ },
            Serving::Send { content_type, disposition } => ServingModel::Send {
                content_type: content_type@,
                disposition: disposition@,
            },
        }
    }
}

/// The path that a query asks for.
pub open spec fn query_path(query: Map<Seq<char>, Seq<char>>) -> Seq<char> {
    match store::found(query, "path"@) {
        Some(path) => path,
        None => "/"@,
    }
}

/// Whether a query asks for a file to be saved and not shown.
pub open spec fn saving(query: Map<Seq<char>, Seq<char>>) -> bool {
    match store::found(query, "download"@) {
        Some(value) => value == "1"@ || value == "true"@,
        None => false,
    }
}

/// Leave to list a directory, else a refusal.
pub open spec fn listing_check(
    store: StoreModel,
    headers: HeadersModel,
    root: Seq<char>,
    request: Seq<char>,
) -> Result<PermitModel, RefusalModel> {
    let dir = path::normalized(request);
    match store::identified(store, headers) {
        None => Err(reply::not_signed_in()),
        Some(user) => if !account::may_read(user, dir) {
            Err(reply::refused(403, "没有访问此目录的权限"@))
        } else {
            Ok(permit::permitted(user, dir, root))
        },
    }
}

/// What a user is shown of an entry with a path.
pub open spec fn entry_shown(
    store: StoreModel,
    name: Seq<char>,
    path: Seq<char>,
    metadata: Metadata,
) -> FileEntryModel {
    FileEntryModel {
        name,
        path,
        kind: if metadata.is_dir {
            FileKind::Directory
        } else {
            FileKind::File
        },
        size: metadata.size,
        modified: metadata.modified,
        download_url: "/api/files"@ + path::encoded_path(path),
        download_count: store::downloads(store, path),
        public: store.public_files.contains_key(path),
        public_url: if store.public_files.contains_key(path) {
            Some(path::public_url(path))
        } else {
            None
        },
        granted_users: store::granted(store, path),
    }
}

/// Whether a user is shown an entry of a directory: they may download it, and
/// the disk says what it is.
pub open spec fn is_shown(
    store: StoreModel,
    user: UserModel,
    dir: Seq<char>,
    entry: FoundEntryModel,
) -> bool {
    store::may_access(store, user, path::child(dir, entry.name)) && entry.metadata is Some
}

/// The entries that a user is shown, in the order in which they were found.
pub open spec fn entries_shown(
    store: StoreModel,
    user: UserModel,
    dir: Seq<char>,
    entries: Seq<FoundEntryModel>,
) -> Seq<FileEntryModel>
    decreases entries.len(),
{
    if entries.len() == 0 {
        Seq::empty()
    } else {
        let before = entries_shown(store, user, dir, entries.drop_last());
        let last = entries.last();
        if is_shown(store, user, dir, last) {
            before.push(
                entry_shown(store, last.name, path::child(dir, last.name), last.metadata->0),
            )
        } else {
            before
        }
    }
}

/// What the entries of a directory are listed by: directories first, then the
/// lower case of the name.
pub open spec fn entry_keys(entries: Seq<FileEntryModel>) -> Seq<KeyModel> {
    Seq::new(
        entries.len(),
        |i: int|
            (
                if entries[i].kind == FileKind::Directory {
                    0u8
                } else {
                    1u8
                },
                order::lower_case(entries[i].name),
            ),
    )
}

/// What a user is shown of a directory.
pub open spec fn directory_shown(
    store: StoreModel,
    user: UserModel,
    dir: Seq<char>,
    entries: Seq<FoundEntryModel>,
) -> FileListModel {
    let shown = entries_shown(store, user, dir, entries);
    FileListModel { path: dir, entries: order::picked(shown, order::listing(entry_keys(shown))) }
}

/// Leave to download a path, else a refusal that asks for a name and a
/// password.
pub open spec fn download_check(
    store: StoreModel,
    headers: HeadersModel,
    root: Seq<char>,
    request: Seq<char>,
) -> Result<PermitModel, RefusalModel> {
    let target = path::normalized(request);
    match store::identified(store, headers) {
        None => Err(
            reply::challenged(audit::noted(None, "download"@, Some(target), 401, "未认证"@)),
        ),
        Some(user) => if !store::may_access(store, user, target) {
            Err(
                reply::challenged(
                    audit::noted(
                        Some(user.username),
                        "download"@,
                        Some(target),
                        403,
                        "下载权限不足"@,
                    ),
                ),
            )
        } else {
            Ok(permit::permitted(user, target, root))
        },
    }
}

/// Leave to download a public file, else a refusal.
pub open spec fn public_check(store: StoreModel, root: Seq<char>, request: Seq<char>) -> Result<
    PublicPermitModel,
    RefusalModel,
> {
    let target = path::public_request(request);
    match store::resolved(store, target) {
        None => Err(
            reply::refused_with(
                404,
                "公开文件不存在"@,
                audit::noted(None, "public_download"@, Some(target), 404, "公开文件不存在"@),
            ),
        ),
        Some(source) => Ok(
            PublicPermitModel {
                path: target,
                source_path: source,
                full_path: path::located(root, source),
            },
        ),
    }
}

/// The extension of the last name of a path, where it has one.
pub open spec fn extension_of(path: Seq<char>) -> Option<Seq<char>> {
    match path::last_name(path) {
        Some(name) => path::stem_and_extension(name).1,
        None => None,
    }
}

/// The media type of the files with an extension.
pub uninterp spec fn media_type_of(extension: Seq<char>) -> Seq<char>;

/// The media type of a file.
pub open spec fn media_type(path: Seq<char>) -> Seq<char> {
    match extension_of(path) {
        Some(extension) => media_type_of(extension),
        None => "application/octet-stream"@,
    }
}

/// The header that names a file that is sent, to be saved or to be shown.
pub open spec fn disposition_of(path: Seq<char>, save: bool) -> Seq<char> {
    let name = match path::last_name(path) {
        Some(name) => name,
        None => "download"@,
    };
    (if save {
        "attachment"@
    } else {
        "inline"@
    }) + "; filename=\""@ + text::without_char(name, '"') + "\""@
}

/// How a download is answered, given whether the disk holds a directory, a
/// file or nothing.
pub open spec fn serving_of(
    path: Seq<char>,
    full_path: Seq<char>,
    is_dir: Option<bool>,
    save: bool,
) -> Result<ServingModel, RefusalModel> {
    match is_dir {
        None => Err(reply::refused(404, "文件不存在"@)),
        Some(true) => Ok(
            ServingModel::Redirect { location: "/?path="@ + percent::url_encoded(path) },
        ),
        Some(false) => Ok(
            ServingModel::Send {
                content_type: media_type(full_path),
                disposition: disposition_of(path, save),
            },
        ),
    }
}

/// Whether a status says that a file was sent.
pub open spec fn is_success(status: u16) -> bool {
    200 <= status < 300
}

/// What is remembered after a download by a user was answered.
pub open spec fn after_download(store: StoreModel, path: Seq<char>, status: u16) -> StoreModel {
    if is_success(status) {
        store::counted(store, path)
    } else {
        store
    }
}

/// What is remembered after a download through a public link was answered.
pub open spec fn after_public_download(
    store: StoreModel,
    source: Seq<char>,
    public_path: Seq<char>,
    status: u16,
) -> StoreModel {
    if is_success(status) {
        store::counted_public(store, source, public_path)
    } else {
        store
    }
}

/// The path that a query asks for.
pub fn requested_path(query: &Table<String>) -> (r: String)
    ensures
        r@ == query_path(query@),
{
    match query.get("path") {
        Some(path) => path.clone(),
        None => "/".to_owned(),
    }
}

/// Whether a query asks for a file to be saved and not shown.
pub fn wants_download(query: &Table<String>) -> (r: bool)
    ensures
        r == saving(query@),
{
    match query.get("download") {
        Some(value) => text::same(value, "1") || text::same(value, "true"),
        None => false,
    }
}

/// Leave to list a directory, else a refusal.
pub fn check_listing(store: &Store, headers: &RequestHeaders, root: &str, request: &str) -> (r:
    Result<Permit, Refusal>)
    ensures
        text::result_view(r) == listing_check(store@, headers@, root@, request@),
{
    match store::current_user_or_basic(store, headers) {
        None => Err(reply::sign_in_first()),
        Some(user) => {
            let dir: String = path::normalize_path(request);
            if !account::can_read(&user, &dir) {
                return Err(reply::error(403, "没有访问此目录的权限"));
            }
            Ok(permit::permit(user, dir, root))
        },
    }
}

/// What a user is shown of an entry with a path.
fn show_entry(store: &Store, name: &str, path: String, metadata: Metadata) -> (r: FileEntry)
    ensures
        r@ == entry_shown(store@, name@, path@, metadata),
{
    let public_path: Option<String> = store::public_path_for_source(store, &path);
    let public: bool = public_path.is_some();
    let public_url: Option<String> = match public_path {
        Some(public_path) => Some(path::public_url_for_source_path(&public_path)),
        None => None,
    };
    FileEntry {
        name: name.to_owned(),
        kind: if metadata.is_dir {
            FileKind::Directory
        } else {
            FileKind::File
        },
        size: metadata.size,
        modified: metadata.modified,
        download_url: text::concat("/api/files", &path::encode_path(&path)),
        download_count: store::download_count(store, &path),
        public,
        public_url,
        granted_users: store::granted_users(store, &path),
        path,
    }
}

/// The entries that a user is shown, in the order in which they were found.
fn show_entries(store: &Store, user: &User, dir: &str, entries: &Vec<FoundEntry>) -> (r: Vec<
    FileEntry,
>)
    ensures
        text::views(r@) == entries_shown(store@, user@, dir@, text::views(entries@)),
{
    let ghost all = text::views(entries@);
    let mut r: Vec<FileEntry> = Vec::new();
    let mut i: usize = 0;
    assert(all.take(0) =~= Seq::empty());
    assert(text::views(r@) =~= Seq::empty());
    while i < entries.len()
        invariant
            i <= entries@.len(),
            all == text::views(entries@),
            text::views(r@) == entries_shown(store@, user@, dir@, all.take(i as int)),
        decreases entries@.len() - i,
    {
        assert(all.take(i + 1).drop_last() =~= all.take(i as int));
        assert(all.take(i + 1).last() == entries@[i as int]@);
        let entry_path: String = path::join_virtual(dir, &entries[i].name);
        if store::can_access_path(store, user, &entry_path) {
            if let Some(metadata) = entries[i].metadata {
                let ghost before = text::views(r@);
                let entry: FileEntry = show_entry(store, &entries[i].name, entry_path, metadata);
                r.push(entry);
                assert(text::views(r@) =~= before.push(entry@));
            }
        }
        i += 1;
    }
    assert(all.take(i as int) =~= all);
    r
}

/// What a user is shown of a directory, given the entries that were found in
/// it: those that the user may download, directories first, then by name.
pub fn list_directory(store: &Store, user: &User, dir: &str, entries: &Vec<FoundEntry>) -> (r:
    FileList)
    ensures
        r@ == directory_shown(store@, user@, dir@, text::views(entries@)),
{
    let shown: Vec<FileEntry> = show_entries(store, user, dir, entries);
    let ghost models = text::views(shown@);
    let mut keys: Vec<Key> = Vec::new();
    let mut i: usize = 0;
    while i < shown.len()
        invariant
            i <= shown@.len(),
            keys@.len() == i,
            models == text::views(shown@),
            forall|j: int| 0 <= j < i ==> (#[trigger] keys@[j])@ == entry_keys(models)[j],
        decreases shown@.len() - i,
    {
        let rank: u8 = if shown[i].kind == FileKind::Directory {
            0
        } else {
            1
        };
        keys.push((rank, text::chars_of(&order::to_lower_case(&shown[i].name))));
        i += 1;
    }
    assert(text::views(keys@) =~= entry_keys(models));
    let order: Vec<usize> = order::listing_order(&keys);
    let mut listed: Vec<FileEntry> = Vec::new();
    let mut a: usize = 0;
    while a < order.len()
        invariant
            a <= order@.len(),
            listed@.len() == a,
            keys@.len() == shown@.len(),
            order::is_listing(text::views(keys@), order@),
            forall|b: int| 0 <= b < a ==> (#[trigger] listed@[b])@ == shown@[order@[b] as int]@,
        decreases order@.len() - a,
    {
        assert(order@[a as int] < keys@.len());
        listed.push(shown[order[a]].clone());
        a += 1;
    }
    assert(text::views(listed@) =~= order::picked(models, order@));
    FileList { path: dir.to_owned(), entries: listed }
}

/// The refusal to list a directory that the disk does not hold.
pub fn no_directory() -> (r: Refusal)
    ensures
        r@ == reply::refused(404, "目录不存在"@),
{
    reply::error(404, "目录不存在")
}

/// Leave to download a path, else a refusal that asks for a name and a
/// password.
pub fn check_download(store: &Store, headers: &RequestHeaders, root: &str, request: &str) -> (r:
    Result<Permit, Refusal>)
    ensures
        text::result_view(r) == download_check(store@, headers@, root@, request@),
{
    let target: String = path::normalize_path(request);
    match store::current_user_or_basic(store, headers) {
        None => Err(
            reply::basic_auth_required(
                audit::note(None, "download", Some(target), 401, "未认证"),
            ),
        ),
        Some(user) => {
            if !store::can_access_path(store, &user, &target) {
                return Err(
                    reply::basic_auth_required(
                        audit::note(
                            Some(user.username),
                            "download",
                            Some(target),
                            403,
                            "下载权限不足",
                        ),
                    ),
                );
            }
            Ok(permit::permit(user, target, root))
        },
    }
}

/// Leave to download a public file, else a refusal.
pub fn check_public_download(store: &Store, root: &str, request: &str) -> (r: Result<
    PublicPermit,
    Refusal,
>)
    ensures
        text::result_view(r) == public_check(store@, root@, request@),
{
    let target: String = path::normalize_public_request_path(request);
    match store::public_source_path(store, &target) {
        None => Err(
            reply::error_with(
                404,
                "公开文件不存在",
                audit::note(None, "public_download", Some(target), 404, "公开文件不存在"),
            ),
        ),
        Some(source_path) => {
            let full_path: String = permit::locate(root, &source_path);
            Ok(PublicPermit { path: target, source_path, full_path })
        },
    }
}

/// `mime_guess::from_path` and `MimeGuess::first_or_octet_stream`: the media
/// type is looked up by the extension of the path alone, without reading the
/// disk, and is `application/octet-stream` where there is no extension or an
/// empty one. What the other extensions stand for is not stated.
#[verifier::external_body]
fn guess_media_type(path: &str) -> (r: String)
    ensures
        match extension_of(path@) {
            Some(extension) => r@ == media_type_of(extension),
            None => r@ == "application/octet-stream"@,
        },
        extension_of(path@) == Some(Seq::<char>::empty()) ==> r@ == "application/octet-stream"@,
{
    mime_guess::from_path(path).first_or_octet_stream().to_string()
}

/// The header that names a file that is sent, to be saved or to be shown.
pub fn content_disposition(path: &str, save: bool) -> (r: String)
    ensures
        r@ == disposition_of(path@, save),
{
    let name: String = match path::file_name(path) {
        Some(name) => name,
        None => "download".to_owned(),
    };
    let kind: &str = if save {
        "attachment"
    } else {
        "inline"
    };
    let head: String = text::concat(kind, "; filename=\"");
    text::concat(&text::concat(&head, &text::remove_char(&name, '"')), "\"")
}

/// How a download is answered, given whether the disk holds a directory, a
/// file or nothing.
pub fn plan_serving(path: &str, full_path: &str, is_dir: Option<bool>, save: bool) -> (r: Result<
    Serving,
    Refusal,
>)
    ensures
        text::result_view(r) == serving_of(path@, full_path@, is_dir, save),
{
    match is_dir {
        None => Err(reply::error(404, "文件不存在")),
        Some(dir) => {
            if dir {
                let location: String = text::concat("/?path=", &percent::url_encode(path));
                Ok(Serving::Redirect { location })
            } else {
                Ok(
                    Serving::Send {
                        content_type: guess_media_type(full_path),
                        disposition: content_disposition(path, save),
                    },
                )
            }
        },
    }
}

/// The refusal of a download whose file cannot be read.
pub fn unreadable_file() -> (r: Refusal)
    ensures
        r@ == reply::refused(500, "读取文件失败"@),
{
    reply::error(500, "读取文件失败")
}

/// Counts a download by a user where the file was sent, and notes it.
pub fn finish_download(store: &mut Store, username: &str, path: &str, status: u16) -> (r: AuditNote)
    requires
        is_success(status) ==> store::downloads(old(store)@, path@) < u64::MAX,
    ensures
        final(store)@ == after_download(old(store)@, path@, status),
        r@ == audit::noted(Some(username@), "download"@, Some(path@), status, "登录下载"@),
{
    if 200 <= status && status < 300 {
        store::increment_download_count(store, path);
    }
    audit::note(
        Some(username.to_owned()),
        "download",
        Some(path.to_owned()),
        status,
        "登录下载",
    )
}

/// Counts a download through a public link where the file was sent, and notes
/// it.
pub fn finish_public_download(
    store: &mut Store,
    source_path: &str,
    public_path: &str,
    status: u16,
) -> (r: AuditNote)
    requires
        is_success(status) ==> store::downloads(old(store)@, source_path@) < u64::MAX
            && store::downloads(old(store)@, public_path@) < u64::MAX,
    ensures
        final(store)@ == after_public_download(
            old(store)@,
            source_path@,
            public_path@,
            status,
        ),
        r@ == audit::noted(None, "public_download"@, Some(public_path@), status, "公开下载"@),
{
    if 200 <= status && status < 300 {
        store::count_public_download(store, source_path, public_path);
    }
    audit::note(None, "public_download", Some(public_path.to_owned()), status, "公开下载")
}

proof fn lemma_entries_shown_members(
    store: StoreModel,
    user: UserModel,
    dir: Seq<char>,
    entries: Seq<FoundEntryModel>,
    shown: FileEntryModel,
)
    ensures
        entries_shown(store, user, dir, entries).contains(shown) <==> exists|i: int|
            0 <= i < entries.len() && is_shown(store, user, dir, #[trigger] entries[i]) && shown
                == entry_shown(
                store,
                entries[i].name,
                path::child(dir, entries[i].name),
                entries[i].metadata->0,
            ),
        entries_shown(store, user, dir, entries).len() <= entries.len(),
    decreases entries.len(),
{
    if entries.len() > 0 {
        let rest = entries.drop_last();
        let last = entries.last();
        let before = entries_shown(store, user, dir, rest);
        let all = entries_shown(store, user, dir, entries);
        lemma_entries_shown_members(store, user, dir, rest, shown);
        assert(entries[entries.len() - 1] == last);
        if before.contains(shown) {
            let i = choose|i: int|
                0 <= i < rest.len() && is_shown(store, user, dir, #[trigger] rest[i]) && shown
                    == entry_shown(
                    store,
                    rest[i].name,
                    path::child(dir, rest[i].name),
                    rest[i].metadata->0,
                );
            assert(entries[i] == rest[i]);
            let k = choose|k: int| 0 <= k < before.len() && before[k] == shown;
            assert(all[k] == shown);
        }
        if is_shown(store, user, dir, last) {
            assert(all[all.len() - 1] == all.last());
        }
        if all.contains(shown) && !before.contains(shown) {
            let k = choose|k: int| 0 <= k < all.len() && all[k] == shown;
            if k < before.len() {
                assert(before[k] == shown);
            }
        }
        assert forall|i: int|
            0 <= i < entries.len() && is_shown(store, user, dir, #[trigger] entries[i]) && shown
                == entry_shown(
                store,
                entries[i].name,
                path::child(dir, entries[i].name),
                entries[i].metadata->0,
            ) implies all.contains(shown) by {
            if i < rest.len() {
                assert(rest[i] == entries[i]);
            }
        }
    }
}

/// A user is shown exactly the entries that they may download and of which the
/// disk says what they are.
pub proof fn lemma_listing_shows_what_is_allowed(
    store: StoreModel,
    user: UserModel,
    dir: Seq<char>,
    entries: Seq<FoundEntryModel>,
    shown: FileEntryModel,
)
    requires
        entries.len() <= usize::MAX,
    ensures
        directory_shown(store, user, dir, entries).entries.contains(shown) <==> exists|i: int|
            0 <= i < entries.len() && is_shown(store, user, dir, #[trigger] entries[i]) && shown
                == entry_shown(
                store,
                entries[i].name,
                path::child(dir, entries[i].name),
                entries[i].metadata->0,
            ),
{
    let kept = entries_shown(store, user, dir, entries);
    lemma_entries_shown_members(store, user, dir, entries, shown);
    order::lemma_picked_members(kept, entry_keys(kept), shown);
}

/// Directories are listed before files, and both by the lower case of their
/// names.
pub proof fn lemma_listing_order(
    store: StoreModel,
    user: UserModel,
    dir: Seq<char>,
    entries: Seq<FoundEntryModel>,
    a: int,
    b: int,
)
    requires
        entries.len() <= usize::MAX,
        0 <= a < b < directory_shown(store, user, dir, entries).entries.len(),
    ensures
        ({
            let listed = directory_shown(store, user, dir, entries).entries;
            &&& listed[b].kind == FileKind::Directory ==> listed[a].kind == FileKind::Directory
            &&& listed[a].kind == listed[b].kind ==> !text::text_before(
                order::lower_case(listed[b].name),
                order::lower_case(listed[a].name),
            )
        }),
{
    let kept = entries_shown(store, user, dir, entries);
    let keys = entry_keys(kept);
    lemma_entries_shown_members(store, user, dir, entries, kept[0]);
    order::lemma_listing_exists(keys);
    let places = order::listing(keys);
    let (i, j) = (places[a] as int, places[b] as int);
    assert(order::listed_before(keys, i, j));
    text::lemma_text_order_total(keys[i].1, keys[j].1);
}

/// Who neither signed in nor sent a right name and password, and who may not
/// download a path, is asked for a name and a password, and gets no file.
pub proof fn lemma_download_needs_leave(
    store: StoreModel,
    headers: HeadersModel,
    root: Seq<char>,
    request: Seq<char>,
)
    ensures
        download_check(store, headers, root, request) is Ok <==> (store::identified(
            store,
            headers,
        ) matches Some(user) && store::may_access(store, user, path::normalized(request))),
        download_check(store, headers, root, request) matches Err(e) ==> e.challenge && e.status
            == 401,
{
}

/// A download that was sent counts once, for the file and for the link that it
/// was reached by, and for nothing else. One that was not sent does not count.
pub proof fn lemma_downloads_are_counted_once(
    store: StoreModel,
    source: Seq<char>,
    public_path: Seq<char>,
    other: Seq<char>,
    status: u16,
)
    requires
        store::downloads(store, source) < u64::MAX,
        store::downloads(store, public_path) < u64::MAX,
        other != source,
        other != public_path,
    ensures
        is_success(status) ==> {
            let after = after_public_download(store, source, public_path, status);
            &&& store::downloads(after, source) == store::downloads(store, source) + 1
            &&& store::downloads(after, public_path) == store::downloads(store, public_path) + 1
            &&& store::downloads(after, other) == store::downloads(store, other)
        },
        is_success(status) ==> {
            let after = after_download(store, source, status);
            &&& store::downloads(after, source) == store::downloads(store, source) + 1
            &&& store::downloads(after, other) == store::downloads(store, other)
        },
        !is_success(status) ==> after_public_download(store, source, public_path, status) == store
            && after_download(store, source, status) == store,
{
}

/// The download link of a path leads to the path: who may download it, and asks
/// for what stands behind `/api/files/` in the link, in any percent-encoding,
/// gets leave for that very path and for its place on disk.
pub proof fn lemma_download_link_leads_to_the_file(
    store: StoreModel,
    headers: HeadersModel,
    root: Seq<char>,
    name: Seq<char>,
    path: Seq<char>,
    metadata: Metadata,
    request: Seq<char>,
    user: UserModel,
)
    requires
        path::is_normal(path),
        path::decoded(request) == path::decoded(
            entry_shown(store, name, path, metadata).download_url.skip(
                "/api/files/"@.len() as int,
            ),
        ),
        store::identified(store, headers) == Some(user),
        store::may_access(store, user, path),
    ensures
        "/api/files/"@.is_prefix_of(entry_shown(store, name, path, metadata).download_url),
        download_check(store, headers, root, request) == Ok::<PermitModel, RefusalModel>(
            permit::permitted(user, path, root),
        ),
{
    reveal_strlit("/api/files");
    reveal_strlit("/api/files/");
    let e = path::encoded_path(path);
    let url = "/api/files"@ + e;
    path::lemma_rooted_starts_with_slash(path::encoded_all(path::segments(path)));
    assert("/api/files/"@ =~= url.take(11));
    assert(url.skip(11) =~= e.skip(1));
    path::lemma_request_of_url(path, request);
}

/// What is downloaded by a user who is no administrator and was not granted the
/// file lies, on disk, in the place of one of their directories.
pub proof fn lemma_download_lies_in_a_directory(
    store: StoreModel,
    headers: HeadersModel,
    root: Seq<char>,
    request: Seq<char>,
)
    requires
        download_check(store, headers, root, request) is Ok,
        ({
            let permit = download_check(store, headers, root, request)->Ok_0;
            permit.user.role != account::Role::Admin && !store::granted(
                store,
                permit.path,
            ).contains(permit.user.username)
        }),
    ensures
        ({
            let permit = download_check(store, headers, root, request)->Ok_0;
            let roots = permit.user.permissions.roots;
            exists|i: int, rest: Seq<Seq<char>>|
                0 <= i < roots.len() && path::all_names(rest) && permit.full_path
                    == #[trigger] path::disk_path(path::located(root, roots[i]), rest)
        }),
{
    let permit = download_check(store, headers, root, request)->Ok_0;
    let found = account::lemma_readable_path_lies_in_a_directory(permit.user, root, permit.path);
    assert(permit.full_path == path::disk_path(
        path::located(root, permit.user.permissions.roots[found.0]),
        found.1,
    ));
}

/// A query asks for the path under `path`, else for the root directory, and for
/// saving a file by `1` or `true` under `download`.
pub proof fn lemma_queries(query: Map<Seq<char>, Seq<char>>)
    ensures
        query.contains_key("path"@) ==> query_path(query) == query["path"@],
        !query.contains_key("path"@) ==> query_path(query) == seq!['/'],
        saving(query) <==> query.contains_key("download"@) && (query["download"@] == "1"@
            || query["download"@] == "true"@),
{
    reveal_strlit("/");
    assert("/"@ =~= seq!['/']);
}

/// Leave to list is for the directory that was asked for, and a user has it
/// exactly where they may see the directory.
pub proof fn lemma_listing_leave(
    store: StoreModel,
    headers: HeadersModel,
    root: Seq<char>,
    request: Seq<char>,
)
    ensures
        listing_check(store, headers, root, request) is Ok <==> (store::identified(
            store,
            headers,
        ) matches Some(user) && account::may_read(user, path::normalized(request))),
        listing_check(store, headers, root, request) matches Ok(permit) ==> {
            &&& store::identified(store, headers) == Some(permit.user)
            &&& permit.path == path::normalized(request)
            &&& permit.full_path == path::located(root, path::normalized(request))
        },
        listing_check(store, headers, root, request) matches Err(e) ==> {
            &&& !e.challenge && e.note is None
            &&& store::identified(store, headers) is None ==> e.status == 401 && e.message
                == "请先登录"@
            &&& store::identified(store, headers) is Some ==> e.status == 403 && e.message
                == "没有访问此目录的权限"@
        },
{
}

/// Every entry of a listing is an entry of the directory that the user may
/// download, with what the disk says of it and what the server remembers of its
/// path, whether or not the file is public.
pub proof fn lemma_listed_entry(
    store: StoreModel,
    user: UserModel,
    dir: Seq<char>,
    entries: Seq<FoundEntryModel>,
    at: int,
) -> (k: int)
    requires
        entries.len() <= usize::MAX,
        0 <= at < directory_shown(store, user, dir, entries).entries.len(),
    ensures
        directory_shown(store, user, dir, entries).path == dir,
        0 <= k < entries.len(),
        ({
            let entry = directory_shown(store, user, dir, entries).entries[at];
            &&& entry.name == entries[k].name
            &&& entry.path == path::child(dir, entry.name)
            &&& store::may_access(store, user, entry.path)
            &&& entries[k].metadata matches Some(metadata) && entry.size == metadata.size
                && entry.modified == metadata.modified && (entry.kind == FileKind::Directory
                <==> metadata.is_dir)
            &&& entry.download_count == store::downloads(store, entry.path)
            &&& entry.download_url == "/api/files"@ + path::encoded_path(entry.path)
            &&& entry.public <==> store.public_files.contains_key(entry.path)
            &&& entry.public ==> entry.public_url == Some(path::public_url(entry.path))
            &&& !entry.public ==> entry.public_url is None
            &&& entry.granted_users == store::granted(store, entry.path)
        }),
{
    let listed = directory_shown(store, user, dir, entries).entries;
    let entry = listed[at];
    assert(listed.contains(entry));
    lemma_listing_shows_what_is_allowed(store, user, dir, entries, entry);
    choose|i: int|
        0 <= i < entries.len() && is_shown(store, user, dir, #[trigger] entries[i]) && entry
            == entry_shown(
            store,
            entries[i].name,
            path::child(dir, entries[i].name),
            entries[i].metadata->0,
        )
}

/// Every entry that the user may download, and of which the disk says what it
/// is, is listed.
pub proof fn lemma_allowed_entry_is_listed(
    store: StoreModel,
    user: UserModel,
    dir: Seq<char>,
    entries: Seq<FoundEntryModel>,
    k: int,
) -> (at: int)
    requires
        entries.len() <= usize::MAX,
        0 <= k < entries.len(),
        entries[k].metadata is Some,
        store::may_access(store, user, path::child(dir, entries[k].name)),
    ensures
        0 <= at < directory_shown(store, user, dir, entries).entries.len(),
        directory_shown(store, user, dir, entries).entries[at].name == entries[k].name,
        directory_shown(store, user, dir, entries).entries[at].path == path::child(
            dir,
            entries[k].name,
        ),
{
    let listed = directory_shown(store, user, dir, entries).entries;
    let entry = entry_shown(
        store,
        entries[k].name,
        path::child(dir, entries[k].name),
        entries[k].metadata->0,
    );
    assert(is_shown(store, user, dir, entries[k]));
    lemma_listing_shows_what_is_allowed(store, user, dir, entries, entry);
    choose|at: int| 0 <= at < listed.len() && listed[at] == entry
}

proof fn lemma_entries_after_download(
    store: StoreModel,
    user: UserModel,
    dir: Seq<char>,
    entries: Seq<FoundEntryModel>,
    path: Seq<char>,
)
    requires
        store::downloads(store, path) < u64::MAX,
    ensures
        ({
            let before = entries_shown(store, user, dir, entries);
            let after = entries_shown(store::counted(store, path), user, dir, entries);
            &&& before.len() == after.len()
            &&& forall|i: int|
                0 <= i < before.len() ==> {
                    &&& (#[trigger] after[i]).name == before[i].name
                    &&& after[i].path == before[i].path
                    &&& after[i].kind == before[i].kind
                    &&& after[i].download_count == before[i].download_count + (if before[i].path
                        == path {
                        1int
                    } else {
                        0int
                    })
                }
        }),
    decreases entries.len(),
{
    if entries.len() > 0 {
        lemma_entries_after_download(store, user, dir, entries.drop_last(), path);
        store::lemma_counting(store, path, path::child(dir, entries.last().name));
    }
}

/// After a file was sent to a user, the listing of its directory shows a count
/// that is one higher for it, and the same as before for everything else.
pub proof fn lemma_listing_shows_downloads(
    store: StoreModel,
    user: UserModel,
    dir: Seq<char>,
    entries: Seq<FoundEntryModel>,
    path: Seq<char>,
    status: u16,
    at: int,
)
    requires
        entries.len() <= usize::MAX,
        store::downloads(store, path) < u64::MAX,
        200 <= status <= 299,
        0 <= at < directory_shown(store, user, dir, entries).entries.len(),
    ensures
        ({
            let before = directory_shown(store, user, dir, entries).entries;
            let after = directory_shown(
                after_download(store, path, status),
                user,
                dir,
                entries,
            ).entries;
            &&& after.len() == before.len()
            &&& after[at].path == before[at].path && after[at].name == before[at].name
            &&& before[at].path == path ==> after[at].download_count == before[at].download_count
                + 1
            &&& before[at].path != path ==> after[at].download_count == before[at].download_count
        }),
{
    let counted = after_download(store, path, status);
    let before = entries_shown(store, user, dir, entries);
    let after = entries_shown(counted, user, dir, entries);
    lemma_entries_after_download(store, user, dir, entries, path);
    assert(entry_keys(before) =~= entry_keys(after));
    lemma_entries_shown_members(store, user, dir, entries, before[0]);
    order::lemma_listing_exists(entry_keys(before));
    let i = order::listing(entry_keys(before))[at] as int;
    assert(0 <= i < before.len());
    assert(after[i].name == before[i].name);
}

/// Leave to download is for the path that was asked for and for its place on
/// disk. Who is not known, and who may not download the path, is noted.
pub proof fn lemma_download_leave(
    store: StoreModel,
    headers: HeadersModel,
    root: Seq<char>,
    request: Seq<char>,
)
    ensures
        download_check(store, headers, root, request) matches Ok(permit) ==> {
            &&& store::identified(store, headers) == Some(permit.user)
            &&& store::may_access(store, permit.user, path::normalized(request))
            &&& permit.path == path::normalized(request)
            &&& permit.full_path == path::located(root, path::normalized(request))
        },
        download_check(store, headers, root, request) matches Err(e) ==> {
            &&& e.note matches Some(note) && note.action == "download"@ && note.path == Some(
                path::normalized(request),
            ) && match store::identified(store, headers) {
                Some(user) => note.username == Some(user.username) && note.status == 403
                    && note.detail == "下载权限不足"@,
                None => note.username is None && note.status == 401 && note.detail == "未认证"@,
            }
            &&& e.message == "请先登录"@
        },
{
}

/// Anyone may download what a link leads to, and is told that there is nothing
/// where it leads nowhere.
pub proof fn lemma_public_leave(store: StoreModel, root: Seq<char>, request: Seq<char>)
    ensures
        public_check(store, root, request) is Ok <==> store::resolved(
            store,
            path::public_request(request),
        ) is Some,
        public_check(store, root, request) matches Ok(permit) ==> {
            &&& store::resolved(store, path::public_request(request)) == Some(permit.source_path)
            &&& permit.path == path::public_request(request)
            &&& permit.full_path == path::located(root, permit.source_path)
        },
        public_check(store, root, request) matches Err(e) ==> {
            &&& e.status == 404 && e.message == "公开文件不存在"@ && !e.challenge
            &&& e.note matches Some(note) && note.username is None && note.action
                == "public_download"@ && note.path == Some(path::public_request(request))
                && note.status == 404 && note.detail == "公开文件不存在"@
        },
{
}

/// A file is sent under the media type of its extension and under its own name,
/// a directory is shown by the page for its path, and what is not there is not
/// found.
pub proof fn lemma_serving(
    path: Seq<char>,
    full_path: Seq<char>,
    is_dir: Option<bool>,
    save: bool,
)
    ensures
        match serving_of(path, full_path, is_dir, save) {
            Ok(ServingModel::Send { content_type, disposition }) => is_dir == Some(false)
                && content_type == media_type(full_path) && disposition == disposition_of(
                path,
                save,
            ),
            Ok(ServingModel::Redirect { location }) => is_dir == Some(true)
                && "/?path="@.is_prefix_of(location) && percent::url_decoded(location.skip(7))
                == Some(path),
            Err(e) => is_dir is None && e.status == 404 && e.message == "文件不存在"@ && !e.challenge
                && e.note is None,
        },
{
    reveal_strlit("/?path=");
    let location = "/?path="@ + percent::url_encoded(path);
    percent::lemma_decode_encoded(path);
    assert(location.skip(7) =~= percent::url_encoded(path));
    assert("/?path="@ =~= location.take(7));
}

/// The media type of a file goes by what stands behind the last `.` of its name,
/// wherever the file lies.
pub proof fn lemma_media_type(dir: Seq<char>, stem: Seq<char>, extension: Seq<char>)
    requires
        path::is_name(stem + seq!['.'] + extension),
        stem.len() > 0,
        !extension.contains('.'),
    ensures
        media_type(dir + seq!['/'] + (stem + seq!['.'] + extension)) == media_type_of(extension),
        path::is_name(stem) && !stem.contains('.') ==> media_type(dir + seq!['/'] + stem)
            == "application/octet-stream"@,
{
    let name = stem + seq!['.'] + extension;
    path::lemma_last_name_behind(dir, name);
    path::lemma_stem_and_extension(name);
    let (s, e) = path::stem_and_extension(name);
    assert(name[stem.len() as int] == '.');
    if e is None {
        assert(name.drop_first()[stem.len() as int - 1] == '.');
        assert(name.drop_first().contains('.'));
    } else {
        let found = e->0;
        if found.len() < extension.len() {
            let i = extension.len() - found.len() - 1;
            assert(name[s.len() as int] == '.');
            assert(extension[i] == name[s.len() as int]);
            assert(extension.contains('.'));
        } else if found.len() > extension.len() {
            let i = found.len() - extension.len() - 1;
            assert(found[i] == name[stem.len() as int]);
            assert(found.contains('.'));
        }
        assert(found =~= name.skip(name.len() - found.len()));
        assert(extension =~= name.skip(name.len() - extension.len()));
    }
    if path::is_name(stem) && !stem.contains('.') {
        path::lemma_last_name_behind(dir, stem);
        path::lemma_stem_and_extension(stem);
        if path::stem_and_extension(stem).1 is Some {
            let part = path::stem_and_extension(stem).0;
            assert(stem[part.len() as int] == '.');
            assert(stem.contains('.'));
        }
    }
}

/// A file is sent under its own name without its quotes, to be saved or to be
/// shown as was asked.
pub proof fn lemma_disposition(dir: Seq<char>, name: Seq<char>, save: bool)
    requires
        path::is_name(name),
    ensures
        disposition_of(dir + seq!['/'] + name, save) == (if save {
            "attachment; filename=\""@
        } else {
            "inline; filename=\""@
        }) + text::without_char(name, '"') + "\""@,
{
    path::lemma_last_name_behind(dir, name);
    reveal_strlit("attachment; filename=\"");
    reveal_strlit("inline; filename=\"");
    reveal_strlit("attachment");
    reveal_strlit("inline");
    reveal_strlit("; filename=\"");
    assert("attachment"@ + "; filename=\""@ =~= "attachment; filename=\""@);
    assert("inline"@ + "; filename=\""@ =~= "inline; filename=\""@);
}

/// A download counts where its status lies between 200 and 299, and nowhere
/// else.
pub proof fn lemma_sent_downloads_count(
    store: StoreModel,
    path: Seq<char>,
    public_path: Seq<char>,
    status: u16,
)
    requires
        store::downloads(store, path) < u64::MAX,
        store::downloads(store, public_path) < u64::MAX,
    ensures
        ({
            let sent = 200 <= status <= 299;
            let after = after_download(store, path, status);
            let public_after = after_public_download(store, path, public_path, status);
            &&& store::downloads(after, path) == store::downloads(store, path) + (if sent {
                1int
            } else {
                0int
            })
            &&& store::downloads(public_after, path) == store::downloads(store, path) + (if sent {
                1int
            } else {
                0int
            })
            &&& store::downloads(public_after, public_path) == store::downloads(
                store,
                public_path,
            ) + (if sent {
                1int
            } else {
                0int
            })
            &&& public_after.users == store.users && public_after.sessions == store.sessions
            &&& public_after.public_files == store.public_files && public_after.file_grants
                == store.file_grants
        }),
{
    store::lemma_counting(store, path, public_path);
    store::lemma_counting(store, public_path, path);
    if path != public_path {
        store::lemma_counting(store::counted(store, public_path), path, public_path);
    }
}

/// Where a path ends in no name, the file is sent as `download`.
pub proof fn lemma_nameless_disposition(path: Seq<char>, save: bool)
    requires
        path::last_name(path) is None,
    ensures
        disposition_of(path, save) == (if save {
            "attachment; filename=\"download\""@
        } else {
            "inline; filename=\"download\""@
        }),
{
    reveal_strlit("attachment; filename=\"download\"");
    reveal_strlit("inline; filename=\"download\"");
    reveal_strlit("attachment");
    reveal_strlit("inline");
    reveal_strlit("; filename=\"");
    reveal_strlit("download");
    reveal_strlit("\"");
    text::lemma_without_char("download"@, Seq::empty(), '"');
    assert(!"download"@.contains('"'));
    assert(disposition_of(path, save) =~= (if save {
        "attachment; filename=\"download\""@
    } else {
        "inline; filename=\"download\""@
    }));
}

/// A listing is of the directory that it was made for, and holds no more
/// entries than the directory.
pub proof fn lemma_listing_is_of_the_directory(
    store: StoreModel,
    user: UserModel,
    dir: Seq<char>,
    entries: Seq<FoundEntryModel>,
)
    requires
        entries.len() <= usize::MAX,
    ensures
        directory_shown(store, user, dir, entries).path == dir,
        directory_shown(store, user, dir, entries).entries.len() <= entries.len(),
{
    let kept = entries_shown(store, user, dir, entries);
    lemma_entries_shown_members(store, user, dir, entries, kept[0]);
    order::lemma_picked_members(kept, entry_keys(kept), kept[0]);
}

} // verus!
