use remote_file::account::{Role, User};
use remote_file::browsing::{
    check_download, check_listing, check_public_download, content_disposition, finish_download,
    finish_public_download, list_directory, no_directory, plan_serving, requested_path,
    unreadable_file, wants_download, FileKind, FoundEntry, Metadata, Serving,
};
use remote_file::clock::Timestamp;
use remote_file::headers::RequestHeaders;
use remote_file::path::{join_virtual, normalize_path};
use remote_file::reply::{CHALLENGE, NOT_CACHED};
use remote_file::percent::escape;
use remote_file::secrets::hash_password_with_salt;
use remote_file::sharing::{
    check_delete, check_grantable, check_publish, check_publishable, find_grant_target,
    forget_path, grant, grant_at, publish, publish_at, unpublish,
};
use remote_file::store::{
    can_access_path, download_count, public_path_for_source, public_source_path, Session, Store,
};
use remote_file::table::Table;
use remote_file::upload::{
    check_new_directory, check_upload, directory_exists, note_directory, note_upload,
    upload_temp_path, upload_temp_path_with,
};

fn at(seconds: i64) -> Timestamp {
    Timestamp { seconds, nanos: 0 }
}

fn no_headers() -> RequestHeaders {
    RequestHeaders { cookie: None, authorization: None, forwarded_for: None, real_ip: None }
}

fn with_cookie(token: &str) -> RequestHeaders {
    let mut headers = no_headers();
    headers.cookie = Some(format!("rf_session={token}").into_bytes());
    headers
}

fn user(name: &str, role: Role) -> User {
    User::with_hash(name, role, hash_password_with_salt("pw", "salt"), at(7))
}

fn small_store() -> Store {
    let mut store = Store::with_admin(user("admin", Role::Admin));
    for (name, token) in [("admin", "A"), ("bob", "B"), ("alice", "C")] {
        if name != "admin" {
            store.users.insert(name.to_string(), user(name, Role::User));
        }
        store.sessions.insert(
            token.to_string(),
            Session { username: name.to_string(), created_at: at(1) },
        );
    }
    store
}

fn found(name: &str, is_dir: bool, size: u64) -> FoundEntry {
    FoundEntry {
        name: name.to_string(),
        metadata: Some(Metadata { is_dir, size, modified: Some(at(5)) }),
    }
}

#[test]
fn queries_are_read() {
    let mut query: Table<String> = Table::new();
    assert_eq!(requested_path(&query), "/");
    assert!(!wants_download(&query));
    query.insert("path".to_string(), "/a".to_string());
    query.insert("download".to_string(), "1".to_string());
    assert_eq!(requested_path(&query), "/a");
    assert!(wants_download(&query));
    query.insert("download".to_string(), "true".to_string());
    assert!(wants_download(&query));
    query.insert("download".to_string(), "yes".to_string());
    assert!(!wants_download(&query));
}

#[test]
fn tables_hold_one_value_for_a_key() {
    let mut table: Table<u64> = Table::new();
    table.insert("a".to_string(), 1);
    table.insert("b".to_string(), 2);
    table.insert("a".to_string(), 3);
    assert_eq!(table.len(), 2);
    assert_eq!(table.get("a"), Some(&3));
    assert_eq!(table.remove("a"), Some(3));
    assert_eq!(table.remove("a"), None);
    assert_eq!(table.key_at(0), "b");
    assert_eq!(table.value_at(0), &2);
}

#[test]
fn listing_needs_leave() {
    let store = small_store();
    let e = check_listing(&store, &no_headers(), "/f", "/").unwrap_err();
    assert_eq!((e.status, e.message.as_str(), e.challenge), (401, "请先登录", false));
    let e = check_listing(&store, &with_cookie("B"), "/f", "/").unwrap_err();
    assert_eq!((e.status, e.message.as_str()), (403, "没有访问此目录的权限"));
    let p = check_listing(&store, &with_cookie("B"), "/f", "user/bob/").unwrap();
    assert_eq!((p.path.as_str(), p.full_path.as_str()), ("/user/bob", "/f/user/bob"));
    let mut basic = no_headers();
    // "bob:pw" in base64
    basic.authorization = Some(b"Basic Ym9iOnB3".to_vec());
    assert!(check_listing(&store, &basic, "/f", "/user/bob").is_ok());
    let e = no_directory();
    assert_eq!((e.status, e.message.as_str()), (404, "目录不存在"));
}

#[test]
fn directories_are_listed_in_order() {
    let mut store = small_store();
    publish_at(&mut store, "admin", "/b.txt", at(3));
    store.download_counts.insert("/b.txt".to_string(), 4);
    let admin = user("admin", Role::Admin);
    grant_at(&mut store, &admin, "/b.txt", &vec!["bob".to_string()], at(4)).unwrap();
    let entries = vec![
        found("b.txt", false, 10),
        found("A.txt", false, 20),
        found("zoo", true, 0),
        found("ÄPFEL", true, 0),
        found("Alpha", true, 0),
        FoundEntry { name: "gone".to_string(), metadata: None },
    ];
    let list = list_directory(&store, &admin, "/", &entries);
    assert_eq!(list.path, "/");
    let names: Vec<&str> = list.entries.iter().map(|e| e.name.as_str()).collect();
    assert_eq!(names, vec!["Alpha", "zoo", "ÄPFEL", "A.txt", "b.txt"]);
    let b = &list.entries[4];
    assert_eq!(b.path, "/b.txt");
    assert_eq!(b.kind, FileKind::File);
    assert_eq!((b.size, b.download_count, b.public), (10, 4, true));
    assert_eq!(b.modified, Some(at(5)));
    assert_eq!(b.download_url, "/api/files/b.txt");
    assert_eq!(b.public_url.as_deref(), Some("/public/b.txt"));
    assert_eq!(b.granted_users, vec!["bob".to_string()]);
    let a = &list.entries[3];
    assert!(!a.public && a.public_url.is_none() && a.granted_users.is_empty());
    assert_eq!(list.entries[0].kind, FileKind::Directory);
    let bob = user("bob", Role::User);
    let list = list_directory(&store, &bob, "/", &entries);
    let names: Vec<&str> = list.entries.iter().map(|e| e.name.as_str()).collect();
    assert_eq!(names, vec!["b.txt"]);
}

#[test]
fn lower_case_ignores_the_case_of_other_scripts() {
    let store = small_store();
    let admin = user("admin", Role::Admin);
    let entries = vec![found("ÉB", false, 1), found("éa", false, 1), found("ÉA", false, 2)];
    let list = list_directory(&store, &admin, "/x", &entries);
    let names: Vec<&str> = list.entries.iter().map(|e| e.path.as_str()).collect();
    assert_eq!(names, vec!["/x/éa", "/x/ÉA", "/x/ÉB"]);
}

#[test]
fn downloads_need_leave() {
    let store = small_store();
    let e = check_download(&store, &no_headers(), "/f", "user/bob/a").unwrap_err();
    assert_eq!((e.status, e.challenge), (401, true));
    let n = e.note.unwrap();
    assert_eq!((n.username, n.status, n.detail.as_str()), (None, 401, "未认证"));
    assert_eq!(n.path.as_deref(), Some("/user/bob/a"));
    let e = check_download(&store, &with_cookie("C"), "/f", "user/bob/a").unwrap_err();
    assert_eq!((e.status, e.challenge), (401, true));
    let n = e.note.unwrap();
    assert_eq!((n.username.as_deref(), n.status), (Some("alice"), 403));
    assert_eq!(n.detail, "下载权限不足");
    let p = check_download(&store, &with_cookie("B"), "/f", "user/bob/a").unwrap();
    assert_eq!(p.full_path, "/f/user/bob/a");
}

#[test]
fn files_are_served_with_their_headers() {
    let e = plan_serving("/a", "/f/a", None, false).unwrap_err();
    assert_eq!((e.status, e.message.as_str()), (404, "文件不存在"));
    match plan_serving("/a b", "/f/a b", Some(true), false).unwrap() {
        Serving::Redirect { location } => assert_eq!(location, "/?path=%2Fa%20b"),
        Serving::Send { .. } => panic!("sent"),
    }
    for (path, media) in [
        ("/x/a.txt", "text/plain"),
        ("/x/a.HTML", "text/html"),
        ("/x/a.png", "image/png"),
        ("/x/README", "application/octet-stream"),
        ("/x/.txt", "application/octet-stream"),
        ("/x/a.", "application/octet-stream"),
    ] {
        match plan_serving(path, path, Some(false), false).unwrap() {
            Serving::Send { content_type, .. } => assert_eq!(content_type, media),
            Serving::Redirect { .. } => panic!("redirected"),
        }
    }
    assert_eq!(content_disposition("/x/a\"b.txt", false), "inline; filename=\"ab.txt\"");
    assert_eq!(content_disposition("/x/c", true), "attachment; filename=\"c\"");
    assert_eq!(content_disposition("/", true), "attachment; filename=\"download\"");
    let e = unreadable_file();
    assert_eq!((e.status, e.message.as_str()), (500, "读取文件失败"));
}

#[test]
fn downloads_are_counted_once() {
    let mut store = small_store();
    let n = finish_download(&mut store, "bob", "/a", 200);
    assert_eq!((n.username.as_deref(), n.detail.as_str(), n.status), (Some("bob"), "登录下载", 200));
    finish_download(&mut store, "bob", "/a", 404);
    finish_download(&mut store, "bob", "/a", 307);
    assert_eq!(download_count(&store, "/a"), 1);
    let n = finish_public_download(&mut store, "/a", "/public/a", 200);
    assert_eq!((n.username, n.detail.as_str()), (None, "公开下载"));
    assert_eq!(download_count(&store, "/a"), 2);
    assert_eq!(download_count(&store, "/public/a"), 1);
    finish_public_download(&mut store, "/public/b", "/public/b", 200);
    assert_eq!(download_count(&store, "/public/b"), 1);
    finish_public_download(&mut store, "/a", "/public/a", 500);
    assert_eq!(download_count(&store, "/a"), 2);
}

#[test]
fn published_files_are_reached_by_their_links() {
    let mut store = small_store();
    let e = check_publish(&store, &no_headers(), "/f", "/a").unwrap_err();
    assert_eq!(e.status, 401);
    let e = check_publish(&store, &with_cookie("B"), "/f", "/user/bob/a").unwrap_err();
    assert_eq!((e.status, e.message.as_str()), (403, "没有公开权限"));
    assert_eq!(e.note.unwrap().detail, "公开权限不足");
    let mut carol = user("carol", Role::User);
    carol.permissions.can_publish = true;
    store.users.insert("carol".to_string(), carol);
    store.sessions.insert(
        "D".to_string(),
        Session { username: "carol".to_string(), created_at: at(1) },
    );
    let e = check_publish(&store, &with_cookie("D"), "/f", "/a").unwrap_err();
    assert_eq!((e.status, e.message.as_str()), (403, "不能公开这个文件"));
    assert_eq!(e.note.unwrap().detail, "路径权限不足");
    let p = check_publish(&store, &with_cookie("D"), "/f", "user/carol/t/x y.txt").unwrap();
    assert_eq!(p.full_path, "/f/user/carol/t/x y.txt");
    assert_eq!(check_publishable(None).unwrap().status, 404);
    assert_eq!(check_publishable(Some(true)).unwrap().message, "暂不支持公开整个目录");
    assert!(check_publishable(Some(false)).is_none());
    store.public_copies.insert(p.path.clone(), "old".to_string());
    let r = publish_at(&mut store, &p.user.username, &p.path, at(8));
    assert_eq!(r.public_path, "/user/carol/t/x y.txt");
    assert_eq!(r.public_url, "/public/t/x%20y.txt");
    assert_eq!((r.note.action.as_str(), r.note.detail.as_str()), ("publish", "公开文件链接"));
    assert!(!store.public_copies.contains_key(&p.path));
    assert_eq!(store.public_files.get(&p.path).unwrap().published_at, at(8));
    assert_eq!(public_path_for_source(&store, &p.path), Some(p.path.clone()));
    let got = check_public_download(&store, "/f", "t/x y.txt").unwrap();
    assert_eq!(got.path, "/public/t/x y.txt");
    assert_eq!(got.source_path, "/user/carol/t/x y.txt");
    assert_eq!(got.full_path, "/f/user/carol/t/x y.txt");
    let e = check_public_download(&store, "/f", "t/other").unwrap_err();
    assert_eq!((e.status, e.message.as_str(), e.challenge), (404, "公开文件不存在", false));
    let r = publish(&mut store, "admin", "/docs/a.txt");
    assert_eq!(r.public_url, "/public/docs/a.txt");
    assert_eq!(
        public_source_path(&store, "/public/docs/a.txt"),
        Some("/docs/a.txt".to_string())
    );
    publish(&mut store, "admin", "/public/z");
    assert_eq!(public_source_path(&store, "/public/z"), Some("/public/z".to_string()));
}

#[test]
fn links_that_look_alike_lead_to_the_first_file() {
    let mut store = small_store();
    publish_at(&mut store, "bob", "/user/bob/x", at(1));
    publish_at(&mut store, "alice", "/user/alice/x", at(2));
    assert_eq!(public_source_path(&store, "/public/x"), Some("/user/alice/x".to_string()));
    publish_at(&mut store, "admin", "/x", at(3));
    assert_eq!(public_source_path(&store, "/public/x"), Some("/x".to_string()));
}

#[test]
fn withdrawn_links_lead_nowhere() {
    let mut store = small_store();
    publish_at(&mut store, "admin", "/docs/a.txt", at(1));
    store.download_counts.insert("/docs/a.txt".to_string(), 3);
    let e = unpublish(&mut store, &no_headers(), "docs/a.txt").unwrap_err();
    assert_eq!(e.status, 401);
    assert!(public_source_path(&store, "/public/docs/a.txt").is_some());
    let r = unpublish(&mut store, &with_cookie("B"), "docs/a.txt").unwrap();
    assert_eq!(r.public_path, "/docs/a.txt");
    assert_eq!(r.note.username, None);
    assert_eq!((r.note.status, r.note.detail.as_str()), (204, "取消公开链接 /docs/a.txt"));
    assert_eq!(public_source_path(&store, "/public/docs/a.txt"), None);
    assert_eq!(download_count(&store, "/docs/a.txt"), 0);
}

#[test]
fn grants_decide_who_may_download() {
    let mut store = small_store();
    let admin = user("admin", Role::Admin);
    let alice = user("alice", Role::User);
    let bob = user("bob", Role::User);
    assert_eq!(find_grant_target(&store, &no_headers(), "/f", "/a").unwrap_err().status, 401);
    let p = find_grant_target(&store, &with_cookie("A"), "/f", "a").unwrap();
    assert_eq!((p.path.as_str(), p.full_path.as_str()), ("/a", "/f/a"));
    assert_eq!(check_grantable(None).unwrap().message, "文件不存在");
    assert_eq!(check_grantable(Some(true)).unwrap().message, "暂不支持授权整个目录");
    assert!(check_grantable(Some(false)).is_none());
    let asked: Vec<String> =
        [" bob ", "", "admin", "alice", "bob"].iter().map(|s| s.to_string()).collect();
    let e = grant_at(&mut store, &bob, "/a", &asked, at(2)).unwrap_err();
    assert_eq!((e.status, e.message.as_str()), (403, "不能授权这个文件"));
    assert_eq!(e.note.unwrap().detail, "授权路径权限不足");
    let unknown = vec!["bob".to_string(), " eve ".to_string()];
    let e = grant_at(&mut store, &admin, "/a", &unknown, at(2)).unwrap_err();
    assert_eq!((e.status, e.message.as_str()), (400, "用户 eve 不存在"));
    assert!(e.note.is_none());
    assert!(!can_access_path(&store, &bob, "/a"));
    let r = grant_at(&mut store, &admin, "/a", &asked, at(2)).unwrap();
    assert_eq!(r.granted_users, vec!["alice", "bob"]);
    assert_eq!(r.download_url, "/api/files/a");
    assert_eq!(r.note.detail, "授权给 alice, bob");
    assert_eq!(store.file_grants.get("/a").unwrap().updated_at, at(2));
    assert!(can_access_path(&store, &bob, "/a") && can_access_path(&store, &alice, "/a"));
    assert!(!can_access_path(&store, &bob, "/b"));
    let r = grant(&mut store, &bob, "/a", &vec!["alice".to_string()]).unwrap();
    assert_eq!(r.granted_users, vec!["alice"]);
    assert!(!can_access_path(&store, &bob, "/a"));
    let r = grant(&mut store, &admin, "/a", &Vec::new()).unwrap();
    assert_eq!(r.note.detail, "清空授权");
    assert!(!store.file_grants.contains_key("/a"));
    assert!(!can_access_path(&store, &alice, "/a"));
}

#[test]
fn deleted_paths_are_forgotten() {
    let mut store = small_store();
    let e = check_delete(&store, &no_headers(), "/f", "x").unwrap_err();
    assert_eq!(e.status, 401);
    let e = check_delete(&store, &with_cookie("B"), "/f", "user/bob/x").unwrap_err();
    assert_eq!((e.status, e.message.as_str()), (403, "没有删除权限"));
    let n = e.note.unwrap();
    assert_eq!((n.path.as_deref(), n.detail.as_str()), (Some("user/bob/x"), "删除权限不足"));
    let mut carol = user("carol", Role::User);
    carol.permissions.can_delete = true;
    store.users.insert("carol".to_string(), carol);
    store.sessions.insert(
        "D".to_string(),
        Session { username: "carol".to_string(), created_at: at(1) },
    );
    let e = check_delete(&store, &with_cookie("D"), "/f", "x").unwrap_err();
    assert_eq!((e.status, e.message.as_str()), (403, "不能删除这个文件"));
    let n = e.note.unwrap();
    assert_eq!((n.path.as_deref(), n.detail.as_str()), (Some("/x"), "路径权限不足"));
    let p = check_delete(&store, &with_cookie("A"), "/f", "x").unwrap();
    publish_at(&mut store, "admin", "/x", at(1));
    grant_at(&mut store, &p.user, "/x", &vec!["bob".to_string()], at(1)).unwrap();
    finish_download(&mut store, "admin", "/x", 200);
    let n = forget_path(&mut store, "admin", &p.path);
    assert_eq!((n.action.as_str(), n.status, n.detail.as_str()), ("delete", 204, "删除文件或目录"));
    assert_eq!(public_source_path(&store, "/public/x"), None);
    assert!(!store.file_grants.contains_key("/x"));
    assert_eq!(download_count(&store, "/x"), 0);
}

#[test]
fn uploads_need_leave() {
    let mut store = small_store();
    let dir = normalize_path("user/bob");
    let e = check_upload(&store, &no_headers(), "/f", &dir).unwrap_err();
    assert_eq!((e.status, e.challenge), (401, false));
    let e = check_upload(&store, &with_cookie("C"), "/f", &dir).unwrap_err();
    assert_eq!((e.status, e.message.as_str()), (403, "不能上传到这个目录"));
    assert_eq!(e.note.unwrap().detail, "上传目录权限不足");
    let p = check_upload(&store, &with_cookie("B"), "/f", &dir).unwrap();
    assert_eq!(p.full_path, "/f/user/bob");
    let mut bob = user("bob", Role::User);
    bob.permissions.can_upload = false;
    store.users.insert("bob".to_string(), bob);
    let e = check_upload(&store, &with_cookie("B"), "/f", &dir).unwrap_err();
    assert_eq!((e.status, e.message.as_str()), (403, "没有上传权限"));
    assert_eq!(e.note.unwrap().detail, "上传权限不足");
    let n = note_upload("bob", "/user/bob", 12);
    assert_eq!((n.action.as_str(), n.status, n.detail.as_str()), ("upload", 204, "上传 12 个文件"));
}

#[test]
fn uploads_are_kept_under_another_name_until_they_are_whole() {
    // "a>b?" in URL-safe base64 is "YT5iPw"
    assert_eq!(upload_temp_path_with("/f", "x.txt", "a>b?"), "/f/.x.txt.YT5iPw.uploading");
    // "~~~" in URL-safe base64 is "fn5-"
    assert_eq!(upload_temp_path_with("/f/", "x", "~~~"), "/f/.x.fn5-.uploading");
    let one = upload_temp_path("/f", "x");
    assert!(one.starts_with("/f/.x.") && one.ends_with(".uploading"));
    assert_eq!(one.len(), 6 + 58 + 10);
    assert_ne!(upload_temp_path("/f", "x"), one);
}

#[test]
fn directories_are_made_with_leave() {
    let mut store = small_store();
    let check = |store: &Store, token: &str, parent: &str, name: &str| {
        check_new_directory(store, &with_cookie(token), "/f", parent, name)
    };
    assert_eq!(check(&store, "none", "/", "d").unwrap_err().status, 401);
    let e = check(&store, "B", "/", "d").unwrap_err();
    assert_eq!((e.status, e.message.as_str()), (403, "不能在这个目录创建文件夹"));
    assert_eq!(e.note.unwrap().detail, "目录权限不足");
    let e = check(&store, "B", "/user/bob", "a/b").unwrap_err();
    assert_eq!((e.status, e.message.as_str()), (400, "文件夹名称不合法"));
    let p = check(&store, "B", "/user/bob", " new ").unwrap();
    assert_eq!((p.path.as_str(), p.full_path.as_str()), ("/user/bob/new", "/f/user/bob/new"));
    let mut bob = user("bob", Role::User);
    bob.permissions.can_upload = false;
    store.users.insert("bob".to_string(), bob);
    let e = check(&store, "B", "/user/bob", "d").unwrap_err();
    assert_eq!((e.status, e.message.as_str()), (403, "没有创建文件夹权限"));
    assert_eq!(e.note.unwrap().detail, "创建文件夹权限不足");
    let e = directory_exists();
    assert_eq!((e.status, e.message.as_str()), (409, "文件夹已存在"));
    let n = note_directory("bob", "/user/bob/new");
    assert_eq!((n.action.as_str(), n.status, n.detail.as_str()), ("mkdir", 201, "创建文件夹"));
}

#[test]
fn what_lies_in_a_readable_directory_is_readable() {
    let store = small_store();
    let bob = user("bob", Role::User);
    for dir in ["/user/bob", "/user/bob/a", "/public"] {
        assert!(can_access_path(&store, &bob, dir));
        assert!(can_access_path(&store, &bob, &join_virtual(dir, "x")));
    }
}

#[test]
fn a_challenge_asks_for_a_name_and_a_password() {
    assert_eq!(CHALLENGE, "Basic realm=\"Remote File\", charset=\"UTF-8\"");
    assert_eq!(NOT_CACHED, "no-store, no-cache, must-revalidate");
}

#[test]
fn every_published_file_is_reached_by_its_link() {
    for (path, request) in [
        ("/public/x.txt", "x.txt"),
        ("/public/public/x.txt", "public/x.txt"),
        ("/publicity/a.txt", "publicity/a.txt"),
        ("/user/bob/public.txt", "public.txt"),
        ("/user/bob/public/x.txt", "public/x.txt"),
        ("/user/bob/public", "public"),
        ("/a%41.txt", "a%2541.txt"),
        ("/user/bob/100%/b c", "100%25/b%20c"),
    ] {
        let mut store = small_store();
        let r = publish(&mut store, "admin", path);
        assert_eq!(r.public_url, format!("/public/{request}"));
        let got = check_public_download(&store, "/f", request).unwrap();
        assert_eq!(got.source_path, path);
        assert_eq!(got.full_path, format!("/f{path}"));
    }
}

#[test]
fn only_the_public_area_hides_directories() {
    let mut store = small_store();
    publish_at(&mut store, "bob", "/user/bob/x", at(1));
    assert_eq!(public_source_path(&store, "/public/x"), Some("/user/bob/x".to_string()));
    assert_eq!(public_source_path(&store, "/x"), None);
    assert_eq!(public_source_path(&store, "/user/bob/x"), Some("/user/bob/x".to_string()));
    assert_eq!(public_source_path(&store, "/public/user/bob/x"), Some("/user/bob/x".to_string()));
}

#[test]
fn names_with_percent_signs_are_taken_as_they_are() {
    let mut store = small_store();
    let admin = user("admin", Role::Admin);
    let list = list_directory(&store, &admin, "/", &vec![found("a%41.txt", false, 1)]);
    assert_eq!(list.entries[0].path, "/a%41.txt");
    assert_eq!(list.entries[0].download_url, "/api/files/a%2541.txt");
    for request in ["a%2541.txt".to_string(), escape("a%41.txt")] {
        let p = check_download(&store, &with_cookie("A"), "/f", &request).unwrap();
        assert_eq!((p.path.as_str(), p.full_path.as_str()), ("/a%41.txt", "/f/a%41.txt"));
    }
    let odd = user("a%41", Role::User);
    assert!(can_access_path(&store, &odd, "/user/a%41/x"));
    assert!(!can_access_path(&store, &odd, "/user/aA/x"));
    store.users.insert("a%41".to_string(), odd);
    store.sessions.insert(
        "E".to_string(),
        Session { username: "a%41".to_string(), created_at: at(1) },
    );
    let p = check_download(&store, &with_cookie("E"), "/f", &escape("user/a%41/x")).unwrap();
    assert_eq!(p.full_path, "/f/user/a%41/x");
}

#[test]
fn links_of_names_that_read_alike_lead_to_their_own_files() {
    let mut store = small_store();
    publish_at(&mut store, "admin", "/aA.txt", at(1));
    assert_eq!(public_source_path(&store, "/public/a%41.txt"), None);
    publish_at(&mut store, "admin", "/a%41.txt", at(2));
    assert_eq!(public_source_path(&store, "/public/a%41.txt"), Some("/a%41.txt".to_string()));
    assert_eq!(public_source_path(&store, "/public/aA.txt"), Some("/aA.txt".to_string()));
    let got = check_public_download(&store, "/f", "a%2541.txt").unwrap();
    assert_eq!(got.source_path, "/a%41.txt");
    let got = check_public_download(&store, "/f", "a%41.txt").unwrap();
    assert_eq!(got.source_path, "/aA.txt");
}
