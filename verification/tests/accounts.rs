use remote_file::account::{
    can_read, effective_permissions, permissions_from_payload, user_from_payload,
    user_from_payload_with_hash, Role, User, UserPayload, UserView, DEFAULT_ADMIN,
    DEFAULT_PASSWORD,
};
use remote_file::admin::{
    add_user, apply_change, apply_change_with, check_new_user, delete_user, list_audit_logs,
    list_users, note_change, plan_change, prepare_user,
};
use remote_file::audit::{note, recent_logs, record_audit, record_audit_at, AuditLog};
use remote_file::clock::Timestamp;
use remote_file::headers::{basic_credentials, client_ip, session_token, RequestHeaders};
use remote_file::reply::Refusal;
use remote_file::secrets::{
    digest_agrees, hash_password, hash_password_with_salt, legacy_hash_password, random_token,
    verify_password,
};
use remote_file::session::{
    expired_cookie, login, login_with, logout, session_cookie, session_view, LoginPayload,
};
use remote_file::store::{current_user, current_user_or_basic, Session, Store};

fn at(seconds: i64) -> Timestamp {
    Timestamp { seconds, nanos: 0 }
}

fn no_headers() -> RequestHeaders {
    RequestHeaders { cookie: None, authorization: None, forwarded_for: None, real_ip: None }
}

fn with_cookie(token: &str) -> RequestHeaders {
    let mut headers = no_headers();
    headers.cookie = Some(format!("a=b; rf_session={token}").into_bytes());
    headers
}

fn with_basic(encoded: &str) -> RequestHeaders {
    let mut headers = no_headers();
    headers.authorization = Some(format!("Basic {encoded}").into_bytes());
    headers
}

fn user(name: &str, password: &str, role: Role) -> User {
    User::with_hash(name, role, hash_password_with_salt(password, "salt"), at(7))
}

fn payload(name: &str, password: Option<&str>, role: Role) -> UserPayload {
    UserPayload {
        username: name.to_string(),
        password: password.map(|p| p.to_string()),
        role,
        roots: Vec::new(),
        can_upload: true,
        can_delete: false,
        can_publish: false,
    }
}

fn sign_in(store: &mut Store, name: &str, token: &str) {
    store.sessions.insert(
        token.to_string(),
        Session { username: name.to_string(), created_at: at(1) },
    );
}

fn small_store() -> Store {
    let mut store = Store::with_admin(user("admin", "secret", Role::Admin));
    store.users.insert("bob".to_string(), user("bob", "hunter2", Role::User));
    sign_in(&mut store, "admin", "A");
    sign_in(&mut store, "bob", "B");
    store
}

fn refused<T>(r: Result<T, Refusal>) -> (u16, String) {
    match r {
        Ok(_) => panic!("not refused"),
        Err(e) => (e.status, e.message),
    }
}

#[test]
fn digests_have_known_values() {
    assert_eq!(
        legacy_hash_password("abc"),
        "ba7816bf8f01cfea414140de5dae2223b00361a396177a9cb410ff61f20015ad"
    );
    assert_eq!(
        legacy_hash_password(""),
        "e3b0c44298fc1c149afbf4c8996fb92427ae41e4649b934ca495991b7852b855"
    );
}

#[test]
fn passwords_match_what_is_stored() {
    let stored = hash_password_with_salt("pw", "salt");
    assert!(stored.starts_with("v1$salt$"));
    assert_eq!(stored.len(), 8 + 64);
    assert!(verify_password("pw", &stored));
    assert!(!verify_password("pW", &stored));
    assert!(verify_password("abc", &legacy_hash_password("abc")));
    assert!(!verify_password("abd", &legacy_hash_password("abc")));
    assert!(!verify_password("abc", "v1$only-a-salt"));
    assert!(!verify_password("abc", "plain"));
    let fresh = hash_password("pw");
    assert!(verify_password("pw", &fresh));
    assert!(!verify_password("other", &fresh));
    assert_ne!(hash_password("pw"), fresh);
}

#[test]
fn digests_are_compared_as_text() {
    assert!(digest_agrees(&vec![0xab, 0x01], "ab01"));
    assert!(!digest_agrees(&vec![0xab, 0x01], "AB01"));
}

#[test]
fn tokens_are_random_and_fit_a_cookie() {
    let token = random_token();
    assert_eq!(token.len(), 43);
    assert!(token.chars().all(|c| c.is_ascii_alphanumeric() || c == '+' || c == '/'));
    assert_ne!(random_token(), token);
    assert_eq!(session_token(&with_cookie(&token)), Some(token));
}

#[test]
fn session_tokens_are_read_from_cookies() {
    let mut headers = no_headers();
    assert_eq!(session_token(&headers), None);
    headers.cookie = Some(b"x=1;  rf_session=abc=def ; rf_session=zzz".to_vec());
    assert_eq!(session_token(&headers), Some("abc=def".to_string()));
    headers.cookie = Some(b"a; =b; rf_session2=1;\trf_session=x/y+z".to_vec());
    assert_eq!(session_token(&headers), Some("x/y+z".to_string()));
    headers.cookie = Some(b"novalue; rf_session2=1".to_vec());
    assert_eq!(session_token(&headers), None);
    headers.cookie = Some(vec![0xff]);
    assert_eq!(session_token(&headers), None);
}

#[test]
fn basic_credentials_are_read() {
    // "bob:hunter2" and "bob:a:b" in base64
    assert_eq!(
        basic_credentials(&with_basic("Ym9iOmh1bnRlcjI=")),
        Some(("bob".to_string(), "hunter2".to_string()))
    );
    assert_eq!(
        basic_credentials(&with_basic("Ym9iOmE6Yg==")),
        Some(("bob".to_string(), "a:b".to_string()))
    );
    assert_eq!(basic_credentials(&with_basic("Ym9iOmh1bnRlcjI")), None);
    assert_eq!(basic_credentials(&with_basic("!!!!")), None);
    // a single 0xff byte, and "nocolon"
    assert_eq!(basic_credentials(&with_basic("/w==")), None);
    assert_eq!(basic_credentials(&with_basic("bm9jb2xvbg==")), None);
    let mut headers = no_headers();
    assert_eq!(basic_credentials(&headers), None);
    headers.authorization = Some(b"Bearer abc".to_vec());
    assert_eq!(basic_credentials(&headers), None);
}

#[test]
fn client_addresses() {
    let mut headers = no_headers();
    assert_eq!(client_ip(&headers), None);
    headers.real_ip = Some(b"10.0.0.9".to_vec());
    assert_eq!(client_ip(&headers), Some("10.0.0.9".to_string()));
    headers.forwarded_for = Some(b" 1.2.3.4 , 5.6.7.8".to_vec());
    assert_eq!(client_ip(&headers), Some("1.2.3.4".to_string()));
    headers.forwarded_for = Some(b" ,5.6.7.8".to_vec());
    assert_eq!(client_ip(&headers), Some("10.0.0.9".to_string()));
}

#[test]
fn users_are_found_by_session_or_password() {
    let store = small_store();
    assert_eq!(current_user(&store, &with_cookie("B")).unwrap().username, "bob");
    assert!(current_user(&store, &with_cookie("C")).is_none());
    assert!(current_user(&store, &with_basic("Ym9iOmh1bnRlcjI=")).is_none());
    let found = current_user_or_basic(&store, &with_basic("Ym9iOmh1bnRlcjI=")).unwrap();
    assert_eq!(found.username, "bob");
    assert!(current_user_or_basic(&store, &with_basic("Ym9iOmE6Yg==")).is_none());
}

#[test]
fn a_new_installation_has_the_default_admin() {
    let mut store = Store::fresh();
    assert!(store.fresh_setup);
    assert_eq!(store.users.len(), 1);
    assert_eq!(store.users.get("admin").unwrap().username, "admin");
    assert_eq!(store.users.get("admin").unwrap().role, Role::Admin);
    let view = session_view(&store, &no_headers());
    assert!(view.fresh_setup && !view.authenticated && view.user.is_none());
    let wanted = LoginPayload {
        username: DEFAULT_ADMIN.to_string(),
        password: DEFAULT_PASSWORD.to_string(),
    };
    let answer = login(&mut store, &wanted).unwrap();
    assert!(!store.fresh_setup);
    assert!(answer.view.authenticated && !answer.view.fresh_setup);
    assert_eq!(answer.note.detail, "登录成功");
    assert_eq!(answer.note.status, 200);
    let admin = current_user(&store, &with_cookie(&answer.token)).unwrap();
    assert_eq!(admin.role, Role::Admin);
    assert_eq!(admin.permissions.roots, vec!["/".to_string()]);
    assert!(admin.created_at.seconds > 1_600_000_000);
    assert!(admin.created_at.nanos < 2_000_000_000);
}

#[test]
fn login_is_refused_and_changes_nothing() {
    let mut store = small_store();
    let nobody = LoginPayload { username: "eve".to_string(), password: "x".to_string() };
    let e = login(&mut store, &nobody).unwrap_err();
    assert_eq!((e.status, e.message.as_str()), (401, "用户名或密码错误"));
    let n = e.note.unwrap();
    assert_eq!((n.username.as_deref(), n.detail.as_str()), (Some("eve"), "用户名不存在"));
    let wrong = LoginPayload { username: "bob".to_string(), password: "x".to_string() };
    let e = login(&mut store, &wrong).unwrap_err();
    assert_eq!(e.note.unwrap().detail, "密码错误");
    let e = login_with(&mut store, &wrong, false, "T".to_string(), at(9)).unwrap_err();
    assert_eq!(e.status, 401);
    assert_eq!(store.sessions.len(), 2);
}

#[test]
fn login_opens_and_logout_closes_a_session() {
    let mut store = small_store();
    let wanted = LoginPayload { username: "bob".to_string(), password: "hunter2".to_string() };
    let answer = login_with(&mut store, &wanted, true, "T".to_string(), at(9)).unwrap();
    assert_eq!(answer.token, "T");
    assert_eq!(store.sessions.get("T").unwrap().created_at, at(9));
    assert_eq!(current_user(&store, &with_cookie("T")).unwrap().username, "bob");
    let (n, _) = logout(&mut store, &with_cookie("T"));
    assert_eq!((n.username.as_deref(), n.action.as_str(), n.status), (Some("bob"), "logout", 204));
    assert!(current_user(&store, &with_cookie("T")).is_none());
    assert!(current_user(&store, &with_cookie("B")).is_some());
}

#[test]
fn cookies_carry_the_token() {
    assert_eq!(
        session_cookie("T"),
        "rf_session=T; HttpOnly; SameSite=Lax; Path=/; Max-Age=604800"
    );
    assert!(expired_cookie().starts_with("rf_session=; "));
    assert!(expired_cookie().ends_with("Max-Age=0"));
}

#[test]
fn permissions_of_roles() {
    let own = effective_permissions("bob", Role::User, &[], true, false, true);
    assert_eq!(own.roots, vec!["/user/bob".to_string(), "/public".to_string()]);
    assert!(own.can_upload && !own.can_delete && own.can_publish);
    let roots = vec!["docs/".to_string(), "/".to_string()];
    let given = effective_permissions("bob", Role::User, &roots, false, false, false);
    assert_eq!(given.roots, vec!["/docs".to_string(), "/public".to_string()]);
    let roots = vec!["/public".to_string()];
    let public = effective_permissions("bob", Role::User, &roots, false, false, false);
    assert_eq!(public.roots, vec!["/public".to_string()]);
    let admin = effective_permissions("root", Role::Admin, &[], false, false, false);
    assert_eq!(admin.roots, vec!["/".to_string()]);
    assert!(!admin.can_upload && admin.can_delete && admin.can_publish);
    let wanted = payload("  bob ", None, Role::User);
    assert_eq!(permissions_from_payload(&wanted).roots[0], "/user/bob");
}

#[test]
fn users_read_their_own_directories() {
    let bob = user("bob", "x", Role::User);
    assert!(can_read(&bob, "/user/bob"));
    assert!(can_read(&bob, "/user/bob/a.txt"));
    assert!(can_read(&bob, "/public/x"));
    assert!(!can_read(&bob, "/user/bobby"));
    assert!(!can_read(&bob, "/publication"));
    assert!(!can_read(&bob, "/"));
    assert!(can_read(&user("root", "x", Role::Admin), "/anything"));
}

#[test]
fn payloads_make_users() {
    let wanted = payload(" bob ", Some("pw"), Role::User);
    let made = user_from_payload_with_hash(&wanted, "HASH".to_string(), at(3));
    assert_eq!((made.username.as_str(), made.password_hash.as_str()), ("bob", "HASH"));
    assert_eq!(made.created_at, at(3));
    let made = user_from_payload(&wanted);
    assert!(verify_password("pw", &made.password_hash));
    let made = user_from_payload(&payload("x", None, Role::Admin));
    assert!(verify_password(DEFAULT_PASSWORD, &made.password_hash));
    let view = UserView::from(&made);
    assert_eq!((view.username.as_str(), view.role), ("x", Role::Admin));
}

#[test]
fn only_admins_manage_users() {
    let mut store = small_store();
    let bob = with_cookie("B");
    let none = no_headers();
    let wanted = payload("new", Some("pw"), Role::User);
    let logs: Vec<AuditLog> = Vec::new();
    let sign_in_first = (401, "请先登录".to_string());
    assert_eq!(refused(list_users(&store, &none)), sign_in_first);
    assert_eq!(refused(list_users(&store, &bob)), (403, "只有管理员可以访问后台".to_string()));
    assert_eq!(refused(list_audit_logs(&store, &none, &logs)), sign_in_first);
    assert_eq!(
        refused(list_audit_logs(&store, &bob, &logs)),
        (403, "只有管理员可以查看活动记录".to_string())
    );
    assert_eq!(refused(prepare_user(&store, &none, "/f", &wanted)), sign_in_first);
    assert_eq!(
        refused(prepare_user(&store, &bob, "/f", &wanted)),
        (403, "只有管理员可以创建用户".to_string())
    );
    assert_eq!(refused(plan_change(&store, &none, "/f", "bob", &wanted)), sign_in_first);
    assert_eq!(
        refused(plan_change(&store, &bob, "/f", "bob", &wanted)),
        (403, "只有管理员可以修改用户".to_string())
    );
    assert_eq!(refused(delete_user(&mut store, &none, "bob")), sign_in_first);
    assert_eq!(
        refused(delete_user(&mut store, &bob, "bob")),
        (403, "只有管理员可以删除用户".to_string())
    );
    assert_eq!(store.users.len(), 2);
}

#[test]
fn users_are_listed_by_name() {
    let mut store = small_store();
    store.users.insert("Zed".to_string(), user("Zed", "x", Role::User));
    store.users.insert("alice".to_string(), user("alice", "x", Role::User));
    let names: Vec<String> =
        list_users(&store, &with_cookie("A")).unwrap().into_iter().map(|u| u.username).collect();
    assert_eq!(names, vec!["Zed", "admin", "alice", "bob"]);
}

#[test]
fn users_are_created() {
    let mut store = small_store();
    let admin = with_cookie("A");
    let empty = (400, "用户名和密码不能为空".to_string());
    assert_eq!(refused(check_new_user(&store, &admin, &payload("  ", Some("x"), Role::User))), empty);
    assert_eq!(refused(check_new_user(&store, &admin, &payload("n", None, Role::User))), empty);
    assert_eq!(refused(check_new_user(&store, &admin, &payload("n", Some(""), Role::User))), empty);
    assert_eq!(
        refused(check_new_user(&store, &admin, &payload("bob", Some("x"), Role::User))),
        (409, "用户已存在".to_string())
    );
    let wanted = payload(" carol ", Some("pw"), Role::User);
    let new = prepare_user(&store, &admin, "/files", &wanted).unwrap();
    assert_eq!(new.admin, "admin");
    assert_eq!(new.directories, vec!["/files/user/carol", "/files/public"]);
    let (view, n) = add_user(&mut store, &new.admin, new.user);
    assert_eq!(view.username, "carol");
    assert_eq!((n.action.as_str(), n.status, n.detail.as_str()), ("create_user", 201, "创建用户 carol"));
    assert!(verify_password("pw", &store.users.get("carol").unwrap().password_hash));
    let wanted = LoginPayload { username: "carol".to_string(), password: "pw".to_string() };
    assert!(login(&mut store, &wanted).is_ok());
}

#[test]
fn users_are_changed() {
    let mut store = small_store();
    let admin = with_cookie("A");
    let plan = |store: &Store, name: &str, p: &UserPayload| plan_change(store, &admin, "/f", name, p);
    assert_eq!(
        refused(plan(&store, "bob", &payload(" ", None, Role::User))),
        (400, "用户名不能为空".to_string())
    );
    assert_eq!(
        refused(plan(&store, "bob", &payload("admin", None, Role::User))),
        (409, "用户名已存在".to_string())
    );
    assert_eq!(
        refused(plan(&store, "eve", &payload("eve", None, Role::User))),
        (404, "用户不存在".to_string())
    );
    assert_eq!(
        refused(plan(&store, "admin", &payload("admin", None, Role::User))),
        (400, "至少需要保留一个管理员".to_string())
    );
    let wanted = payload("robert", None, Role::User);
    let change = plan(&store, "bob", &wanted).unwrap();
    assert_eq!(change.admin, "admin");
    assert_eq!(change.directories, vec!["/f/user/robert", "/f/public"]);
    let before = store.users.get("bob").unwrap().password_hash.clone();
    let view = apply_change(&mut store, "bob", &wanted).unwrap();
    assert_eq!(view.username, "robert");
    assert!(!store.users.contains_key("bob"));
    assert_eq!(store.users.get("robert").unwrap().password_hash, before);
    assert_eq!(store.users.get("robert").unwrap().created_at, at(7));
    assert_eq!(current_user(&store, &with_cookie("B")).unwrap().username, "robert");
    assert_eq!(current_user(&store, &with_cookie("A")).unwrap().username, "admin");
    let n = note_change("admin", "robert");
    assert_eq!((n.action.as_str(), n.detail.as_str()), ("update_user", "修改用户 robert"));
    let wanted = payload("robert", Some("new"), Role::Admin);
    apply_change(&mut store, "robert", &wanted).unwrap();
    assert!(verify_password("new", &store.users.get("robert").unwrap().password_hash));
    apply_change_with(&mut store, "robert", &wanted, Some("H".to_string())).unwrap();
    assert_eq!(store.users.get("robert").unwrap().password_hash, "H");
    assert_eq!(refused(apply_change(&mut store, "bob", &wanted)).0, 404);
    assert!(plan_change(&store, &admin, "/f", "admin", &payload("admin", None, Role::User)).is_ok());
}

#[test]
fn users_are_deleted_with_their_sessions() {
    let mut store = small_store();
    let admin = with_cookie("A");
    assert_eq!(refused(delete_user(&mut store, &admin, "eve")), (404, "用户不存在".to_string()));
    assert_eq!(
        refused(delete_user(&mut store, &admin, "admin")),
        (400, "至少需要保留一个管理员".to_string())
    );
    let n = delete_user(&mut store, &admin, "bob").unwrap();
    assert_eq!((n.action.as_str(), n.status, n.detail.as_str()), ("delete_user", 204, "删除用户 bob"));
    assert!(!store.users.contains_key("bob"));
    assert!(!store.sessions.contains_key("B"));
    assert!(store.sessions.contains_key("A"));
}

#[test]
fn the_record_keeps_the_newest() {
    let store = small_store();
    let mut logs: Vec<AuditLog> = Vec::new();
    let mut headers = no_headers();
    headers.real_ip = Some(b"10.0.0.1".to_vec());
    for i in 0..1005 {
        let n = note(Some("bob".to_string()), "x", None, 204, &format!("{i}"));
        record_audit_at(&mut logs, &headers, n, at(i));
    }
    assert_eq!(logs.len(), 1000);
    assert_eq!(logs[0].detail, "5");
    let shown = recent_logs(&logs);
    assert_eq!(shown.len(), 200);
    assert_eq!(shown[0].detail, "1004");
    assert_eq!(shown[0].status, "204");
    assert_eq!(shown[0].ip.as_deref(), Some("10.0.0.1"));
    assert_eq!(shown[199].detail, "805");
    let shown = list_audit_logs(&store, &with_cookie("A"), &logs).unwrap();
    assert_eq!(shown.len(), 200);
    record_audit(&mut logs, &headers, note(None, "y", Some("/p".to_string()), 404, "d"));
    assert_eq!(logs.len(), 1000);
    assert_eq!(logs[999].action, "y");
    assert!(logs[999].at.seconds > 1_600_000_000);
}
