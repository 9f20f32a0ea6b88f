//! Signing in and signing out.

use crate::account;
use crate::account::{UserModel, UserView, UserViewModel};
use crate::audit;
use crate::audit::{AuditNote, NoteModel};
use crate::clock;
use crate::clock::Timestamp;
use crate::headers;
use crate::headers::{HeadersModel, RequestHeaders};
use crate::reply;
use crate::reply::{Refusal, RefusalModel};
use crate::secrets;
use crate::store;
use crate::store::{Session, SessionModel, Store, StoreModel};
use crate::text;
use vstd::prelude::*;

verus! {

/// What a client is told of its session.
#[derive(Debug)]
pub struct SessionView {
    pub authenticated: bool,
    pub user: Option<UserView>,
    pub fresh_setup: bool,
}

/// What a client is told of its session.
#[verifier::ext_equal]
pub struct SessionViewModel {
    pub authenticated: bool,
    pub user: Option<UserViewModel>,
    pub fresh_setup: bool,
}

impl View for SessionView {
    type V = SessionViewModel;

    open spec fn view(&self) -> SessionViewModel {
        SessionViewModel {
            authenticated: self.authenticated,
            user: text::opt_view(self.user),
            fresh_setup: self.fresh_setup,
        }
    }
}

/// A name and a password.
#[derive(Debug)]
pub struct LoginPayload {
    pub username: String,
    pub password: String,
}

/// A name and a password.
#[verifier::ext_equal]
pub struct LoginPayloadModel {
    pub username: Seq<char>,
    pub password: Seq<char>,
}

impl View for LoginPayload {
    type V = LoginPayloadModel;

    open spec fn view(&self) -> LoginPayloadModel {
        LoginPayloadModel { username: self.username@, password: self.password@ }
    }
}

/// The answer to a client that has signed in.
#[derive(Debug)]
pub struct LoginReply {
    pub token: String,
    pub view: SessionView,
    pub note: AuditNote,
}

/// The answer to a client that has signed in.
#[verifier::ext_equal]
pub struct LoginReplyModel {
    pub token: Seq<char>,
    pub view: SessionViewModel,
    pub note: NoteModel,
}

impl View for LoginReply {
    type V = LoginReplyModel;

    open spec fn view(&self) -> LoginReplyModel {
        LoginReplyModel { token: self.token@, view: self.view@, note: self.note@ }
    }
}

/// What a client is told of its session, given its user.
pub open spec fn session_shown(user: Option<UserModel>, fresh_setup: bool) -> SessionViewModel {
    SessionViewModel {
        authenticated: user is Some,
        user: match user {
            Some(u) => Some(account::shown_user(u)),
            None => None,
        },
        fresh_setup,
    }
}

/// Whether a name and a password belong to one user.
pub open spec fn password_right(store: StoreModel, payload: LoginPayloadModel) -> bool {
    match store::found(store.users, payload.username) {
        Some(user) => secrets::password_matches(payload.password, user.password_hash),
        None => false,
    }
}

/// The answer to a client that signs in, given whether its password is right
/// and the token of its session.
pub open spec fn login_answer(
    store: StoreModel,
    payload: LoginPayloadModel,
    password_ok: bool,
    token: Seq<char>,
) -> Result<LoginReplyModel, RefusalModel> {
    match store::found(store.users, payload.username) {
        None => Err(
            reply::refused_with(
                401,
                "用户名或密码错误"@,
                audit::noted(Some(payload.username), "login"@, None, 401, "用户名不存在"@),
            ),
        ),
        Some(user) => if !password_ok {
            Err(
                reply::refused_with(
                    401,
                    "用户名或密码错误"@,
                    audit::noted(Some(user.username), "login"@, None, 401, "密码错误"@),
                ),
            )
        } else {
            Ok(
                LoginReplyModel {
                    token,
                    view: session_shown(Some(user), false),
                    note: audit::noted(Some(user.username), "login"@, None, 200, "登录成功"@),
                },
            )
        },
    }
}

/// What is remembered after a client has signed in or was refused.
pub open spec fn after_login(
    store: StoreModel,
    payload: LoginPayloadModel,
    password_ok: bool,
    token: Seq<char>,
    now: Timestamp,
) -> StoreModel {
    match store::found(store.users, payload.username) {
        Some(user) if password_ok => StoreModel {
            sessions: store.sessions.insert(
                token,
                SessionModel { username: user.username, created_at: now },
            ),
            fresh_setup: false,
            ..store
        },
        _ => store,
    }
}

/// What is remembered after a client has signed out.
pub open spec fn after_logout(store: StoreModel, headers: HeadersModel) -> StoreModel {
    match headers::token_of(headers) {
        Some(token) => StoreModel { sessions: store.sessions.remove(token), ..store },
        None => store,
    }
}

/// The note of a client that has signed out.
pub open spec fn logout_note(store: StoreModel, headers: HeadersModel) -> NoteModel {
    let username = match store::signed_in(store, headers) {
        Some(user) => Some(user.username),
        None => None,
    };
    audit::noted(username, "logout"@, None, 204, "退出登录"@)
}

/// The cookie that carries a session for a week.
pub open spec fn cookie_for(token: Seq<char>) -> Seq<char> {
    "rf_session="@ + token + "; HttpOnly; SameSite=Lax; Path=/; Max-Age=604800"@
}

/// What a client is told of its session.
pub fn session_view(store: &Store, headers: &RequestHeaders) -> (r: SessionView)
    ensures
        r@ == session_shown(store::signed_in(store@, headers@), store@.fresh_setup),
{
    match store::current_user(store, headers) {
        Some(user) => SessionView {
            authenticated: true,
            user: Some(UserView::from(&user)),
            fresh_setup: store.fresh_setup,
        },
        None => SessionView { authenticated: false, user: None, fresh_setup: store.fresh_setup },
    }
}

/// Signs a client in, given whether its password is right, the token of its
/// session and the time.
pub fn login_with(
    store: &mut Store,
    payload: &LoginPayload,
    password_ok: bool,
    token: String,
    now: Timestamp,
) -> (r: Result<LoginReply, Refusal>)
    ensures
        text::result_view(r) == login_answer(old(store)@, payload@, password_ok, token@),
        final(store)@ == after_login(old(store)@, payload@, password_ok, token@, now),
{
    let (username, view): (String, UserView) = match store.users.get(&payload.username) {
        Some(user) => (user.username.clone(), UserView::from(user)),
        None => {
            return Err(
                reply::error_with(
                    401,
                    "用户名或密码错误",
                    audit::note(
                        Some(payload.username.clone()),
                        "login",
                        None,
                        401,
                        "用户名不存在",
                    ),
                ),
            );
        },
    };
    if !password_ok {
        return Err(
            reply::error_with(
                401,
                "用户名或密码错误",
                audit::note(Some(username), "login", None, 401, "密码错误"),
            ),
        );
    }
    store.sessions.insert(
        token.clone(),
        Session { username: username.clone(), created_at: now },
    );
    store.fresh_setup = false;
    Ok(
        LoginReply {
            token,
            view: SessionView { authenticated: true, user: Some(view), fresh_setup: false },
            note: audit::note(Some(username), "login", None, 200, "登录成功"),
        },
    )
}

/// Whether a name and a password belong to one user.
fn check_password(store: &Store, payload: &LoginPayload) -> (r: bool)
    ensures
        r == password_right(store@, payload@),
{
    match store.users.get(&payload.username) {
        Some(user) => secrets::verify_password(&payload.password, &user.password_hash),
        None => false,
    }
}

/// Signs a client in, under a new random token.
pub fn login(store: &mut Store, payload: &LoginPayload) -> (r: Result<LoginReply, Refusal>)
    ensures
        exists|token: Seq<char>, now: Timestamp|
            secrets::is_token(token) && text::result_view(r) == login_answer(
                old(store)@,
                payload@,
                password_right(old(store)@, payload@),
                token,
            ) && final(store)@ == #[trigger] after_login(
                old(store)@,
                payload@,
                password_right(old(store)@, payload@),
                token,
                now,
            ),
{
    let password_ok: bool = check_password(store, payload);
    let token: String = secrets::random_token();
    let now: Timestamp = clock::now();
    let ghost t = token@;
    let r: Result<LoginReply, Refusal> = login_with(store, payload, password_ok, token, now);
    assert(store@ == after_login(
        old(store)@,
        payload@,
        password_right(old(store)@, payload@),
        t,
        now,
    ));
    r
}

/// Signs a client out. The second result says whether something is to be
/// saved.
pub fn logout(store: &mut Store, headers: &RequestHeaders) -> (r: (AuditNote, bool))
    ensures
        r.0@ == logout_note(old(store)@, headers@),
        r.1 == (headers::token_of(headers@) is Some),
        final(store)@ == after_logout(old(store)@, headers@),
{
    let username: Option<String> = match store::current_user(store, headers) {
        Some(user) => Some(user.username),
        None => None,
    };
    let note: AuditNote = audit::note(username, "logout", None, 204, "退出登录");
    match headers::session_token(headers) {
        Some(token) => {
            let _ = store.sessions.remove(&token);
            (note, true)
        },
        None => (note, false),
    }
}

/// The cookie that carries a session for a week.
pub fn session_cookie(token: &str) -> (r: String)
    ensures
        r@ == cookie_for(token@),
{
    text::concat(
        &text::concat("rf_session=", token),
        "; HttpOnly; SameSite=Lax; Path=/; Max-Age=604800",
    )
}

/// The cookie that ends a session.
pub fn expired_cookie() -> (r: String)
    ensures
        r@ == "rf_session=; HttpOnly; SameSite=Lax; Path=/; Max-Age=0"@,
{
    "rf_session=; HttpOnly; SameSite=Lax; Path=/; Max-Age=0".to_owned()
}

/// A client that has signed in is known by its token as the user whose name
/// its session holds, until it signs out.
pub proof fn lemma_login_opens_session(
    store: StoreModel,
    payload: LoginPayloadModel,
    token: Seq<char>,
    now: Timestamp,
)
    requires
        store.users.contains_key(payload.username),
        store.users[payload.username].username == payload.username,
    ensures
        store::session_user(after_login(store, payload, true, token, now), token) == Some(
            store.users[payload.username],
        ),
        login_answer(store, payload, true, token) is Ok,
{
}

/// A client that was refused has opened no session and changed nothing.
pub proof fn lemma_refused_login_changes_nothing(
    store: StoreModel,
    payload: LoginPayloadModel,
    password_ok: bool,
    token: Seq<char>,
    now: Timestamp,
)
    requires
        login_answer(store, payload, password_ok, token) is Err,
    ensures
        after_login(store, payload, password_ok, token, now) == store,
        !store.users.contains_key(payload.username) || !password_ok,
        login_answer(store, payload, password_ok, token)->Err_0.status == 401,
        login_answer(store, payload, password_ok, token)->Err_0.message == "用户名或密码错误"@,
{
}

/// A client that has signed out is no longer known, and every other session
/// stays open.
pub proof fn lemma_logout_closes_session(
    store: StoreModel,
    headers: HeadersModel,
    other: Seq<char>,
)
    ensures
        store::signed_in(after_logout(store, headers), headers) is None,
        headers::token_of(headers) != Some(other) ==> store::session_user(
            after_logout(store, headers),
            other,
        ) == store::session_user(store, other),
{
}

/// A text that neither starts nor ends in white space is not trimmed.
proof fn lemma_trimmed_is_same(s: Seq<char>)
    requires
        s.len() > 0,
        !text::white_space(s[0]),
        !text::white_space(s.last()),
    ensures
        text::trimmed(s) == s,
{
}

proof fn lemma_first_token(parts: Seq<Seq<char>>, i: int)
    requires
        0 <= i < parts.len(),
        headers::token_in_part(parts[i]) is Some,
        forall|j: int| 0 <= j < i ==> headers::token_in_part(#[trigger] parts[j]) is None,
    ensures
        headers::first_token(parts) == headers::token_in_part(parts[i]),
    decreases i,
{
    if i > 0 {
        let rest = parts.drop_first();
        assert(headers::token_in_part(parts[0]) is None);
        assert forall|j: int| 0 <= j < i - 1 implies headers::token_in_part(
            #[trigger] rest[j],
        ) is None by {
            assert(rest[j] == parts[j + 1]);
        }
        lemma_first_token(rest, i - 1);
    }
}

/// A request carries the token in the first part of its cookie header that is
/// named `rf_session`, whatever other parts there are and whatever white space
/// stands around it.
pub proof fn lemma_cookie_carries_token(
    headers: HeadersModel,
    cookie: Seq<char>,
    i: int,
    token: Seq<char>,
)
    requires
        headers::header_text(headers.cookie) == Some(cookie),
        0 <= i < text::pieces(cookie, ';').len(),
        text::trimmed(text::pieces(cookie, ';')[i]) == "rf_session="@ + token,
        forall|j: int|
            0 <= j < i ==> headers::token_in_part(#[trigger] text::pieces(cookie, ';')[j]) is None,
    ensures
        headers::token_of(headers) == Some(token),
{
    reveal_strlit("rf_session=");
    reveal_strlit("rf_session");
    assert("rf_session="@ + token =~= "rf_session"@ + seq!['='] + token);
    text::lemma_cut("rf_session"@, '=', token);
    lemma_first_token(text::pieces(cookie, ';'), i);
}

/// A request whose cookie header is the cookie of a session carries the token of
/// the session.
pub proof fn lemma_lone_cookie_carries_token(headers: HeadersModel, token: Seq<char>)
    requires
        secrets::is_token(token),
        headers::header_text(headers.cookie) == Some("rf_session="@ + token),
    ensures
        headers::token_of(headers) == Some(token),
{
    reveal_strlit("rf_session=");
    reveal_strlit("rf_session");
    let s = "rf_session="@ + token;
    secrets::lemma_token_symbols(token);
    assert forall|i: int| 0 <= i < token.len() implies token[i] != ';' && !text::white_space(
        token[i],
    ) by {
        let n = choose|n: int| 0 <= n < 64 && token[i] == secrets::base64_symbol(n, false);
        assert(token[i] == secrets::base64_symbol(n, false));
    }
    assert forall|i: int| 0 <= i < s.len() implies s[i] != ';' by {
        if i >= 11 {
            assert(s[i] == token[i - 11]);
        }
    }
    assert(s.last() == token[42]);
    text::lemma_pieces_single(s, ';');
    lemma_trimmed_is_same(s);
    assert(text::pieces(s, ';')[0] == s);
    lemma_cookie_carries_token(headers, s, 0, token);
}

/// The default administrator of a new installation can sign in with the
/// default password.
pub proof fn lemma_default_admin_can_sign_in(admin: UserModel)
    requires
        secrets::is_hash_of(account::DEFAULT_PASSWORD@, admin.password_hash),
    ensures
        password_right(
            store::fresh_store(admin),
            (LoginPayloadModel {
                username: account::DEFAULT_ADMIN@,
                password: account::DEFAULT_PASSWORD@,
            }),
        ),
{
    secrets::lemma_hash_matches(account::DEFAULT_PASSWORD@, admin.password_hash);
}

/// A client is told whether it is signed in, and as whom.
pub proof fn lemma_session_is_shown(store: StoreModel, headers: HeadersModel)
    ensures
        ({
            let view = session_shown(store::signed_in(store, headers), store.fresh_setup);
            &&& view.fresh_setup == store.fresh_setup
            &&& view.authenticated == (store::signed_in(store, headers) is Some)
            &&& match store::signed_in(store, headers) {
                Some(user) => view.user matches Some(shown) && shown.username == user.username
                    && shown.role == user.role && shown.permissions == user.permissions
                    && shown.created_at == user.created_at,
                None => view.user is None,
            }
        }),
{
}

/// A client signs in exactly where there is a user of that name and the password
/// matches. It is given the token, told who it is, and noted.
pub proof fn lemma_login(
    store: StoreModel,
    payload: LoginPayloadModel,
    password_ok: bool,
    token: Seq<char>,
    now: Timestamp,
)
    ensures
        password_right(store, payload) <==> store.users.contains_key(payload.username)
            && secrets::password_matches(
            payload.password,
            store.users[payload.username].password_hash,
        ),
        login_answer(store, payload, password_ok, token) is Ok <==> store.users.contains_key(
            payload.username,
        ) && password_ok,
        login_answer(store, payload, password_ok, token) matches Ok(reply) ==> {
            let user = store.users[payload.username];
            &&& reply.token == token
            &&& reply.view.authenticated && !reply.view.fresh_setup
            &&& reply.view.user == Some(account::shown_user(user))
            &&& reply.note.username == Some(user.username) && reply.note.action == "login"@
            &&& reply.note.path is None && reply.note.status == 200 && reply.note.detail
                == "登录成功"@
        },
        login_answer(store, payload, password_ok, token) matches Err(e) ==> {
            &&& e.status == 401 && e.message == "用户名或密码错误"@ && !e.challenge
            &&& e.note matches Some(note) && note.action == "login"@ && note.path is None
                && note.status == 401 && note.detail == (if store.users.contains_key(
                payload.username,
            ) {
                "密码错误"@
            } else {
                "用户名不存在"@
            }) && note.username == Some(
                if store.users.contains_key(payload.username) {
                    store.users[payload.username].username
                } else {
                    payload.username
                },
            )
        },
        ({
            let after = after_login(store, payload, password_ok, token, now);
            &&& after.users == store.users && after.public_files == store.public_files
            &&& after.public_copies == store.public_copies && after.file_grants
                == store.file_grants
            &&& after.download_counts == store.download_counts
            &&& forall|other: Seq<char>|
                other != token ==> (#[trigger] after.sessions.contains_key(other)
                    <==> store.sessions.contains_key(other)) && (store.sessions.contains_key(other)
                    ==> after.sessions[other] == store.sessions[other])
            &&& store.users.contains_key(payload.username) && password_ok ==> !after.fresh_setup
                && after.sessions.contains_key(token) && after.sessions[token].created_at == now
                && after.sessions[token].username == store.users[payload.username].username
        }),
{
}

/// Signing out ends the session of the request and nothing else, and notes who
/// it was.
pub proof fn lemma_logout(store: StoreModel, headers: HeadersModel, token: Seq<char>)
    ensures
        ({
            let after = after_logout(store, headers);
            &&& after.users == store.users && after.public_files == store.public_files
            &&& after.public_copies == store.public_copies && after.file_grants
                == store.file_grants
            &&& after.download_counts == store.download_counts && after.fresh_setup
                == store.fresh_setup
            &&& after.sessions.contains_key(token) <==> store.sessions.contains_key(token)
                && headers::token_of(headers) != Some(token)
            &&& after.sessions.contains_key(token) ==> after.sessions[token]
                == store.sessions[token]
        }),
        ({
            let note = logout_note(store, headers);
            &&& note.action == "logout"@ && note.path is None && note.status == 204 && note.detail
                == "退出登录"@
            &&& match store::signed_in(store, headers) {
                Some(user) => note.username == Some(user.username),
                None => note.username is None,
            }
        }),
{
}

/// The cookie of a session gives the token to `rf_session`, for a week, on every
/// path, out of reach of scripts and of other sites.
pub proof fn lemma_session_cookie(token: Seq<char>)
    requires
        !token.contains(';'),
    ensures
        text::pieces(cookie_for(token), ';') == seq![
            "rf_session="@ + token,
            " HttpOnly"@,
            " SameSite=Lax"@,
            " Path=/"@,
            " Max-Age=604800"@,
        ],
{
    reveal_strlit("rf_session=");
    reveal_strlit("; HttpOnly; SameSite=Lax; Path=/; Max-Age=604800");
    reveal_strlit(" HttpOnly");
    reveal_strlit(" SameSite=Lax");
    reveal_strlit(" Path=/");
    reveal_strlit(" Max-Age=604800");
    let first = "rf_session="@ + token;
    assert forall|i: int| 0 <= i < first.len() implies first[i] != ';' by {
        if i >= 11 {
            assert(first[i] == token[i - 11]);
            assert(token.contains(token[i - 11]));
        }
    }
    let d = " Path=/"@ + seq![';'] + " Max-Age=604800"@;
    let c = " SameSite=Lax"@ + seq![';'] + d;
    let b = " HttpOnly"@ + seq![';'] + c;
    assert(cookie_for(token) =~= first + seq![';'] + b);
    text::lemma_pieces_concat(first, ';', b);
    text::lemma_pieces_concat(" HttpOnly"@, ';', c);
    text::lemma_pieces_concat(" SameSite=Lax"@, ';', d);
    text::lemma_pieces_concat(" Path=/"@, ';', " Max-Age=604800"@);
    text::lemma_pieces_single(first, ';');
    text::lemma_pieces_single(" HttpOnly"@, ';');
    text::lemma_pieces_single(" SameSite=Lax"@, ';');
    text::lemma_pieces_single(" Path=/"@, ';');
    text::lemma_pieces_single(" Max-Age=604800"@, ';');
    assert(text::pieces(cookie_for(token), ';') =~= seq![
        first,
        " HttpOnly"@,
        " SameSite=Lax"@,
        " Path=/"@,
        " Max-Age=604800"@,
    ]);
}

} // verus!
