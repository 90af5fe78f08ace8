//! The users of all projects and the sessions that they have opened.
use crate::accounts::{
    after_deletions, credentials_refused, is_asked_for, synced, taken, text_or_null,
    upsert_provider_spec, user_json_spec, AccountView, User, UserView, UsersView,
};
use crate::broker::{is_uuid_char, random_id};
use crate::encoding::{
    text_of_utf8, url_base64_bytes, url_base64_decode, url_base64_encode, url_base64_text,
};
use crate::json::{
    at, empty_object, is_plain_json, items_view, json_of_text, object1, parse_json, text_of_json,
    with_member, write_json, Json, JsonView,
};
use crate::multipart::same_but_case;
use crate::ordered::{keep_entries, lookup, put, without, OrderedMap};
use crate::storage::uuid_of_text;
use crate::text::{
    after_prefix, cat, cat3, decimal_spec, parse_unsigned_spec, split, split_spec, strip_prefix,
    texts,
};
use crate::timestamps::{now_millis, unix_now};
use crate::web_values::single;
use vstd::prelude::*;
use vstd::utf8::{
    decode_utf8, encode_utf8, encode_utf8_decode_utf8, encode_utf8_valid_utf8, valid_utf8,
};

verus! {

/// How many seconds an id token is good for.
pub const ID_TOKEN_TTL_SECS: u64 = 3600;

/// How many seconds a refresh token is good for.
pub const REFRESH_TOKEN_TTL_SECS: u64 = 2_592_000;

/// What a session's token is for.
#[derive(Clone, Copy, PartialEq, Eq, Debug, Structural)]
pub enum SessionKind {
    IdToken,
    RefreshToken,
}

/// A token that was handed out.
pub struct AuthSession {
    pub namespace: String,
    pub uid: String,
    pub issued_at: u64,
    pub expires_at: u64,
    pub kind: SessionKind,
}

/// What an [`AuthSession`] stands for.
#[verifier::ext_equal]
pub struct AuthSessionView {
    pub namespace: Seq<char>,
    pub uid: Seq<char>,
    pub issued_at: u64,
    pub expires_at: u64,
    pub kind: SessionKind,
}

impl View for AuthSession {
    type V = AuthSessionView;

    open spec fn view(&self) -> AuthSessionView {
        AuthSessionView {
            namespace: self.namespace@,
            uid: self.uid@,
            issued_at: self.issued_at,
            expires_at: self.expires_at,
            kind: self.kind,
        }
    }
}

/// The users by namespace and id, and the sessions by token.
pub struct Auth {
    pub users: OrderedMap<OrderedMap<User>>,
    pub sessions: OrderedMap<AuthSession>,
}

/// What an [`Auth`] stands for.
#[verifier::ext_equal]
pub struct AuthView {
    pub users: Seq<(Seq<char>, UsersView)>,
    pub sessions: Seq<(Seq<char>, AuthSessionView)>,
}

impl View for Auth {
    type V = AuthView;

    open spec fn view(&self) -> AuthView {
        AuthView { users: self.users@, sessions: self.sessions@ }
    }
}

/// The users of a namespace.
pub open spec fn users_of(s: AuthView, namespace: Seq<char>) -> UsersView {
    match lookup(s.users, namespace) {
        Some(users) => users,
        None => Seq::empty(),
    }
}

/// The state with other users in a namespace.
pub open spec fn with_users(s: AuthView, namespace: Seq<char>, users: UsersView) -> AuthView {
    AuthView { users: put(s.users, namespace, users), ..s }
}

/// What is drawn for a request: the present second, the present millisecond
/// as text, and an id and a token at random.
pub struct Draw {
    pub now: u64,
    pub millis: String,
    pub local_id: String,
    pub refresh: String,
}

/// What a [`Draw`] stands for.
pub struct DrawView {
    pub now: u64,
    pub millis: Seq<char>,
    pub local_id: Seq<char>,
    pub refresh: Seq<char>,
}

impl View for Draw {
    type V = DrawView;

    open spec fn view(&self) -> DrawView {
        DrawView {
            now: self.now,
            millis: self.millis@,
            local_id: self.local_id@,
            refresh: self.refresh@,
        }
    }
}

/// Whether something may have been drawn: the millisecond is a number, the id
/// is not empty, and the token is a UUID in its canonical form.
pub open spec fn is_draw(d: DrawView) -> bool {
    &&& exists|millis: nat| d.millis == #[trigger] decimal_spec(millis)
    &&& d.local_id.len() == 32
    &&& d.refresh.len() == 36
    &&& uuid_of_text(d.refresh) == Some(d.refresh)
}

/// Draws the text of `uuid::Uuid::new_v4` without hyphens: 32 hexadecimal
/// digits, chosen at random.
#[verifier::external_body]
fn random_simple_id() -> (r: String)
    ensures
        r@.len() == 32,
        forall|i: int| 0 <= i < 32 ==> is_uuid_char(#[trigger] r@[i]) && r@[i] != '-',
{
    uuid::Uuid::new_v4().simple().to_string()
}

/// Draws what a request needs.
pub fn draw() -> (r: Draw)
    ensures
        is_draw(r@),
{
    Draw {
        now: unix_now(),
        millis: now_millis(),
        local_id: random_simple_id(),
        refresh: random_id(),
    }
}

/// The view of an answer.
pub open spec fn json_result(r: Result<Json, String>) -> Result<JsonView, Seq<char>> {
    match r {
        Ok(v) => Ok(v@),
        Err(e) => Err(e@),
    }
}

/// The JSON of a refusal.
pub open spec fn auth_error_json(message: Seq<char>) -> JsonView {
    let text = JsonView::Text(message);
    let detail = with_member(
        with_member(object1("message"@, text), "domain"@, JsonView::Text("global"@)),
        "reason"@,
        JsonView::Text("invalid"@),
    );
    object1(
        "error"@,
        with_member(
            with_member(object1("code"@, JsonView::Unsigned(400)), "message"@, text),
            "errors"@,
            JsonView::Array(seq![detail]),
        ),
    )
}

/// Writes a refusal as JSON.
pub fn auth_error(message: &str) -> (r: Json)
    ensures
        r@ == auth_error_json(message@),
{
    let detail = single("message", Json::of_text(message)).with(
        "domain",
        Json::of_text("global"),
    ).with("reason", Json::of_text("invalid"));
    let mut errors: Vec<Json> = Vec::new();
    errors.push(detail);
    assert(items_view(errors@) =~= seq![detail@]);
    single(
        "error",
        single("code", Json::Unsigned(400)).with("message", Json::of_text(message)).with(
            "errors",
            Json::array(errors),
        ),
    )
}

/// A list, or another where it is empty.
pub open spec fn or_else_items(first: Seq<JsonView>, second: Seq<JsonView>) -> Seq<JsonView> {
    if first.len() == 0 {
        second
    } else {
        first
    }
}

/// Whether a request disables the user, as the newer name of the wish says,
/// else the older.
pub open spec fn disabling(request: AccountView) -> Option<bool> {
    if request.disable_user is Some {
        request.disable_user
    } else {
        request.disabled
    }
}

/// The user that a request creates.
pub open spec fn created_user(request: AccountView, local_id: Seq<char>, millis: Seq<char>) -> UserView {
    synced(
        UserView {
            local_id,
            password: request.password,
            email: request.email,
            email_verified: request.email_verified == Some(true),
            display_name: request.display_name,
            photo_url: request.photo_url,
            phone_number: request.phone_number,
            disabled: disabling(request) == Some(true),
            custom_attributes: request.custom_attributes,
            provider_user_info: or_else_items(
                request.link_provider_user_info,
                request.provider_user_info,
            ),
            mfa_info: or_else_items(request.mfa, request.mfa_info),
            valid_since: match request.valid_since {
                Some(t) => t,
                None => "0"@,
            },
            created_at: millis,
            last_login_at: millis,
        },
    )
}

/// The id of a user that a request creates.
pub open spec fn created_id(request: AccountView, d: DrawView) -> Seq<char> {
    match request.local_id {
        Some(id) => id,
        None => d.local_id,
    }
}

/// The user that a request creates among some, or why it is refused.
pub open spec fn creation(users: UsersView, request: AccountView, d: DrawView) -> Result<
    UserView,
    Seq<char>,
> {
    let id = created_id(request, d);
    match credentials_refused(request.email, request.password) {
        Some(e) => Err(e),
        None => if id.len() == 0 {
            Err("INVALID_LOCAL_ID"@)
        } else if lookup(users, id) is Some {
            Err("DUPLICATE_LOCAL_ID"@)
        } else {
            match taken(users, request.email, request.phone_number, None, 0) {
                Some(e) => Err(e),
                None => Ok(created_user(request, id, d.millis)),
            }
        },
    }
}

/// The state after a request to create an account, and the answer.
pub open spec fn create_account_spec(
    s: AuthView,
    namespace: Seq<char>,
    request: AccountView,
    d: DrawView,
) -> (AuthView, Result<JsonView, Seq<char>>) {
    let users = users_of(s, namespace);
    match creation(users, request, d) {
        Err(e) => (s, Err(e)),
        Ok(user) => (
            with_users(s, namespace, put(users, user.local_id, user)),
            Ok(user_json_spec(user)),
        ),
    }
}

/// What was there, or what takes its place.
pub open spec fn replaced<T>(old: Option<T>, new: Option<T>) -> Option<T> {
    if new is Some {
        new
    } else {
        old
    }
}

/// The providers with the first `n` of some more.
pub open spec fn linked(providers: Seq<JsonView>, more: Seq<JsonView>, n: nat) -> Seq<JsonView>
    decreases n,
{
    if n == 0 || n > more.len() {
        providers
    } else {
        upsert_provider_spec(linked(providers, more, (n - 1) as nat), more[n - 1])
    }
}

/// A user after a request to update the account.
pub open spec fn updated_user(user: UserView, request: AccountView) -> UserView {
    let user = after_deletions(user, request.delete_attribute, request.delete_provider);
    let providers = linked(
        user.provider_user_info,
        request.link_provider_user_info,
        request.link_provider_user_info.len(),
    );
    synced(
        UserView {
            password: replaced(user.password, request.password),
            email: replaced(user.email, request.email),
            email_verified: match request.email_verified {
                Some(verified) => verified,
                None => user.email_verified,
            },
            display_name: replaced(user.display_name, request.display_name),
            photo_url: replaced(user.photo_url, request.photo_url),
            phone_number: replaced(user.phone_number, request.phone_number),
            disabled: match disabling(request) {
                Some(value) => value,
                None => user.disabled,
            },
            custom_attributes: replaced(user.custom_attributes, request.custom_attributes),
            valid_since: match request.valid_since {
                Some(value) => value,
                None => user.valid_since,
            },
            provider_user_info: or_else_items(request.provider_user_info, providers),
            mfa_info: or_else_items(request.mfa, or_else_items(request.mfa_info, user.mfa_info)),
            ..user
        },
    )
}

/// The user after a request to update an account among some, or why the
/// request is refused.
pub open spec fn updating(users: UsersView, local_id: Option<Seq<char>>, request: AccountView) -> Result<
    UserView,
    Seq<char>,
> {
    match credentials_refused(request.email, request.password) {
        Some(e) => Err(e),
        None => match local_id {
            None => Err("MISSING_LOCAL_ID"@),
            Some(id) => match lookup(users, id) {
                None => Err("USER_NOT_FOUND"@),
                Some(user) => match taken(
                    users,
                    request.email,
                    request.phone_number,
                    Some(id),
                    0,
                ) {
                    Some(e) => Err(e),
                    None => Ok(updated_user(user, request)),
                },
            },
        },
    }
}

/// A number of seconds after a time, at most the largest.
pub open spec fn later(now: u64, seconds: u64) -> u64 {
    if now > u64::MAX - seconds {
        u64::MAX
    } else {
        (now + seconds) as u64
    }
}

pub(crate) fn later_than(now: u64, seconds: u64) -> (r: u64)
    ensures
        r == later(now, seconds),
{
    if now > u64::MAX - seconds {
        u64::MAX
    } else {
        now + seconds
    }
}

/// The project of a namespace.
pub open spec fn project_of(namespace: Seq<char>) -> Seq<char> {
    match after_prefix(namespace, "project/"@) {
        Some(project) => project,
        None => namespace,
    }
}

/// The custom claims that attributes stand for, given what they were parsed
/// to: an object, else none.
pub open spec fn custom_claims(parsed: Option<JsonView>) -> JsonView {
    match parsed {
        Some(v) => if v is Object {
            v
        } else {
            empty_object()
        },
        None => empty_object(),
    }
}

/// The identities of a user.
pub open spec fn identities_json(email: Option<Seq<char>>) -> JsonView {
    match email {
        Some(e) => object1("email"@, JsonView::Array(seq![JsonView::Text(e)])),
        None => empty_object(),
    }
}

/// What a token says of how its user signed in.
pub open spec fn firebase_json(user: UserView) -> JsonView {
    with_member(
        object1("identities"@, identities_json(user.email)),
        "sign_in_provider"@,
        JsonView::Text(
            if user.password is Some {
                "password"@
            } else {
                "anonymous"@
            },
        ),
    )
}

/// The claims of an id token: the custom ones, and the standard ones in place
/// of any of the same names.
pub open spec fn claims_spec(
    namespace: Seq<char>,
    user: UserView,
    now: u64,
    parsed: Option<JsonView>,
) -> JsonView {
    let project = project_of(namespace);
    let v = custom_claims(parsed);
    let v = with_member(v, "iss"@, JsonView::Text("https://securetoken.google.com/"@ + project));
    let v = with_member(v, "aud"@, JsonView::Text(project));
    let v = with_member(v, "auth_time"@, JsonView::Unsigned(now));
    let v = with_member(v, "user_id"@, JsonView::Text(user.local_id));
    let v = with_member(v, "sub"@, JsonView::Text(user.local_id));
    let v = with_member(v, "iat"@, JsonView::Unsigned(now));
    let v = with_member(v, "exp"@, JsonView::Unsigned(later(now, ID_TOKEN_TTL_SECS)));
    let v = with_member(v, "email_verified"@, JsonView::Bool(user.email_verified));
    let v = with_member(v, "firebase"@, firebase_json(user));
    let v = match user.email {
        Some(email) => with_member(v, "email"@, JsonView::Text(email)),
        None => v,
    };
    match user.display_name {
        Some(name) => with_member(v, "name"@, JsonView::Text(name)),
        None => v,
    }
}

/// Makes the claims of an id token, given what the custom attributes were
/// parsed to.
pub fn token_claims(namespace: &str, user: &User, now: u64, parsed: Option<Json>) -> (r: Json)
    ensures
        r@ == claims_spec(
            namespace@,
            user@,
            now,
            match parsed {
                Some(v) => Some(v@),
                None => None,
            },
        ),
{
    let project = match strip_prefix(namespace, "project/") {
        Some(project) => project,
        None => namespace.to_owned(),
    };
    let identities = match &user.email {
        Some(email) => {
            let mut list: Vec<Json> = Vec::new();
            list.push(Json::of_text(email.as_str()));
            assert(items_view(list@) =~= seq![JsonView::Text(email@)]);
            single("email", Json::array(list))
        },
        None => Json::object(),
    };
    let provider = if user.password.is_some() {
        "password"
    } else {
        "anonymous"
    };
    let firebase = single("identities", identities).with("sign_in_provider", Json::of_text(provider));
    let v = match parsed {
        Some(Json::Object(members)) => Json::Object(members),
        _ => Json::object(),
    };
    let v = v.with(
        "iss",
        Json::Text(cat("https://securetoken.google.com/", project.as_str())),
    );
    let v = v.with("aud", Json::Text(project));
    let v = v.with("auth_time", Json::Unsigned(now));
    let v = v.with("user_id", Json::of_text(user.local_id.as_str()));
    let v = v.with("sub", Json::of_text(user.local_id.as_str()));
    let v = v.with("iat", Json::Unsigned(now));
    let v = v.with("exp", Json::Unsigned(later_than(now, ID_TOKEN_TTL_SECS)));
    let v = v.with("email_verified", Json::Bool(user.email_verified));
    let v = v.with("firebase", firebase);
    let v = match &user.email {
        Some(email) => v.with("email", Json::of_text(email.as_str())),
        None => v,
    };
    match &user.display_name {
        Some(name) => v.with("name", Json::of_text(name.as_str())),
        None => v,
    }
}

/// The id token of some claims: a header, the claims and an empty signature,
/// with dots between them.
pub open spec fn id_token_spec(claims: JsonView) -> Seq<char> {
    url_base64_text(encode_utf8("{\"alg\":\"none\",\"typ\":\"JWT\"}"@)) + "."@ + url_base64_text(
        encode_utf8(text_of_json(claims)),
    ) + "."@
}

/// The claims that an id token carries, given what its second part was
/// decoded to.
pub open spec fn decoded_claims(decoded: Option<Seq<u8>>) -> Option<JsonView> {
    match decoded {
        None => None,
        Some(bytes) => if valid_utf8(bytes) {
            json_of_text(decode_utf8(bytes))
        } else {
            None
        },
    }
}

/// The claims that an id token carries.
pub open spec fn claims_of(token: Seq<char>) -> Option<JsonView> {
    let parts = split_spec(token, '.');
    if parts.len() < 2 {
        None
    } else {
        decoded_claims(url_base64_bytes(parts[1]))
    }
}

proof fn split_undotted(s: Seq<char>)
    requires
        forall|i: int| 0 <= i < s.len() ==> #[trigger] s[i] != '.',
    ensures
        split_spec(s, '.') == seq![s],
    decreases s.len(),
{
    if s.len() == 0 {
        assert(s =~= Seq::empty());
    } else {
        let t = s.drop_last();
        assert forall|i: int| 0 <= i < t.len() implies #[trigger] t[i] != '.' by {
            assert(s[i] != '.');
        }
        split_undotted(t);
        assert(s[s.len() - 1] != '.');
        assert(t.push(s.last()) =~= s);
        assert(split_spec(s, '.') =~= seq![s]);
    }
}

proof fn split_behind_dot(front: Seq<char>, s: Seq<char>)
    requires
        forall|i: int| 0 <= i < s.len() ==> #[trigger] s[i] != '.',
    ensures
        split_spec(front + seq!['.'] + s, '.') == split_spec(front, '.').push(s),
    decreases s.len(),
{
    let all = front + seq!['.'] + s;
    if s.len() == 0 {
        assert(all =~= front.push('.'));
        assert(all.drop_last() =~= front);
        assert(s =~= Seq::empty());
    } else {
        let t = s.drop_last();
        assert forall|i: int| 0 <= i < t.len() implies #[trigger] t[i] != '.' by {
            assert(s[i] != '.');
        }
        split_behind_dot(front, t);
        assert(s[s.len() - 1] != '.');
        assert(all.drop_last() =~= front + seq!['.'] + t);
        assert(all.last() == s.last());
        assert(t.push(s.last()) =~= s);
        let init = split_spec(front, '.').push(t);
        assert(init.drop_last() =~= split_spec(front, '.'));
    }
}

/// Writes the id token of some claims. Where the claims have no fractions and
/// few levels, the token carries them.
pub fn write_id_token(claims: &Json) -> (r: String)
    ensures
        r@ == id_token_spec(claims@),
        is_plain_json(claims@, 100) ==> claims_of(r@) == Some(claims@),
{
    let text = write_json(claims);
    let header = url_base64_encode("{\"alg\":\"none\",\"typ\":\"JWT\"}".as_bytes());
    let body = url_base64_encode(text.as_str().as_bytes());
    let mut token = cat3(header.as_str(), ".", body.as_str());
    token.append(".");
    proof {
        encode_utf8_valid_utf8(text@);
        encode_utf8_decode_utf8(text@);
        reveal_strlit(".");
        let none = Seq::<char>::empty();
        let front = header@ + seq!['.'] + body@;
        split_undotted(header@);
        split_behind_dot(header@, body@);
        split_behind_dot(front, none);
        assert(token@ =~= front + seq!['.'] + none);
        assert(split_spec(token@, '.')[1] == body@);
    }
    token
}

/// Reads the claims that an id token carries.
pub fn read_claims(token: &str) -> (r: Option<Json>)
    ensures
        (match r {
            Some(v) => Some(v@),
            None => None,
        }) == claims_of(token@),
{
    let parts = split(token, '.');
    if parts.len() < 2 {
        return None;
    }
    assert(texts(parts@)[1] == parts@[1]@);
    match url_base64_decode(parts[1].as_str()) {
        None => None,
        Some(bytes) => match text_of_utf8(bytes) {
            None => None,
            Some(text) => parse_json(text.as_str()),
        },
    }
}

/// Whether a session has not expired at `now`.
pub open spec fn is_open(now: u64) -> spec_fn((Seq<char>, AuthSessionView)) -> bool {
    |entry: (Seq<char>, AuthSessionView)| entry.1.expires_at > now
}

/// The sessions after a user has opened one: those that have expired are gone,
/// and both new tokens are there.
pub open spec fn opened_sessions(
    sessions: Seq<(Seq<char>, AuthSessionView)>,
    namespace: Seq<char>,
    uid: Seq<char>,
    token: Seq<char>,
    d: DrawView,
) -> Seq<(Seq<char>, AuthSessionView)> {
    put(
        put(
            keep_entries(sessions, is_open(d.now)),
            token,
            AuthSessionView {
                namespace,
                uid,
                issued_at: d.now,
                expires_at: later(d.now, ID_TOKEN_TTL_SECS),
                kind: SessionKind::IdToken,
            },
        ),
        d.refresh,
        AuthSessionView {
            namespace,
            uid,
            issued_at: d.now,
            expires_at: later(d.now, REFRESH_TOKEN_TTL_SECS),
            kind: SessionKind::RefreshToken,
        },
    )
}

/// The id token of a user's new session.
pub open spec fn session_token(namespace: Seq<char>, user: UserView, now: u64) -> Seq<char> {
    id_token_spec(
        claims_spec(
            namespace,
            user,
            now,
            match user.custom_attributes {
                Some(text) => json_of_text(text),
                None => None,
            },
        ),
    )
}

/// The answer to a user who has opened a session.
pub open spec fn session_json(user: UserView, token: Seq<char>, refresh: Seq<char>) -> JsonView {
    let v = object1("localId"@, JsonView::Text(user.local_id));
    let v = with_member(v, "email"@, text_or_null(user.email));
    let v = with_member(v, "displayName"@, text_or_null(user.display_name));
    let v = with_member(v, "idToken"@, JsonView::Text(token));
    let v = with_member(v, "refreshToken"@, JsonView::Text(refresh));
    let v = with_member(v, "expiresIn"@, JsonView::Text("3600"@));
    with_member(v, "registered"@, JsonView::Bool(true))
}

/// The state after a user has opened a session, and the answer.
pub open spec fn issue_session_spec(s: AuthView, namespace: Seq<char>, user: UserView, d: DrawView)
    -> (AuthView, JsonView) {
    let token = session_token(namespace, user, d.now);
    (
        AuthView {
            sessions: opened_sessions(s.sessions, namespace, user.local_id, token, d),
            ..s
        },
        session_json(user, token, d.refresh),
    )
}

/// A number in a token's claims, zero where there is none.
pub open spec fn claimed_number(claims: JsonView, key: Seq<char>) -> u64 {
    match at(claims, key) {
        JsonView::Unsigned(n) => n,
        _ => 0,
    }
}

/// The second from which on a user's sessions are good.
pub open spec fn valid_from(user: UserView) -> nat {
    match parse_unsigned_spec(user.valid_since, u64::MAX as nat) {
        Some(n) => n,
        None => 0,
    }
}

/// The user of an id token, given the claims that it carries, or why it is
/// refused; and the state, from which an expired session is gone.
pub open spec fn session_user_spec(
    s: AuthView,
    namespace: Seq<char>,
    token: Seq<char>,
    claims: Option<JsonView>,
    now: u64,
) -> (AuthView, Result<UserView, Seq<char>>) {
    match lookup(s.sessions, token) {
        None => (s, Err("INVALID_ID_TOKEN"@)),
        Some(session) => if session.kind != SessionKind::IdToken || session.namespace != namespace {
            (s, Err("INVALID_ID_TOKEN"@))
        } else if session.expires_at <= now {
            (AuthView { sessions: without(s.sessions, token), ..s }, Err("TOKEN_EXPIRED"@))
        } else {
            match claims {
                None => (s, Err("INVALID_ID_TOKEN"@)),
                Some(v) => if claimed_number(v, "exp"@) <= now {
                    (s, Err("TOKEN_EXPIRED"@))
                } else {
                    match lookup(users_of(s, namespace), session.uid) {
                        None => (s, Err("USER_NOT_FOUND"@)),
                        Some(user) => if user.disabled {
                            (s, Err("USER_DISABLED"@))
                        } else if valid_from(user) > claimed_number(v, "auth_time"@) {
                            (s, Err("TOKEN_EXPIRED"@))
                        } else {
                            (s, Ok(user))
                        },
                    }
                },
            }
        },
    }
}

/// The state after the user of an id token was looked for, where there is a
/// token, and the id in question.
pub open spec fn resolve_spec(
    s: AuthView,
    namespace: Seq<char>,
    id_token: Option<Seq<char>>,
    local_id: Option<Seq<char>>,
    now: u64,
) -> (AuthView, Result<Option<Seq<char>>, Seq<char>>) {
    match id_token {
        None => (s, Ok(local_id)),
        Some(token) => match session_user_spec(s, namespace, token, claims_of(token), now) {
            (after, Err(e)) => (after, Err(e)),
            (after, Ok(user)) => (after, Ok(Some(user.local_id))),
        },
    }
}

/// The members of an object put over those of another.
pub open spec fn overlaid(v: JsonView, more: Seq<(Seq<char>, JsonView)>, n: nat) -> JsonView
    decreases n,
{
    if n == 0 || n > more.len() {
        v
    } else {
        with_member(overlaid(v, more, (n - 1) as nat), more[n - 1].0, more[n - 1].1)
    }
}

/// The state after a request to update an account, and the answer. A request
/// with a token opens a new session.
pub open spec fn update_account_spec(
    s: AuthView,
    namespace: Seq<char>,
    request: AccountView,
    d: DrawView,
) -> (AuthView, Result<JsonView, Seq<char>>) {
    match resolve_spec(s, namespace, request.id_token, request.local_id, d.now) {
        (after, Err(e)) => (after, Err(e)),
        (after, Ok(local_id)) => match updating(users_of(after, namespace), local_id, request) {
            Err(e) => (after, Err(e)),
            Ok(user) => {
                let stored = with_users(
                    after,
                    namespace,
                    put(users_of(after, namespace), local_id->0, user),
                );
                if request.id_token is Some {
                    let (opened, answer) = issue_session_spec(stored, namespace, user, d);
                    let members = answer->Object_0;
                    (opened, Ok(overlaid(user_json_spec(user), members, members.len())))
                } else {
                    (stored, Ok(user_json_spec(user)))
                }
            },
        },
    }
}

/// Whether a session is not one of a user.
pub open spec fn is_of_another(namespace: Seq<char>, uid: Seq<char>) -> spec_fn(
    (Seq<char>, AuthSessionView),
) -> bool {
    |entry: (Seq<char>, AuthSessionView)| entry.1.namespace != namespace || entry.1.uid != uid
}

/// The state after a request to delete an account, and the answer. The
/// sessions of the user go with it.
pub open spec fn delete_account_spec(
    s: AuthView,
    namespace: Seq<char>,
    id_token: Option<Seq<char>>,
    local_id: Seq<char>,
    now: u64,
) -> (AuthView, Result<JsonView, Seq<char>>) {
    match resolve_spec(s, namespace, id_token, Some(local_id), now) {
        (after, Err(e)) => (after, Err(e)),
        (after, Ok(id)) => {
            let uid = id->0;
            let users = users_of(after, namespace);
            if lookup(users, uid) is None {
                (after, Err("USER_NOT_FOUND"@))
            } else {
                (
                    AuthView {
                        users: put(after.users, namespace, without(users, uid)),
                        sessions: keep_entries(after.sessions, is_of_another(namespace, uid)),
                    },
                    Ok(empty_object()),
                )
            }
        },
    }
}

/// The JSON of those of the first `n` users that are asked for.
pub open spec fn found_users(
    users: UsersView,
    n: nat,
    ids: Seq<Seq<char>>,
    emails: Seq<Seq<char>>,
    phones: Seq<Seq<char>>,
    identities: Seq<(Seq<char>, Seq<char>)>,
) -> Seq<JsonView>
    decreases n,
{
    if n == 0 || n > users.len() {
        Seq::empty()
    } else {
        let before = found_users(users, (n - 1) as nat, ids, emails, phones, identities);
        if is_asked_for(users[n - 1].1, ids, emails, phones, identities) {
            before.push(user_json_spec(users[n - 1].1))
        } else {
            before
        }
    }
}

/// The state after a lookup, and the answer. A token asks for its own user.
pub open spec fn lookup_accounts_spec(
    s: AuthView,
    namespace: Seq<char>,
    id_token: Option<Seq<char>>,
    ids: Seq<Seq<char>>,
    emails: Seq<Seq<char>>,
    phones: Seq<Seq<char>>,
    identities: Seq<(Seq<char>, Seq<char>)>,
    now: u64,
) -> (AuthView, Result<JsonView, Seq<char>>) {
    match resolve_spec(s, namespace, id_token, None, now) {
        (after, Err(e)) => (after, Err(e)),
        (after, Ok(id)) => {
            let wanted = match id {
                Some(uid) => seq![uid],
                None => ids,
            };
            let users = users_of(after, namespace);
            (
                after,
                Ok(
                    object1(
                        "users"@,
                        JsonView::Array(
                            found_users(users, users.len(), wanted, emails, phones, identities),
                        ),
                    ),
                ),
            )
        },
    }
}

/// The JSON of the first users of a namespace, at most a thousand.
pub open spec fn listed_users(users: UsersView, limit: nat) -> Seq<JsonView> {
    let n = if limit < 1000 {
        limit
    } else {
        1000
    };
    let shown = if n < users.len() {
        users.take(n as int)
    } else {
        users
    };
    shown.map_values(|entry: (Seq<char>, UserView)| user_json_spec(entry.1))
}

/// The state after a request to sign up, and the answer.
pub open spec fn sign_up_spec(
    s: AuthView,
    namespace: Seq<char>,
    request: AccountView,
    d: DrawView,
) -> (AuthView, Result<JsonView, Seq<char>>) {
    if request.email is Some && request.password is None {
        (s, Err("MISSING_PASSWORD"@))
    } else {
        let users = users_of(s, namespace);
        match creation(users, request, d) {
            Err(e) => (s, Err(e)),
            Ok(user) => {
                let created = with_users(s, namespace, put(users, user.local_id, user));
                let (opened, answer) = issue_session_spec(created, namespace, user, d);
                (opened, Ok(answer))
            },
        }
    }
}

/// The first of the users from `i` on with an address, the case of letters
/// aside.
pub open spec fn email_index(users: UsersView, email: Seq<char>, i: int) -> Option<int>
    decreases users.len() - i,
{
    if i < 0 || i >= users.len() {
        None
    } else if users[i].1.email is Some && same_but_case(users[i].1.email->0, email) {
        Some(i)
    } else {
        email_index(users, email, i + 1)
    }
}

/// The state after a request to sign in, and the answer.
pub open spec fn sign_in_spec(
    s: AuthView,
    namespace: Seq<char>,
    email: Option<Seq<char>>,
    password: Option<Seq<char>>,
    d: DrawView,
) -> (AuthView, Result<JsonView, Seq<char>>) {
    let users = users_of(s, namespace);
    if email is None {
        (s, Err("MISSING_EMAIL"@))
    } else if password is None {
        (s, Err("MISSING_PASSWORD"@))
    } else {
        match email_index(users, email->0, 0) {
            None => (s, Err("EMAIL_NOT_FOUND"@)),
            Some(i) => {
                let user = users[i].1;
                if user.disabled {
                    (s, Err("USER_DISABLED"@))
                } else if user.password != password {
                    (s, Err("INVALID_PASSWORD"@))
                } else {
                    let seen = UserView { last_login_at: d.millis, ..user };
                    let stored = with_users(
                        s,
                        namespace,
                        users.update(i, (users[i].0, seen)),
                    );
                    let (opened, answer) = issue_session_spec(stored, namespace, seen, d);
                    (opened, Ok(answer))
                }
            },
        }
    }
}

/// The answer to a session that was refreshed.
pub open spec fn refreshed_json(
    token: Seq<char>,
    refresh: Seq<char>,
    uid: Seq<char>,
    namespace: Seq<char>,
) -> JsonView {
    let v = object1("access_token"@, JsonView::Text(token));
    let v = with_member(v, "id_token"@, JsonView::Text(token));
    let v = with_member(v, "refresh_token"@, JsonView::Text(refresh));
    let v = with_member(v, "expires_in"@, JsonView::Text("3600"@));
    let v = with_member(v, "token_type"@, JsonView::Text("Bearer"@));
    let v = with_member(v, "user_id"@, JsonView::Text(uid));
    with_member(v, "project_id"@, JsonView::Text(project_of(namespace)))
}

/// The state after a request to refresh a session, and the answer, given
/// whether the token is a UUID.
pub open spec fn refresh_spec(
    s: AuthView,
    grant_type: Option<Seq<char>>,
    refresh: Option<Seq<char>>,
    is_uuid: bool,
    d: DrawView,
) -> (AuthView, Result<JsonView, Seq<char>>) {
    if grant_type != Some("refresh_token"@) {
        (s, Err("INVALID_GRANT_TYPE"@))
    } else if refresh is None {
        (s, Err("MISSING_REFRESH_TOKEN"@))
    } else if !is_uuid {
        (s, Err("INVALID_REFRESH_TOKEN"@))
    } else {
        match lookup(s.sessions, refresh->0) {
            None => (s, Err("INVALID_REFRESH_TOKEN"@)),
            Some(session) => if session.kind != SessionKind::RefreshToken || session.expires_at
                <= d.now {
                (
                    AuthView { sessions: without(s.sessions, refresh->0), ..s },
                    Err("INVALID_REFRESH_TOKEN"@),
                )
            } else {
                match lookup(users_of(s, session.namespace), session.uid) {
                    None => (s, Err("USER_NOT_FOUND"@)),
                    Some(user) => if user.disabled {
                        (s, Err("USER_DISABLED"@))
                    } else if valid_from(user) > session.issued_at {
                        (s, Err("TOKEN_EXPIRED"@))
                    } else {
                        let (opened, _) = issue_session_spec(s, session.namespace, user, d);
                        (
                            opened,
                            Ok(
                                refreshed_json(
                                    session_token(session.namespace, user, d.now),
                                    d.refresh,
                                    session.uid,
                                    session.namespace,
                                ),
                            ),
                        )
                    },
                }
            },
        }
    }
}

} // verus!
