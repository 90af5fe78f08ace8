//! What a token says of its user, and who gets one.
use crate::account_laws::{account, added, began, is_created};
use crate::accounts::{UserView, UsersView};
use crate::auth::{
    claims_spec, custom_claims, email_index, firebase_json, id_token_spec, identities_json,
    issue_session_spec, project_of, refresh_spec, refreshed_json, session_token, sign_in_spec,
    sign_up_spec, users_of, valid_from, AuthSessionView, AuthView, DrawView, SessionKind,
};
use crate::json::{empty_object, json_of_text, member, object1, with_member, JsonView};
use crate::json_laws::{is_object, nothing_is_in_an_empty_object};
use crate::multipart::same_but_case;
use crate::ordered::{
    keep_entries, keep_entries_sorted, keys_sorted, lookup, lookup_after_keep, lookup_after_put,
    put, put_sorted,
};
use vstd::prelude::*;

verus! {

/// Whether a name is one that every token uses for itself.
pub open spec fn is_standard_claim(key: Seq<char>) -> bool {
    ||| key == "iss"@
    ||| key == "aud"@
    ||| key == "auth_time"@
    ||| key == "user_id"@
    ||| key == "sub"@
    ||| key == "iat"@
    ||| key == "exp"@
    ||| key == "email_verified"@
    ||| key == "firebase"@
    ||| key == "email"@
    ||| key == "name"@
}

proof fn claim_names()
    ensures
        "iss"@.len() == 3 && "iss"@[0] == 'i' && "iss"@[1] == 's',
        "aud"@.len() == 3 && "aud"@[0] == 'a',
        "auth_time"@.len() == 9,
        "user_id"@.len() == 7,
        "sub"@.len() == 3 && "sub"@[0] == 's',
        "iat"@.len() == 3 && "iat"@[0] == 'i' && "iat"@[1] == 'a',
        "exp"@.len() == 3 && "exp"@[0] == 'e',
        "email_verified"@.len() == 14,
        "firebase"@.len() == 8,
        "email"@.len() == 5,
        "name"@.len() == 4,
{
    reveal_strlit("iss");
    reveal_strlit("aud");
    reveal_strlit("auth_time");
    reveal_strlit("user_id");
    reveal_strlit("sub");
    reveal_strlit("iat");
    reveal_strlit("exp");
    reveal_strlit("email_verified");
    reveal_strlit("firebase");
    reveal_strlit("email");
    reveal_strlit("name");
}

/// What the claims of a token say of its user: who it is, in which project, the
/// address and the name, and until when; an hour from when it was issued.
pub open spec fn tells_user(v: JsonView, project: Seq<char>, user: UserView, now: u64) -> bool {
    &&& member(v, "iss"@) == Some(JsonView::Text("https://securetoken.google.com/"@ + project))
    &&& member(v, "aud"@) == Some(JsonView::Text(project))
    &&& member(v, "user_id"@) == Some(JsonView::Text(user.local_id))
    &&& member(v, "sub"@) == Some(JsonView::Text(user.local_id))
    &&& member(v, "iat"@) == Some(JsonView::Unsigned(now))
    &&& member(v, "auth_time"@) == Some(JsonView::Unsigned(now))
    &&& now <= u64::MAX - 3600 ==> member(v, "exp"@) == Some(
        JsonView::Unsigned((now + 3600) as u64),
    )
    &&& member(v, "email_verified"@) == Some(JsonView::Bool(user.email_verified))
    &&& user.email matches Some(email) ==> member(v, "email"@) == Some(JsonView::Text(email))
    &&& user.display_name matches Some(name) ==> member(v, "name"@) == Some(JsonView::Text(name))
}

/// A token tells its user, and carries every custom claim whose name is not one
/// of its own.
pub proof fn tokens_tell_their_user(
    project: Seq<char>,
    user: UserView,
    now: u64,
    custom: JsonView,
    key: Seq<char>,
)
    requires
        is_object(custom),
    ensures
        ({
            let claims = claims_spec("project/"@ + project, user, now, Some(custom));
            &&& is_object(claims)
            &&& tells_user(claims, project, user, now)
            &&& !is_standard_claim(key) ==> member(claims, key) == member(custom, key)
            &&& member(claims, "firebase"@) matches Some(how)
            &&& member(how, "sign_in_provider"@) == Some(
                JsonView::Text(
                    if user.password is Some {
                        "password"@
                    } else {
                        "anonymous"@
                    },
                ),
            )
        }),
{
    claims_are_told(project, user, now, Some(custom), key);
}

/// A token of a user without custom claims tells the user all the same.
pub proof fn tokens_without_custom_claims_tell_their_user(
    project: Seq<char>,
    user: UserView,
    now: u64,
    key: Seq<char>,
)
    ensures
        ({
            let claims = claims_spec("project/"@ + project, user, now, None);
            &&& tells_user(claims, project, user, now)
            &&& !is_standard_claim(key) ==> member(claims, key) is None
        }),
{
    claims_are_told(project, user, now, None, key);
    nothing_is_in_an_empty_object(key);
}

/// The id token of a user with custom attributes carries them among its claims,
/// beside those that tell the user.
pub proof fn session_tokens_carry_custom_claims(
    project: Seq<char>,
    user: UserView,
    now: u64,
    text: Seq<char>,
    custom: JsonView,
    key: Seq<char>,
)
    requires
        user.custom_attributes == Some(text),
        json_of_text(text) == Some(custom),
        is_object(custom),
    ensures
        exists|claims: JsonView|
            session_token("project/"@ + project, user, now) == #[trigger] id_token_spec(claims)
                && tells_user(claims, project, user, now) && (!is_standard_claim(key) ==> member(
                claims,
                key,
            ) == member(custom, key)),
{
    tokens_tell_their_user(project, user, now, custom, key);
    let claims = claims_spec("project/"@ + project, user, now, Some(custom));
    assert(session_token("project/"@ + project, user, now) == id_token_spec(claims));
}

proof fn claims_are_told(
    project: Seq<char>,
    user: UserView,
    now: u64,
    parsed: Option<JsonView>,
    key: Seq<char>,
)
    requires
        parsed matches Some(custom) ==> is_object(custom),
    ensures
        ({
            let claims = claims_spec("project/"@ + project, user, now, parsed);
            let custom = if parsed is Some { parsed->0 } else { empty_object() };
            &&& is_object(claims)
            &&& tells_user(claims, project, user, now)
            &&& !is_standard_claim(key) ==> member(claims, key) == member(custom, key)
            &&& member(claims, "firebase"@) == Some(firebase_json(user))
            &&& member(firebase_json(user), "sign_in_provider"@) == Some(
                JsonView::Text(
                    if user.password is Some {
                        "password"@
                    } else {
                        "anonymous"@
                    },
                ),
            )
        }),
{
    claim_names();
    reveal_strlit("identities");
    reveal_strlit("sign_in_provider");
    assert("identities"@.len() == 10 && "sign_in_provider"@.len() == 16);
    nothing_is_in_an_empty_object(key);
    let namespace = "project/"@ + project;
    assert(project_of(namespace) == project) by {
        assert("project/"@.is_prefix_of(namespace)) by {
            assert(namespace.take("project/"@.len() as int) =~= "project/"@);
        }
        assert(namespace.skip("project/"@.len() as int) =~= project);
    }
    let inner = identities_json(user.email);
    began("identities"@, inner);
    let how = JsonView::Text(
        if user.password is Some {
            "password"@
        } else {
            "anonymous"@
        },
    );
    added(object1("identities"@, inner), "sign_in_provider"@, how);
    let v = custom_claims(parsed);
    let value = JsonView::Text("https://securetoken.google.com/"@ + project);
    added(v, "iss"@, value);
    let v = with_member(v, "iss"@, value);
    added(v, "aud"@, JsonView::Text(project));
    let v = with_member(v, "aud"@, JsonView::Text(project));
    added(v, "auth_time"@, JsonView::Unsigned(now));
    let v = with_member(v, "auth_time"@, JsonView::Unsigned(now));
    added(v, "user_id"@, JsonView::Text(user.local_id));
    let v = with_member(v, "user_id"@, JsonView::Text(user.local_id));
    added(v, "sub"@, JsonView::Text(user.local_id));
    let v = with_member(v, "sub"@, JsonView::Text(user.local_id));
    added(v, "iat"@, JsonView::Unsigned(now));
    let v = with_member(v, "iat"@, JsonView::Unsigned(now));
    let end = JsonView::Unsigned(crate::auth::later(now, crate::auth::ID_TOKEN_TTL_SECS));
    added(v, "exp"@, end);
    let v = with_member(v, "exp"@, end);
    added(v, "email_verified"@, JsonView::Bool(user.email_verified));
    let v = with_member(v, "email_verified"@, JsonView::Bool(user.email_verified));
    added(v, "firebase"@, firebase_json(user));
    let v = with_member(v, "firebase"@, firebase_json(user));
    if user.email is Some {
        added(v, "email"@, JsonView::Text(user.email->0));
    }
    let v = match user.email {
        Some(email) => with_member(v, "email"@, JsonView::Text(email)),
        None => v,
    };
    if user.display_name is Some {
        added(v, "name"@, JsonView::Text(user.display_name->0));
    }
}

/// The session of a token that a user was handed.
pub open spec fn session_for(
    namespace: Seq<char>,
    uid: Seq<char>,
    now: u64,
    seconds: u64,
    kind: SessionKind,
) -> AuthSessionView {
    AuthSessionView {
        namespace,
        uid,
        issued_at: now,
        expires_at: (now + seconds) as u64,
        kind,
    }
}

/// A user who opens a session is handed an id token that is good for an hour
/// and a refresh token that is good for thirty days, both for that user alone;
/// other sessions that have not expired stay, and the answer tells the tokens
/// and the user.
pub proof fn sessions_are_opened_for_their_user(
    s: AuthView,
    namespace: Seq<char>,
    user: UserView,
    d: DrawView,
    other: Seq<char>,
)
    requires
        keys_sorted(s.sessions),
        session_token(namespace, user, d.now) != d.refresh,
        d.now <= u64::MAX - 2_592_000,
    ensures
        ({
            let token = session_token(namespace, user, d.now);
            let (after, answer) = issue_session_spec(s, namespace, user, d);
            &&& after.users == s.users
            &&& lookup(after.sessions, token) == Some(
                session_for(namespace, user.local_id, d.now, 3600, SessionKind::IdToken),
            )
            &&& lookup(after.sessions, d.refresh) == Some(
                session_for(namespace, user.local_id, d.now, 2_592_000, SessionKind::RefreshToken),
            )
            &&& other != token && other != d.refresh ==> lookup(after.sessions, other) == (
            match lookup(s.sessions, other) {
                Some(session) => if session.expires_at > d.now {
                    Some(session)
                } else {
                    None
                },
                None => None,
            })
            &&& member(answer, "localId"@) == Some(JsonView::Text(user.local_id))
            &&& member(answer, "idToken"@) == Some(JsonView::Text(token))
            &&& member(answer, "refreshToken"@) == Some(JsonView::Text(d.refresh))
            &&& member(answer, "expiresIn"@) == Some(JsonView::Text("3600"@))
            &&& user.email matches Some(email) ==> member(answer, "email"@) == Some(
                JsonView::Text(email),
            )
            &&& user.display_name matches Some(name) ==> member(answer, "displayName"@) == Some(
                JsonView::Text(name),
            )
        }),
{
    let token = session_token(namespace, user, d.now);
    let open = keep_entries(s.sessions, crate::auth::is_open(d.now));
    keep_entries_sorted(s.sessions, crate::auth::is_open(d.now));
    lookup_after_keep(s.sessions, crate::auth::is_open(d.now), other);
    let first = AuthSessionView {
        namespace,
        uid: user.local_id,
        issued_at: d.now,
        expires_at: crate::auth::later(d.now, 3600),
        kind: SessionKind::IdToken,
    };
    let second = AuthSessionView {
        namespace,
        uid: user.local_id,
        issued_at: d.now,
        expires_at: crate::auth::later(d.now, 2_592_000),
        kind: SessionKind::RefreshToken,
    };
    put_sorted(open, token, first);
    lookup_after_put(open, token, first, other);
    lookup_after_put(put(open, token, first), d.refresh, second, token);
    lookup_after_put(put(open, token, first), d.refresh, second, other);
    reveal_strlit("localId");
    reveal_strlit("email");
    reveal_strlit("displayName");
    reveal_strlit("idToken");
    reveal_strlit("refreshToken");
    reveal_strlit("expiresIn");
    reveal_strlit("registered");
    assert("localId"@.len() == 7 && "localId"@[0] == 'l' && "idToken"@.len() == 7 && "idToken"@[0]
        == 'i');
    assert("email"@.len() == 5 && "displayName"@.len() == 11 && "refreshToken"@.len() == 12
        && "expiresIn"@.len() == 9 && "registered"@.len() == 10);
    began("localId"@, JsonView::Text(user.local_id));
    let v = object1("localId"@, JsonView::Text(user.local_id));
    let email = crate::accounts::text_or_null(user.email);
    added(v, "email"@, email);
    let v = with_member(v, "email"@, email);
    let name = crate::accounts::text_or_null(user.display_name);
    added(v, "displayName"@, name);
    let v = with_member(v, "displayName"@, name);
    added(v, "idToken"@, JsonView::Text(token));
    let v = with_member(v, "idToken"@, JsonView::Text(token));
    added(v, "refreshToken"@, JsonView::Text(d.refresh));
    let v = with_member(v, "refreshToken"@, JsonView::Text(d.refresh));
    added(v, "expiresIn"@, JsonView::Text("3600"@));
    let v = with_member(v, "expiresIn"@, JsonView::Text("3600"@));
    added(v, "registered"@, JsonView::Bool(true));
}

proof fn addresses_are_found(users: UsersView, email: Seq<char>, i: int)
    requires
        0 <= i <= users.len(),
    ensures
        match email_index(users, email, i) {
            Some(k) => i <= k < users.len() && (users[k].1.email matches Some(own)
                && same_but_case(own, email)),
            None => forall|k: int|
                i <= k < users.len() ==> ((#[trigger] users[k]).1.email matches Some(own)
                    ==> !same_but_case(own, email)),
        },
    decreases users.len() - i,
{
    if i < users.len() {
        addresses_are_found(users, email, i + 1);
    }
}

/// Whether a user has an address, the case of letters aside.
pub open spec fn has_address(user: UserView, email: Seq<char>) -> bool {
    user.email matches Some(own) && same_but_case(own, email)
}

/// Signing in with an address that one user has succeeds exactly where that
/// user is not disabled and has the password; the session is that user's, who
/// is seen to have signed in. A refused attempt changes nothing.
pub proof fn passwords_are_checked(
    s: AuthView,
    namespace: Seq<char>,
    email: Seq<char>,
    password: Seq<char>,
    d: DrawView,
    k: int,
)
    requires
        keys_sorted(s.users),
        0 <= k < users_of(s, namespace).len(),
        has_address(users_of(s, namespace)[k].1, email),
        forall|j: int|
            0 <= j < users_of(s, namespace).len() && j != k ==> !has_address(
                (#[trigger] users_of(s, namespace)[j]).1,
                email,
            ),
    ensures
        ({
            let user = users_of(s, namespace)[k].1;
            let (after, answer) = sign_in_spec(s, namespace, Some(email), Some(password), d);
            let seen = UserView { last_login_at: d.millis, ..user };
            &&& (answer is Ok) == (!user.disabled && user.password == Some(password))
            &&& answer is Err ==> after == s
            &&& !user.disabled && user.password != Some(password) ==> answer->Err_0
                == "INVALID_PASSWORD"@
            &&& user.disabled ==> answer->Err_0 == "USER_DISABLED"@
            &&& answer is Ok ==> users_of(after, namespace) == users_of(s, namespace).update(
                k,
                (users_of(s, namespace)[k].0, seen),
            )
            &&& answer is Ok ==> answer->Ok_0 == issue_session_spec(s, namespace, seen, d).1
            &&& answer is Ok ==> after.sessions == issue_session_spec(
                s,
                namespace,
                seen,
                d,
            ).0.sessions
        }),
{
    let users = users_of(s, namespace);
    addresses_are_found(users, email, 0);
    let i = email_index(users, email, 0);
    assert(has_address(users[k].1, email));
    assert(i is Some);
    assert(has_address(users[i->0].1, email));
    assert(i->0 == k);
    let user = users[k].1;
    let seen = UserView { last_login_at: d.millis, ..user };
    let changed = users.update(k, (users[k].0, seen));
    lookup_after_put(s.users, namespace, changed, namespace);
}

/// Signing in with an address that nobody has is refused, and so is signing in
/// without an address or a password.
pub proof fn unknown_addresses_are_refused(
    s: AuthView,
    namespace: Seq<char>,
    email: Option<Seq<char>>,
    password: Option<Seq<char>>,
    d: DrawView,
)
    requires
        email is None || password is None || forall|j: int|
            0 <= j < users_of(s, namespace).len() ==> !has_address(
                (#[trigger] users_of(s, namespace)[j]).1,
                email->0,
            ),
    ensures
        sign_in_spec(s, namespace, email, password, d).0 == s,
        sign_in_spec(s, namespace, email, password, d).1 is Err,
{
    let users = users_of(s, namespace);
    if email is Some && password is Some {
        addresses_are_found(users, email->0, 0);
        if email_index(users, email->0, 0) is Some {
            let i = email_index(users, email->0, 0)->0;
            assert(has_address(users[i].1, email->0));
        }
    }
}

/// Who signs up has an account with what was given, and a session.
pub proof fn signing_up_opens_a_session(
    s: AuthView,
    namespace: Seq<char>,
    request: crate::accounts::AccountView,
    d: DrawView,
)
    requires
        keys_sorted(s.users),
        keys_sorted(users_of(s, namespace)),
        sign_up_spec(s, namespace, request, d).1 is Ok,
    ensures
        ({
            let (after, answer) = sign_up_spec(s, namespace, request, d);
            let id = match request.local_id {
                Some(given) => given,
                None => d.local_id,
            };
            &&& account(s, namespace, id) is None
            &&& account(after, namespace, id) matches Some(user)
            &&& is_created(request, id, d.millis, user)
            &&& answer->Ok_0 == issue_session_spec(s, namespace, user, d).1
            &&& after.sessions == issue_session_spec(s, namespace, user, d).0.sessions
            &&& request.email is Some ==> request.password is Some
        }),
{
    let users = users_of(s, namespace);
    let id = match request.local_id {
        Some(given) => given,
        None => d.local_id,
    };
    let user = crate::auth::created_user(request, id, d.millis);
    let more = put(users, id, user);
    lookup_after_put(s.users, namespace, more, namespace);
    lookup_after_put(users, id, user, id);
    crate::ordered::lower_bound_properties(Seq::<(Seq<char>, UserView)>::empty(), id);
}

/// A refresh token that is good gets a new session for its user, and the answer
/// tells the new tokens, the user and the project. One that is not known, has
/// expired, was made for something else or whose user is gone, is disabled or
/// has ended older sessions gets none.
pub proof fn refreshing_opens_a_session(
    s: AuthView,
    refresh: Seq<char>,
    d: DrawView,
    session: AuthSessionView,
)
    requires
        keys_sorted(s.sessions),
        lookup(s.sessions, refresh) == Some(session),
    ensures
        ({
            let (after, answer) = refresh_spec(
                s,
                Some("refresh_token"@),
                Some(refresh),
                true,
                d,
            );
            let user = account(s, session.namespace, session.uid);
            let good = session.kind == SessionKind::RefreshToken && session.expires_at > d.now
                && user is Some && !user->0.disabled && valid_from(user->0) <= session.issued_at;
            &&& (answer is Ok) == good
            &&& after.users == s.users
            &&& good ==> ({
                let token = session_token(session.namespace, user->0, d.now);
                &&& after == issue_session_spec(s, session.namespace, user->0, d).0
                &&& member(answer->Ok_0, "id_token"@) == Some(JsonView::Text(token))
                &&& member(answer->Ok_0, "access_token"@) == Some(JsonView::Text(token))
                &&& member(answer->Ok_0, "refresh_token"@) == Some(JsonView::Text(d.refresh))
                &&& member(answer->Ok_0, "expires_in"@) == Some(JsonView::Text("3600"@))
                &&& member(answer->Ok_0, "user_id"@) == Some(JsonView::Text(session.uid))
                &&& member(answer->Ok_0, "project_id"@) == Some(
                    JsonView::Text(project_of(session.namespace)),
                )
            })
        }),
{
    crate::ordered::lower_bound_properties(
        Seq::<(Seq<char>, UserView)>::empty(),
        session.uid,
    );
    let user = account(s, session.namespace, session.uid);
    if user is Some {
        let token = session_token(session.namespace, user->0, d.now);
        refresh_answer(token, d.refresh, session.uid, session.namespace);
    }
}

proof fn refresh_answer(
    token: Seq<char>,
    refresh: Seq<char>,
    uid: Seq<char>,
    namespace: Seq<char>,
)
    ensures
        ({
            let v = refreshed_json(token, refresh, uid, namespace);
            &&& member(v, "id_token"@) == Some(JsonView::Text(token))
            &&& member(v, "access_token"@) == Some(JsonView::Text(token))
            &&& member(v, "refresh_token"@) == Some(JsonView::Text(refresh))
            &&& member(v, "expires_in"@) == Some(JsonView::Text("3600"@))
            &&& member(v, "user_id"@) == Some(JsonView::Text(uid))
            &&& member(v, "project_id"@) == Some(JsonView::Text(project_of(namespace)))
        }),
{
    reveal_strlit("access_token");
    reveal_strlit("id_token");
    reveal_strlit("refresh_token");
    reveal_strlit("expires_in");
    reveal_strlit("token_type");
    reveal_strlit("user_id");
    reveal_strlit("project_id");
    assert("access_token"@.len() == 12 && "id_token"@.len() == 8 && "refresh_token"@.len() == 13
        && "user_id"@.len() == 7);
    assert("expires_in"@[0] == 'e' && "token_type"@[0] == 't' && "project_id"@[0] == 'p');
    began("access_token"@, JsonView::Text(token));
    let v = object1("access_token"@, JsonView::Text(token));
    added(v, "id_token"@, JsonView::Text(token));
    let v = with_member(v, "id_token"@, JsonView::Text(token));
    added(v, "refresh_token"@, JsonView::Text(refresh));
    let v = with_member(v, "refresh_token"@, JsonView::Text(refresh));
    added(v, "expires_in"@, JsonView::Text("3600"@));
    let v = with_member(v, "expires_in"@, JsonView::Text("3600"@));
    added(v, "token_type"@, JsonView::Text("Bearer"@));
    let v = with_member(v, "token_type"@, JsonView::Text("Bearer"@));
    added(v, "user_id"@, JsonView::Text(uid));
    let v = with_member(v, "user_id"@, JsonView::Text(uid));
    added(v, "project_id"@, JsonView::Text(project_of(namespace)));
}

/// Addresses that differ in the case of letters alone are the same, and no
/// others are.
pub proof fn addresses_ignore_case(a: Seq<char>, b: Seq<char>)
    ensures
        same_but_case(a, a),
        same_but_case(a, b) ==> a.len() == b.len(),
        same_but_case(a, b) && (forall|i: int|
            0 <= i < a.len() ==> !('A' <= #[trigger] a[i] && a[i] <= 'Z')) && (forall|i: int|
            0 <= i < b.len() ==> !('A' <= #[trigger] b[i] && b[i] <= 'Z')) ==> a == b,
{
    if same_but_case(a, b) && (forall|i: int|
        0 <= i < a.len() ==> !('A' <= #[trigger] a[i] && a[i] <= 'Z')) && (forall|i: int|
        0 <= i < b.len() ==> !('A' <= #[trigger] b[i] && b[i] <= 'Z')) {
        assert forall|i: int| 0 <= i < a.len() implies a[i] == b[i] by {
            assert(!('A' <= a[i] && a[i] <= 'Z'));
            assert(!('A' <= b[i] && b[i] <= 'Z'));
        }
        assert(a =~= b);
    }
}

} // verus!
