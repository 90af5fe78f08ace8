//! What holds of users and sessions, whatever is asked.
use crate::accounts::{
    contacts_stay_unique, contacts_unique, email_symmetric, filed_by_id, has_email, has_phone,
    not_taken, taken, user_json_spec, without_attributes, AccountView, UserView, UsersView,
};
use crate::auth::{
    claimed_number, claims_of, claims_spec, creation, custom_claims, delete_account_spec,
    is_of_another, is_open, issue_session_spec, later, project_of, refresh_spec, session_token,
    session_user_spec, updating, users_of, valid_from, with_users, AuthSessionView, AuthView,
    DrawView, SessionKind, ID_TOKEN_TTL_SECS,
};
use crate::auth_service::one_more;
use crate::json::{empty_object, member, members_sorted, object1, with_member, JsonView};
use crate::ordered::{
    keep_entries, keep_entries_sorted, keys_sorted, lookup, lookup_after_keep, lookup_after_put,
    lookup_found, put, put_sorted,
};
use crate::storage::with_text;
use vstd::prelude::*;

verus! {

proof fn another_claim(v: JsonView, key: Seq<char>, value: JsonView)
    requires
        v is Object,
        keys_sorted(v->Object_0),
    ensures
        with_member(v, key, value) is Object,
        keys_sorted(with_member(v, key, value)->Object_0),
        member(with_member(v, key, value), key) == Some(value),
        key != "exp"@ ==> member(with_member(v, key, value), "exp"@) == member(v, "exp"@),
        key != "auth_time"@ ==> member(with_member(v, key, value), "auth_time"@) == member(
            v,
            "auth_time"@,
        ),
{
    one_more(v, key, value, "exp"@);
    one_more(v, key, value, "auth_time"@);
}

proof fn claim_names_differ()
    ensures
        "auth_time"@.len() == 9,
        "user_id"@.len() == 7,
        "sub"@.len() == 3 && "sub"@[0] == 's',
        "iat"@.len() == 3 && "iat"@[0] == 'i',
        "exp"@.len() == 3 && "exp"@[0] == 'e',
        "email_verified"@.len() == 14,
        "firebase"@.len() == 8,
        "email"@.len() == 5,
        "name"@.len() == 4,
{
    reveal_strlit("auth_time");
    reveal_strlit("user_id");
    reveal_strlit("sub");
    reveal_strlit("iat");
    reveal_strlit("exp");
    reveal_strlit("email_verified");
    reveal_strlit("firebase");
    reveal_strlit("email");
    reveal_strlit("name");
}

/// The claims of a token tell when it was issued and when it expires, whatever
/// the custom claims of the user say.
pub proof fn claims_tell_the_time(
    namespace: Seq<char>,
    user: UserView,
    now: u64,
    parsed: Option<JsonView>,
)
    requires
        parsed is Some ==> members_sorted(parsed->0),
    ensures
        claimed_number(claims_spec(namespace, user, now, parsed), "auth_time"@) == now,
        claimed_number(claims_spec(namespace, user, now, parsed), "exp"@) == later(
            now,
            ID_TOKEN_TTL_SECS,
        ),
{
    claim_names_differ();
    let project = project_of(namespace);
    let v = custom_claims(parsed);
    let value = JsonView::Text("https://securetoken.google.com/"@ + project);
    another_claim(v, "iss"@, value);
    let v = with_member(v, "iss"@, value);
    another_claim(v, "aud"@, JsonView::Text(project));
    let v = with_member(v, "aud"@, JsonView::Text(project));
    another_claim(v, "auth_time"@, JsonView::Unsigned(now));
    let v = with_member(v, "auth_time"@, JsonView::Unsigned(now));
    another_claim(v, "user_id"@, JsonView::Text(user.local_id));
    let v = with_member(v, "user_id"@, JsonView::Text(user.local_id));
    another_claim(v, "sub"@, JsonView::Text(user.local_id));
    let v = with_member(v, "sub"@, JsonView::Text(user.local_id));
    another_claim(v, "iat"@, JsonView::Unsigned(now));
    let v = with_member(v, "iat"@, JsonView::Unsigned(now));
    let end = JsonView::Unsigned(later(now, ID_TOKEN_TTL_SECS));
    another_claim(v, "exp"@, end);
    let v = with_member(v, "exp"@, end);
    another_claim(v, "email_verified"@, JsonView::Bool(user.email_verified));
    let v = with_member(v, "email_verified"@, JsonView::Bool(user.email_verified));
    another_claim(v, "firebase"@, crate::auth::firebase_json(user));
    let v = with_member(v, "firebase"@, crate::auth::firebase_json(user));
    if user.email is Some {
        another_claim(v, "email"@, JsonView::Text(user.email->0));
    }
    let v = match user.email {
        Some(email) => with_member(v, "email"@, JsonView::Text(email)),
        None => v,
    };
    if user.display_name is Some {
        another_claim(v, "name"@, JsonView::Text(user.display_name->0));
    }
}

/// The token that a user is handed is accepted until it expires, in the
/// project that it was issued in, as long as the user is not disabled and the
/// sessions of that time are good; `claims` are those that the token carries.
pub proof fn issued_token_is_accepted(
    s: AuthView,
    namespace: Seq<char>,
    user: UserView,
    d: DrawView,
    parsed: Option<JsonView>,
    now: u64,
)
    requires
        keys_sorted(s.sessions),
        parsed is Some ==> members_sorted(parsed->0),
        lookup(users_of(s, namespace), user.local_id) == Some(user),
        !user.disabled,
        valid_from(user) <= d.now,
        d.now <= now < later(d.now, ID_TOKEN_TTL_SECS),
        session_token(namespace, user, d.now) != d.refresh,
    ensures
        ({
            let token = session_token(namespace, user, d.now);
            let (opened, _) = issue_session_spec(s, namespace, user, d);
            let claims = claims_spec(namespace, user, d.now, parsed);
            session_user_spec(opened, namespace, token, Some(claims), now) == (
                opened,
                Ok::<UserView, Seq<char>>(user),
            )
        }),
{
    let token = session_token(namespace, user, d.now);
    let kept = keep_entries(s.sessions, is_open(d.now));
    keep_entries_sorted(s.sessions, is_open(d.now));
    let session = AuthSessionView {
        namespace,
        uid: user.local_id,
        issued_at: d.now,
        expires_at: later(d.now, ID_TOKEN_TTL_SECS),
        kind: SessionKind::IdToken,
    };
    put_sorted(kept, token, session);
    lookup_after_put(kept, token, session, token);
    let second = AuthSessionView {
        namespace,
        uid: user.local_id,
        issued_at: d.now,
        expires_at: later(d.now, crate::auth::REFRESH_TOKEN_TTL_SECS),
        kind: SessionKind::RefreshToken,
    };
    lookup_after_put(put(kept, token, session), d.refresh, second, token);
    claims_tell_the_time(namespace, user, d.now, parsed);
}

/// A token of another project, or one that was never issued, is refused.
pub proof fn foreign_token_is_refused(
    s: AuthView,
    namespace: Seq<char>,
    token: Seq<char>,
    claims: Option<JsonView>,
    now: u64,
)
    requires
        lookup(s.sessions, token) matches Some(session) ==> session.namespace != namespace,
    ensures
        session_user_spec(s, namespace, token, claims, now) == (
            s,
            Err::<UserView, Seq<char>>("INVALID_ID_TOKEN"@),
        ),
{
}

/// An id token does not refresh a session.
pub proof fn id_token_does_not_refresh(
    s: AuthView,
    token: Seq<char>,
    is_uuid: bool,
    d: DrawView,
)
    requires
        lookup(s.sessions, token) matches Some(session) && session.kind == SessionKind::IdToken,
    ensures
        refresh_spec(s, Some("refresh_token"@), Some(token), is_uuid, d).1 == Err::<
            JsonView,
            Seq<char>,
        >("INVALID_REFRESH_TOKEN"@),
{
}

/// Opening a session forgets those that have expired.
pub proof fn expired_sessions_are_forgotten(
    s: AuthView,
    namespace: Seq<char>,
    user: UserView,
    d: DrawView,
    token: Seq<char>,
)
    requires
        keys_sorted(s.sessions),
        lookup(s.sessions, token) is Some,
        lookup(s.sessions, token)->0.expires_at <= d.now,
        token != session_token(namespace, user, d.now),
        token != d.refresh,
    ensures
        lookup(issue_session_spec(s, namespace, user, d).0.sessions, token) is None,
{
    let issued = session_token(namespace, user, d.now);
    let kept = keep_entries(s.sessions, is_open(d.now));
    keep_entries_sorted(s.sessions, is_open(d.now));
    lookup_after_keep(s.sessions, is_open(d.now), token);
    let session = AuthSessionView {
        namespace,
        uid: user.local_id,
        issued_at: d.now,
        expires_at: later(d.now, ID_TOKEN_TTL_SECS),
        kind: SessionKind::IdToken,
    };
    put_sorted(kept, issued, session);
    lookup_after_put(kept, issued, session, token);
    let second = AuthSessionView {
        namespace,
        uid: user.local_id,
        issued_at: d.now,
        expires_at: later(d.now, crate::auth::REFRESH_TOKEN_TTL_SECS),
        kind: SessionKind::RefreshToken,
    };
    lookup_after_put(put(kept, issued, session), d.refresh, second, token);
}

/// Deleting an account ends its sessions: none of its tokens is accepted any
/// more, and neither its id tokens nor its refresh tokens are known.
pub proof fn deleted_account_has_no_session(
    s: AuthView,
    namespace: Seq<char>,
    uid: Seq<char>,
    now: u64,
    token: Seq<char>,
)
    requires
        keys_sorted(s.sessions),
        lookup(users_of(s, namespace), uid) is Some,
        lookup(s.sessions, token) matches Some(session) && session.namespace == namespace
            && session.uid == uid,
    ensures
        ({
            let (after, answer) = delete_account_spec(s, namespace, None, uid, now);
            &&& answer is Ok
            &&& lookup(after.sessions, token) is None
            &&& session_user_spec(after, namespace, token, claims_of(token), now).1 == Err::<
                UserView,
                Seq<char>,
            >("INVALID_ID_TOKEN"@)
        }),
{
    lookup_after_keep(s.sessions, is_of_another(namespace, uid), token);
}

/// What is done in one project leaves the users of every other as they are.
pub proof fn projects_are_isolated(
    s: AuthView,
    namespace: Seq<char>,
    users: UsersView,
    other: Seq<char>,
)
    requires
        keys_sorted(s.users),
        other != namespace,
    ensures
        users_of(with_users(s, namespace, users), other) == users_of(s, other),
        users_of(with_users(s, namespace, users), namespace) == users,
{
    lookup_after_put(s.users, namespace, users, other);
}

proof fn free_for(
    users: UsersView,
    email: Option<Seq<char>>,
    phone: Option<Seq<char>>,
    id: Seq<char>,
    i: int,
)
    requires
        0 <= i,
        forall|k: int|
            i <= k < users.len() && (#[trigger] users[k]).1.local_id != id ==> !has_email(
                users[k].1,
                email,
            ) && !has_phone(users[k].1, phone),
    ensures
        taken(users, email, phone, Some(id), i) is None,
    decreases users.len() - i,
{
    if i < users.len() {
        free_for(users, email, phone, id, i + 1);
    }
}

/// Creating an account keeps the contacts of a project's users unique, the
/// case of letters aside, and each user under the user's own id.
pub proof fn creation_keeps_contacts_unique(users: UsersView, request: AccountView, d: DrawView)
    requires
        keys_sorted(users),
        filed_by_id(users),
        contacts_unique(users),
        creation(users, request, d) is Ok,
    ensures
        ({
            let user = creation(users, request, d)->Ok_0;
            &&& filed_by_id(put(users, user.local_id, user))
            &&& contacts_unique(put(users, user.local_id, user))
        }),
{
    let user = creation(users, request, d)->Ok_0;
    assert forall|k: int|
        0 <= k < users.len() && (#[trigger] users[k]).1.local_id != user.local_id implies !has_email(
        users[k].1,
        user.email,
    ) && !has_phone(users[k].1, user.phone_number) by {
        not_taken(users, request.email, request.phone_number, None, 0, k);
    }
    free_for(users, user.email, user.phone_number, user.local_id, 0);
    contacts_stay_unique(users, user);
}

proof fn deletions_keep(user: UserView, attributes: Seq<Seq<char>>, n: nat)
    ensures
        ({
            let after = without_attributes(user, attributes, n);
            &&& after.local_id == user.local_id
            &&& after.email == user.email || after.email is None
            &&& after.phone_number == user.phone_number || after.phone_number is None
        }),
    decreases n,
{
    if n > 0 && n <= attributes.len() {
        deletions_keep(user, attributes, (n - 1) as nat);
    }
}

/// Updating an account keeps the contacts of a project's users unique, the
/// case of letters aside, and each user under the user's own id.
pub proof fn update_keeps_contacts_unique(
    users: UsersView,
    local_id: Seq<char>,
    request: AccountView,
)
    requires
        keys_sorted(users),
        filed_by_id(users),
        contacts_unique(users),
        updating(users, Some(local_id), request) is Ok,
    ensures
        ({
            let user = updating(users, Some(local_id), request)->Ok_0;
            &&& filed_by_id(put(users, local_id, user))
            &&& contacts_unique(put(users, local_id, user))
        }),
{
    let user = updating(users, Some(local_id), request)->Ok_0;
    let before = lookup(users, local_id)->0;
    lookup_found(users, local_id);
    let b = choose|b: int| 0 <= b < users.len() && #[trigger] users[b] == (local_id, before);
    assert(users[b].0 == users[b].1.local_id);
    deletions_keep(before, request.delete_attribute, request.delete_attribute.len());
    assert(user.local_id == local_id);
    assert forall|k: int|
        0 <= k < users.len() && (#[trigger] users[k]).1.local_id != local_id implies !has_email(
        users[k].1,
        user.email,
    ) && !has_phone(users[k].1, user.phone_number) by {
        not_taken(users, request.email, request.phone_number, Some(local_id), 0, k);
        email_symmetric(users[k].1, before);
        if k < b {
            assert(!has_email(users[k].1, users[b].1.email) && !has_phone(
                users[k].1,
                users[b].1.phone_number,
            ));
        } else {
            assert(k != b);
            assert(!has_email(users[b].1, users[k].1.email) && !has_phone(
                users[b].1,
                users[k].1.phone_number,
            ));
        }
    }
    free_for(users, user.email, user.phone_number, local_id, 0);
    contacts_stay_unique(users, user);
}

proof fn shown(v: JsonView, key: Seq<char>, value: JsonView)
    requires
        v is Object,
        keys_sorted(v->Object_0),
        member(v, "password"@) is None,
        key != "password"@,
    ensures
        with_member(v, key, value) is Object,
        keys_sorted(with_member(v, key, value)->Object_0),
        member(with_member(v, key, value), "password"@) is None,
{
    one_more(v, key, value, "password"@);
}

proof fn shown_text(v: JsonView, key: Seq<char>, text: Option<Seq<char>>)
    requires
        v is Object,
        keys_sorted(v->Object_0),
        member(v, "password"@) is None,
        key != "password"@,
    ensures
        with_text(v, key, text) is Object,
        keys_sorted(with_text(v, key, text)->Object_0),
        member(with_text(v, key, text), "password"@) is None,
{
    if text is Some {
        shown(v, key, JsonView::Text(text->0));
    }
}

/// What is shown of a user does not hold the password.
pub proof fn password_is_not_shown(user: UserView)
    ensures
        member(user_json_spec(user), "password"@) is None,
{
    reveal_strlit("password");
    reveal_strlit("localId");
    reveal_strlit("email");
    reveal_strlit("emailVerified");
    reveal_strlit("displayName");
    reveal_strlit("photoUrl");
    reveal_strlit("phoneNumber");
    reveal_strlit("disabled");
    reveal_strlit("customAttributes");
    reveal_strlit("providerUserInfo");
    reveal_strlit("mfaInfo");
    reveal_strlit("validSince");
    reveal_strlit("createdAt");
    reveal_strlit("lastLoginAt");
    assert("photoUrl"@[1] == 'h' && "password"@[1] == 'a' && "disabled"@[0] == 'd'
        && "password"@[0] == 'p');
    shown(empty_object(), "localId"@, JsonView::Text(user.local_id));
    let v = object1("localId"@, JsonView::Text(user.local_id));
    shown_text(v, "email"@, user.email);
    let v = with_text(v, "email"@, user.email);
    shown(v, "emailVerified"@, JsonView::Bool(user.email_verified));
    let v = with_member(v, "emailVerified"@, JsonView::Bool(user.email_verified));
    shown_text(v, "displayName"@, user.display_name);
    let v = with_text(v, "displayName"@, user.display_name);
    shown_text(v, "photoUrl"@, user.photo_url);
    let v = with_text(v, "photoUrl"@, user.photo_url);
    shown_text(v, "phoneNumber"@, user.phone_number);
    let v = with_text(v, "phoneNumber"@, user.phone_number);
    shown(v, "disabled"@, JsonView::Bool(user.disabled));
    let v = with_member(v, "disabled"@, JsonView::Bool(user.disabled));
    shown_text(v, "customAttributes"@, user.custom_attributes);
    let v = with_text(v, "customAttributes"@, user.custom_attributes);
    shown(v, "providerUserInfo"@, JsonView::Array(user.provider_user_info));
    let v = with_member(v, "providerUserInfo"@, JsonView::Array(user.provider_user_info));
    if user.mfa_info.len() != 0 {
        shown(v, "mfaInfo"@, JsonView::Array(user.mfa_info));
    }
    let v = if user.mfa_info.len() == 0 {
        v
    } else {
        with_member(v, "mfaInfo"@, JsonView::Array(user.mfa_info))
    };
    shown(v, "validSince"@, JsonView::Text(user.valid_since));
    let v = with_member(v, "validSince"@, JsonView::Text(user.valid_since));
    shown(v, "createdAt"@, JsonView::Text(user.created_at));
    let v = with_member(v, "createdAt"@, JsonView::Text(user.created_at));
    shown(v, "lastLoginAt"@, JsonView::Text(user.last_login_at));
}

} // verus!
