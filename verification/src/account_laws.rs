//! What is shown of an account after it was created, updated, signed in to,
//! refreshed or deleted.
use crate::accounts::{
    is_asked_for, user_json_spec, without_attributes, AccountView, UserView, UsersView,
};
use crate::auth::{
    create_account_spec, delete_account_spec, found_users, lookup_accounts_spec,
    update_account_spec, updated_user, users_of, with_users, AuthView, DrawView,
};
use crate::json::{member, object1, with_member, JsonView};
use crate::json_laws::{is_object, members_are_added, one_member_is_alone};
use crate::ordered::{keys_sorted, lookup, lookup_after_put, lookup_after_without, lookup_at, put};
use crate::storage::with_text;
use vstd::prelude::*;

verus! {

pub(crate) proof fn added(v: JsonView, key: Seq<char>, value: JsonView)
    requires
        is_object(v),
    ensures
        is_object(with_member(v, key, value)),
        forall|other: Seq<char>|
            #![trigger member(with_member(v, key, value), other)]
            member(with_member(v, key, value), other) == if other == key {
                Some(value)
            } else {
                member(v, other)
            },
{
    members_are_added(v, key, value, key);
    assert forall|other: Seq<char>|
        #![trigger member(with_member(v, key, value), other)]
        member(with_member(v, key, value), other) == if other == key {
            Some(value)
        } else {
            member(v, other)
        } by {
        members_are_added(v, key, value, other);
    }
}

pub(crate) proof fn began(key: Seq<char>, value: JsonView)
    ensures
        is_object(object1(key, value)),
        forall|other: Seq<char>|
            #![trigger member(object1(key, value), other)]
            member(object1(key, value), other) == if other == key {
                Some(value)
            } else {
                None
            },
{
    one_member_is_alone(key, value, key);
    assert forall|other: Seq<char>|
        #![trigger member(object1(key, value), other)]
        member(object1(key, value), other) == if other == key {
            Some(value)
        } else {
            None
        } by {
        one_member_is_alone(key, value, other);
    }
}

/// A text as a member of an object, where there is one.
pub open spec fn text_member(text: Option<Seq<char>>) -> Option<JsonView> {
    match text {
        Some(t) => Some(JsonView::Text(t)),
        None => None,
    }
}

proof fn text_added(v: JsonView, key: Seq<char>, text: Option<Seq<char>>)
    requires
        is_object(v),
    ensures
        is_object(with_text(v, key, text)),
        forall|other: Seq<char>|
            #![trigger member(with_text(v, key, text), other)]
            member(with_text(v, key, text), other) == if other == key && text is Some {
                text_member(text)
            } else {
                member(v, other)
            },
{
    if text is Some {
        added(v, key, JsonView::Text(text->0));
    }
}

/// Whether JSON shows a user: the id, the address and whether it is verified,
/// the name, the picture, the phone number, the custom attributes, whether the
/// user is disabled, the providers, and the times.
pub open spec fn shows(v: JsonView, user: UserView) -> bool {
    &&& member(v, "localId"@) == Some(JsonView::Text(user.local_id))
    &&& member(v, "email"@) == text_member(user.email)
    &&& member(v, "emailVerified"@) == Some(JsonView::Bool(user.email_verified))
    &&& member(v, "displayName"@) == text_member(user.display_name)
    &&& member(v, "photoUrl"@) == text_member(user.photo_url)
    &&& member(v, "phoneNumber"@) == text_member(user.phone_number)
    &&& member(v, "disabled"@) == Some(JsonView::Bool(user.disabled))
    &&& member(v, "customAttributes"@) == text_member(user.custom_attributes)
    &&& member(v, "providerUserInfo"@) == Some(JsonView::Array(user.provider_user_info))
    &&& member(v, "validSince"@) == Some(JsonView::Text(user.valid_since))
    &&& member(v, "createdAt"@) == Some(JsonView::Text(user.created_at))
    &&& member(v, "lastLoginAt"@) == Some(JsonView::Text(user.last_login_at))
    &&& user.mfa_info.len() > 0 ==> member(v, "mfaInfo"@) == Some(JsonView::Array(user.mfa_info))
}

proof fn user_keys_differ()
    ensures
        "localId"@.len() == 7 && "localId"@[0] == 'l',
        "email"@.len() == 5,
        "emailVerified"@.len() == 13,
        "displayName"@.len() == 11 && "displayName"@[0] == 'd',
        "photoUrl"@.len() == 8 && "photoUrl"@[0] == 'p',
        "phoneNumber"@.len() == 11 && "phoneNumber"@[0] == 'p',
        "disabled"@.len() == 8 && "disabled"@[0] == 'd',
        "customAttributes"@.len() == 16 && "customAttributes"@[0] == 'c',
        "providerUserInfo"@.len() == 16 && "providerUserInfo"@[0] == 'p',
        "mfaInfo"@.len() == 7 && "mfaInfo"@[0] == 'm',
        "validSince"@.len() == 10,
        "createdAt"@.len() == 9,
        "lastLoginAt"@.len() == 11 && "lastLoginAt"@[0] == 'l',
{
    reveal_strlit("localId");
    reveal_strlit("email");
    reveal_strlit("emailVerified");
    reveal_strlit("displayName");
    reveal_strlit("photoUrl");
    reveal_strlit("phoneNumber");
    reveal_strlit("disabled");
    reveal_strlit("customAttributes");
    reveal_strlit("providerUserInfo");
    reveal_strlit("mfaInfo");
    reveal_strlit("validSince");
    reveal_strlit("createdAt");
    reveal_strlit("lastLoginAt");
}

/// The JSON of a user shows the user.
pub proof fn users_are_shown(user: UserView)
    ensures
        shows(user_json_spec(user), user),
        is_object(user_json_spec(user)),
{
    user_keys_differ();
    began("localId"@, JsonView::Text(user.local_id));
    let v = object1("localId"@, JsonView::Text(user.local_id));
    text_added(v, "email"@, user.email);
    let v = with_text(v, "email"@, user.email);
    added(v, "emailVerified"@, JsonView::Bool(user.email_verified));
    let v = with_member(v, "emailVerified"@, JsonView::Bool(user.email_verified));
    text_added(v, "displayName"@, user.display_name);
    let v = with_text(v, "displayName"@, user.display_name);
    text_added(v, "photoUrl"@, user.photo_url);
    let v = with_text(v, "photoUrl"@, user.photo_url);
    text_added(v, "phoneNumber"@, user.phone_number);
    let v = with_text(v, "phoneNumber"@, user.phone_number);
    added(v, "disabled"@, JsonView::Bool(user.disabled));
    let v = with_member(v, "disabled"@, JsonView::Bool(user.disabled));
    text_added(v, "customAttributes"@, user.custom_attributes);
    let v = with_text(v, "customAttributes"@, user.custom_attributes);
    added(v, "providerUserInfo"@, JsonView::Array(user.provider_user_info));
    let v = with_member(v, "providerUserInfo"@, JsonView::Array(user.provider_user_info));
    added(v, "mfaInfo"@, JsonView::Array(user.mfa_info));
    let v = if user.mfa_info.len() == 0 {
        v
    } else {
        with_member(v, "mfaInfo"@, JsonView::Array(user.mfa_info))
    };
    added(v, "validSince"@, JsonView::Text(user.valid_since));
    let v = with_member(v, "validSince"@, JsonView::Text(user.valid_since));
    added(v, "createdAt"@, JsonView::Text(user.created_at));
    let v = with_member(v, "createdAt"@, JsonView::Text(user.created_at));
    added(v, "lastLoginAt"@, JsonView::Text(user.last_login_at));
}

/// What an update leaves of an attribute: what the request gives; else nothing
/// where the request deletes it; else what was there.
pub open spec fn attribute_after(
    before: Option<Seq<char>>,
    given: Option<Seq<char>>,
    deleted: bool,
) -> Option<Seq<char>> {
    if given is Some {
        given
    } else if deleted {
        None
    } else {
        before
    }
}

proof fn deletions_take_what_they_name(user: UserView, attributes: Seq<Seq<char>>, n: nat)
    requires
        n <= attributes.len(),
    ensures
        ({
            let after = without_attributes(user, attributes, n);
            let named = attributes.take(n as int);
            &&& after.email == attribute_after(user.email, None, named.contains("EMAIL"@))
            &&& after.email_verified == (user.email_verified && !named.contains("EMAIL"@))
            &&& after.display_name == attribute_after(
                user.display_name,
                None,
                named.contains("DISPLAY_NAME"@),
            )
            &&& after.photo_url == attribute_after(
                user.photo_url,
                None,
                named.contains("PHOTO_URL"@),
            )
            &&& after.phone_number == attribute_after(
                user.phone_number,
                None,
                named.contains("PHONE_NUMBER"@),
            )
            &&& after.custom_attributes == attribute_after(
                user.custom_attributes,
                None,
                named.contains("CUSTOM_ATTRIBUTES"@),
            )
            &&& after.local_id == user.local_id
            &&& after.password == user.password
            &&& after.disabled == user.disabled
            &&& after.valid_since == user.valid_since
            &&& after.created_at == user.created_at
            &&& after.last_login_at == user.last_login_at
            &&& after.provider_user_info == user.provider_user_info
            &&& after.mfa_info == user.mfa_info
        }),
    decreases n,
{
    reveal_strlit("EMAIL");
    reveal_strlit("DISPLAY_NAME");
    reveal_strlit("PHOTO_URL");
    reveal_strlit("PHONE_NUMBER");
    reveal_strlit("CUSTOM_ATTRIBUTES");
    assert("EMAIL"@.len() == 5 && "PHOTO_URL"@.len() == 9 && "CUSTOM_ATTRIBUTES"@.len() == 17);
    assert("DISPLAY_NAME"@[0] == 'D' && "PHONE_NUMBER"@[0] == 'P');
    let named = attributes.take(n as int);
    if n > 0 {
        deletions_take_what_they_name(user, attributes, (n - 1) as nat);
        let fewer = attributes.take(n - 1);
        assert(named =~= fewer.push(attributes[n - 1]));
        assert forall|x: Seq<char>| #[trigger] named.contains(x) == (fewer.contains(x)
            || attributes[n - 1] == x) by {
            if fewer.contains(x) {
                let i = choose|i: int| 0 <= i < fewer.len() && fewer[i] == x;
                assert(named[i] == x);
            }
            if named.contains(x) {
                let i = choose|i: int| 0 <= i < named.len() && named[i] == x;
                if i < fewer.len() {
                    assert(fewer[i] == x);
                }
            }
            assert(named[n - 1] == attributes[n - 1]);
        }
    } else {
        assert(named =~= Seq::empty());
    }
}

/// Whether a user is what an update by a request makes of another: every
/// attribute that the request gives is that of the request, every one that it
/// deletes and does not give is gone, and every other is as before.
pub open spec fn is_updated(before: UserView, request: AccountView, after: UserView) -> bool {
    let deleted = request.delete_attribute;
    &&& after.local_id == before.local_id
    &&& after.email == attribute_after(before.email, request.email, deleted.contains("EMAIL"@))
    &&& after.display_name == attribute_after(
        before.display_name,
        request.display_name,
        deleted.contains("DISPLAY_NAME"@),
    )
    &&& after.photo_url == attribute_after(
        before.photo_url,
        request.photo_url,
        deleted.contains("PHOTO_URL"@),
    )
    &&& after.phone_number == attribute_after(
        before.phone_number,
        request.phone_number,
        deleted.contains("PHONE_NUMBER"@),
    )
    &&& after.custom_attributes == attribute_after(
        before.custom_attributes,
        request.custom_attributes,
        deleted.contains("CUSTOM_ATTRIBUTES"@),
    )
    &&& after.password == attribute_after(before.password, request.password, false)
    &&& after.email_verified == (match request.email_verified {
        Some(verified) => verified,
        None => before.email_verified && !deleted.contains("EMAIL"@),
    })
    &&& after.disabled == (match request.disable_user {
        Some(disabled) => disabled,
        None => match request.disabled {
            Some(disabled) => disabled,
            None => before.disabled,
        },
    })
    &&& after.valid_since == (match request.valid_since {
        Some(time) => time,
        None => before.valid_since,
    })
    &&& after.mfa_info == (if request.mfa.len() > 0 {
        request.mfa
    } else if request.mfa_info.len() > 0 {
        request.mfa_info
    } else {
        before.mfa_info
    })
    &&& after.created_at == before.created_at
    &&& after.last_login_at == before.last_login_at
}

/// An update gives a user what the request gives, takes what it deletes, and
/// leaves the rest.
pub proof fn updates_change_what_they_name(before: UserView, request: AccountView)
    ensures
        is_updated(before, request, updated_user(before, request)),
{
    let names = request.delete_attribute;
    deletions_take_what_they_name(before, names, names.len());
    assert(names.take(names.len() as int) =~= names);
}

/// The user of a namespace with an id.
pub open spec fn account(s: AuthView, namespace: Seq<char>, id: Seq<char>) -> Option<UserView> {
    match lookup(s.users, namespace) {
        Some(users) => lookup(users, id),
        None => None,
    }
}

proof fn stored_users_are_found(
    s: AuthView,
    namespace: Seq<char>,
    users: UsersView,
    id: Seq<char>,
    other: Seq<char>,
)
    requires
        keys_sorted(s.users),
    ensures
        account(with_users(s, namespace, users), namespace, id) == lookup(users, id),
        other != namespace ==> account(with_users(s, namespace, users), other, id) == account(
            s,
            other,
            id,
        ),
        users_of(with_users(s, namespace, users), namespace) == users,
        lookup(users_of(s, namespace), id) == account(s, namespace, id),
{
    lookup_after_put(s.users, namespace, users, namespace);
    lookup_after_put(s.users, namespace, users, other);
    crate::ordered::lower_bound_properties(Seq::<(Seq<char>, UserView)>::empty(), id);
}

/// An accepted update of an account by its id is there when the account is
/// looked up: with what the request gives, without what it deletes, and
/// otherwise as before. The answer shows the account, and no other account
/// changes.
pub proof fn updated_accounts_are_looked_up(
    s: AuthView,
    namespace: Seq<char>,
    request: AccountView,
    d: DrawView,
    id: Seq<char>,
    other: Seq<char>,
    elsewhere: Seq<char>,
)
    requires
        keys_sorted(s.users),
        keys_sorted(users_of(s, namespace)),
        request.id_token is None,
        request.local_id == Some(id),
        update_account_spec(s, namespace, request, d).1 is Ok,
    ensures
        ({
            let (after, answer) = update_account_spec(s, namespace, request, d);
            &&& account(s, namespace, id) matches Some(before)
            &&& account(after, namespace, id) matches Some(user)
            &&& is_updated(before, request, user)
            &&& shows(answer->Ok_0, user)
            &&& after.sessions == s.sessions
            &&& other != id ==> account(after, namespace, other) == account(s, namespace, other)
            &&& elsewhere != namespace ==> account(after, elsewhere, other) == account(
                s,
                elsewhere,
                other,
            )
        }),
{
    let users = users_of(s, namespace);
    let before = lookup(users, id)->0;
    let user = updated_user(before, request);
    updates_change_what_they_name(before, request);
    users_are_shown(user);
    stored_users_are_found(s, namespace, put(users, id, user), id, elsewhere);
    stored_users_are_found(s, namespace, put(users, id, user), other, elsewhere);
    lookup_after_put(users, id, user, other);
    lookup_after_put(users, id, user, id);
}

/// An update of an account that is not there is refused, and changes nothing.
pub proof fn missing_accounts_are_not_updated(
    s: AuthView,
    namespace: Seq<char>,
    request: AccountView,
    d: DrawView,
    id: Seq<char>,
)
    requires
        request.id_token is None,
        request.local_id == Some(id),
        lookup(users_of(s, namespace), id) is None,
    ensures
        update_account_spec(s, namespace, request, d).0 == s,
        update_account_spec(s, namespace, request, d).1 is Err,
{
}

/// Whether a user is what a request creates at a time under an id.
pub open spec fn is_created(
    request: AccountView,
    id: Seq<char>,
    millis: Seq<char>,
    user: UserView,
) -> bool {
    &&& user.local_id == id
    &&& user.password == request.password
    &&& user.email == request.email
    &&& user.email_verified == (request.email_verified == Some(true))
    &&& user.display_name == request.display_name
    &&& user.photo_url == request.photo_url
    &&& user.phone_number == request.phone_number
    &&& user.custom_attributes == request.custom_attributes
    &&& user.disabled == (match request.disable_user {
        Some(disabled) => disabled,
        None => request.disabled == Some(true),
    })
    &&& user.valid_since == (match request.valid_since {
        Some(time) => time,
        None => "0"@,
    })
    &&& user.created_at == millis
    &&& user.last_login_at == millis
}

/// A created account is there when it is looked up, with what the request
/// gives, under the id that it gives or a drawn one. The answer shows it, and
/// no other account changes.
pub proof fn created_accounts_are_looked_up(
    s: AuthView,
    namespace: Seq<char>,
    request: AccountView,
    d: DrawView,
    other: Seq<char>,
    elsewhere: Seq<char>,
)
    requires
        keys_sorted(s.users),
        keys_sorted(users_of(s, namespace)),
        create_account_spec(s, namespace, request, d).1 is Ok,
    ensures
        ({
            let (after, answer) = create_account_spec(s, namespace, request, d);
            let id = match request.local_id {
                Some(given) => given,
                None => d.local_id,
            };
            &&& account(s, namespace, id) is None
            &&& account(after, namespace, id) matches Some(user)
            &&& is_created(request, id, d.millis, user)
            &&& shows(answer->Ok_0, user)
            &&& after.sessions == s.sessions
            &&& other != id ==> account(after, namespace, other) == account(s, namespace, other)
            &&& elsewhere != namespace ==> account(after, elsewhere, other) == account(
                s,
                elsewhere,
                other,
            )
        }),
{
    let users = users_of(s, namespace);
    let id = match request.local_id {
        Some(given) => given,
        None => d.local_id,
    };
    let user = crate::auth::created_user(request, id, d.millis);
    users_are_shown(user);
    stored_users_are_found(s, namespace, put(users, id, user), id, elsewhere);
    stored_users_are_found(s, namespace, put(users, id, user), other, elsewhere);
    lookup_after_put(users, id, user, other);
    lookup_after_put(users, id, user, id);
}

proof fn asked_users_are_found(
    users: UsersView,
    n: nat,
    ids: Seq<Seq<char>>,
    emails: Seq<Seq<char>>,
    phones: Seq<Seq<char>>,
    identities: Seq<(Seq<char>, Seq<char>)>,
    v: JsonView,
)
    requires
        n <= users.len(),
    ensures
        found_users(users, n, ids, emails, phones, identities).contains(v) <==> exists|i: int|
            0 <= i < n && v == user_json_spec((#[trigger] users[i]).1) && is_asked_for(
                users[i].1,
                ids,
                emails,
                phones,
                identities,
            ),
    decreases n,
{
    let all = found_users(users, n, ids, emails, phones, identities);
    if n > 0 {
        let m = (n - 1) as nat;
        asked_users_are_found(users, m, ids, emails, phones, identities, v);
        let before = found_users(users, m, ids, emails, phones, identities);
        let last = users[n - 1].1;
        if before.contains(v) {
            let k = choose|k: int| 0 <= k < before.len() && before[k] == v;
            assert(all[k] == v);
            let i = choose|i: int|
                0 <= i < m && v == user_json_spec((#[trigger] users[i]).1) && is_asked_for(
                    users[i].1,
                    ids,
                    emails,
                    phones,
                    identities,
                );
            assert(v == user_json_spec(users[i].1));
        }
        if is_asked_for(last, ids, emails, phones, identities) {
            assert(all[all.len() - 1] == user_json_spec(last));
            if all.contains(v) && !before.contains(v) {
                let k = choose|k: int| 0 <= k < all.len() && all[k] == v;
                if k < before.len() {
                    assert(before[k] == v);
                }
                assert(v == user_json_spec(users[n - 1].1));
            }
        }
    }
}

/// Whether a lookup asks for a user by id, by address, by phone number or by an
/// identity at a provider.
pub open spec fn asks_for_user(
    user: UserView,
    ids: Seq<Seq<char>>,
    emails: Seq<Seq<char>>,
    phones: Seq<Seq<char>>,
) -> bool {
    ||| ids.contains(user.local_id)
    ||| user.email is Some && emails.contains(user.email->0)
    ||| user.phone_number is Some && phones.contains(user.phone_number->0)
}

/// A lookup shows every account that it asks for, as it is stored, and shows
/// nothing but stored accounts; it changes nothing.
pub proof fn lookups_show_the_accounts_asked_for(
    s: AuthView,
    namespace: Seq<char>,
    ids: Seq<Seq<char>>,
    emails: Seq<Seq<char>>,
    phones: Seq<Seq<char>>,
    identities: Seq<(Seq<char>, Seq<char>)>,
    now: u64,
    id: Seq<char>,
    v: JsonView,
)
    requires
        keys_sorted(users_of(s, namespace)),
    ensures
        ({
            let (after, answer) = lookup_accounts_spec(
                s,
                namespace,
                None,
                ids,
                emails,
                phones,
                identities,
                now,
            );
            let shown = member(answer->Ok_0, "users"@);
            let list = shown->0->Array_0;
            let asked = account(s, namespace, id);
            &&& after == s
            &&& answer is Ok
            &&& shown is Some
            &&& shown->0 is Array
            &&& asked is Some && asks_for_user(asked->0, ids, emails, phones) ==> exists|k: int|
                0 <= k < list.len() && shows(#[trigger] list[k], asked->0)
            &&& list.contains(v) ==> exists|other: Seq<char>|
                (#[trigger] account(s, namespace, other)) matches Some(user) && shows(v, user)
            &&& ids.len() == 0 && emails.len() == 0 && phones.len() == 0 && identities.len() == 0
                ==> list.len() == 0
        }),
{
    let users = users_of(s, namespace);
    let list = found_users(users, users.len(), ids, emails, phones, identities);
    began("users"@, JsonView::Array(list));
    crate::ordered::lower_bound_properties(Seq::<(Seq<char>, UserView)>::empty(), id);
    assert(lookup(users, id) == account(s, namespace, id));
    if let Some(user) = account(s, namespace, id) {
        if asks_for_user(user, ids, emails, phones) {
            crate::ordered::lookup_found(users, id);
            let i = choose|i: int|
                0 <= i < users.len() && #[trigger] users[i] == (id, lookup(users, id)->0);
            if user.email is Some && emails.contains(user.email->0) {
                let e = choose|e: int| 0 <= e < emails.len() && emails[e] == user.email->0;
                assert(crate::accounts::lowercase_text(emails[e])
                    == crate::accounts::lowercase_text(user.email->0));
            }
            assert(is_asked_for(users[i].1, ids, emails, phones, identities));
            let shown = user_json_spec(user);
            asked_users_are_found(
                users,
                users.len(),
                ids,
                emails,
                phones,
                identities,
                shown,
            );
            assert(shown == user_json_spec(users[i].1));
            assert(list.contains(shown));
            let k = choose|k: int| 0 <= k < list.len() && list[k] == shown;
            users_are_shown(user);
            assert(shows(list[k], user));
        }
    }
    asked_users_are_found(users, users.len(), ids, emails, phones, identities, v);
    if list.contains(v) {
        let i = choose|i: int|
            0 <= i < users.len() && v == user_json_spec((#[trigger] users[i]).1) && is_asked_for(
                users[i].1,
                ids,
                emails,
                phones,
                identities,
            );
        lookup_at(users, i);
        users_are_shown(users[i].1);
        crate::ordered::lower_bound_properties(
            Seq::<(Seq<char>, UserView)>::empty(),
            users[i].0,
        );
        assert(account(s, namespace, users[i].0) == Some(users[i].1));
    }
    if ids.len() == 0 && emails.len() == 0 && phones.len() == 0 && identities.len() == 0 {
        if list.len() > 0 {
            asked_users_are_found(
                users,
                users.len(),
                ids,
                emails,
                phones,
                identities,
                list[0],
            );
            assert(list.contains(list[0]));
        }
    }
    let (after, answer) = lookup_accounts_spec(
        s,
        namespace,
        None,
        ids,
        emails,
        phones,
        identities,
        now,
    );
    assert(answer is Ok);
    assert(member(answer->Ok_0, "users"@) == Some(JsonView::Array(list)));
    assert(after == s);
    let asked = account(s, namespace, id);
    let shown = member(answer->Ok_0, "users"@);
    let told = shown->0->Array_0;
    assert(told == list);
    assert(asked is Some && asks_for_user(asked->0, ids, emails, phones) ==> exists|k: int|
                0 <= k < told.len() && shows(#[trigger] told[k], asked->0));
    assert(told.contains(v) ==> exists|other: Seq<char>|
                (#[trigger] account(s, namespace, other)) matches Some(user) && shows(v, user));
    assert(ids.len() == 0 && emails.len() == 0 && phones.len() == 0 && identities.len() == 0
                ==> told.len() == 0);
}

/// A deleted account is not found, and no other account changes.
pub proof fn deleted_accounts_are_gone(
    s: AuthView,
    namespace: Seq<char>,
    id: Seq<char>,
    now: u64,
    other: Seq<char>,
    elsewhere: Seq<char>,
)
    requires
        keys_sorted(s.users),
        keys_sorted(users_of(s, namespace)),
    ensures
        ({
            let (after, answer) = delete_account_spec(s, namespace, None, id, now);
            &&& (answer is Ok) == (account(s, namespace, id) is Some)
            &&& answer is Ok ==> account(after, namespace, id) is None
            &&& answer is Err ==> after == s
            &&& other != id ==> account(after, namespace, other) == account(s, namespace, other)
            &&& elsewhere != namespace ==> account(after, elsewhere, other) == account(
                s,
                elsewhere,
                other,
            )
        }),
{
    let users = users_of(s, namespace);
    let left = crate::ordered::without(users, id);
    stored_users_are_found(s, namespace, left, id, elsewhere);
    stored_users_are_found(s, namespace, left, other, elsewhere);
    lookup_after_without(users, id, id);
    lookup_after_without(users, id, other);
}

} // verus!
