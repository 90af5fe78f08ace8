//! Serving account requests, and what holds of users and sessions.
use crate::accounts::{
    apply_deletions, asks_for, copy_text, ensure_unique, identities_view, optional_text,
    sync_password_provider, text_or_null, upsert_provider, user_json, user_json_spec,
    validate_credentials, LookupRequest, User, UserView, WriteAccountRequest,
};
use crate::auth::{
    claimed_number, claims_of, claims_spec, create_account_spec, created_id, created_user, creation,
    delete_account_spec, draw, email_index, found_users, is_draw, is_of_another, is_open,
    issue_session_spec, json_result, linked, listed_users, lookup_accounts_spec, or_else_items,
    overlaid, read_claims, refresh_spec, replaced, resolve_spec, session_json, session_token,
    session_user_spec, sign_in_spec, sign_up_spec, token_claims, update_account_spec, updated_user,
    updating, users_of, valid_from, with_users, write_id_token, Auth, AuthSession, AuthView, Draw,
    DrawView, SessionKind, ID_TOKEN_TTL_SECS, REFRESH_TOKEN_TTL_SECS,
};
use crate::json::{
    empty_object, is_plain_json, items_view, json_object_view, json_of_text, member, members_view,
    object1, parse_json, with_member, Json, JsonView,
};
use crate::multipart::eq_ignore_case;
use crate::ordered::{
    keys_sorted, lookup, lookup_after_put, lookup_at, put, put_after_without, put_sorted, without,
    Duplicate, OrderedMap,
};
use crate::storage::{canonical_uuid, uuid_of_text};
use crate::text::{is_blank, opt_text, parse_unsigned, same, strip_prefix, texts};
use crate::web_values::single;
use vstd::prelude::*;

verus! {

fn wanted_list(id: String) -> (r: Vec<String>)
    ensures
        texts(r@) == seq![id@],
{
    let mut out: Vec<String> = Vec::new();
    out.push(id);
    assert(texts(out@) =~= seq![id@]);
    out
}

fn either_items(first: Vec<Json>, second: Vec<Json>) -> (r: Vec<Json>)
    ensures
        items_view(r@) == or_else_items(items_view(first@), items_view(second@)),
{
    if first.len() == 0 {
        second
    } else {
        first
    }
}

/// Makes the user that a request creates.
fn make_user(request: WriteAccountRequest, local_id: String, millis: &str) -> (r: User)
    ensures
        r@ == created_user(request@, local_id@, millis@),
{
    let disabled = match request.disable_user {
        Some(value) => value,
        None => match request.disabled {
            Some(value) => value,
            None => false,
        },
    };
    let email_verified = match request.email_verified {
        Some(value) => value,
        None => false,
    };
    let valid_since = match request.valid_since {
        Some(value) => value,
        None => "0".to_owned(),
    };
    let mut user = User {
        local_id,
        password: request.password,
        email: request.email,
        email_verified,
        display_name: request.display_name,
        photo_url: request.photo_url,
        phone_number: request.phone_number,
        disabled,
        custom_attributes: request.custom_attributes,
        provider_user_info: either_items(
            request.link_provider_user_info,
            request.provider_user_info,
        ),
        mfa_info: either_items(request.mfa, request.mfa_info),
        valid_since,
        created_at: millis.to_owned(),
        last_login_at: millis.to_owned(),
    };
    sync_password_provider(&mut user);
    user
}

fn newer(old: &Option<String>, new: Option<String>) -> (r: Option<String>)
    ensures
        opt_text(r) == replaced(opt_text(*old), opt_text(new)),
{
    match new {
        Some(text) => Some(text),
        None => copy_text(old),
    }
}

/// Applies a request to update an account to its user.
pub fn update_user(user: &mut User, request: WriteAccountRequest)
    ensures
        final(user)@ == updated_user(old(user)@, request@),
{
    apply_deletions(user, &request.delete_attribute, &request.delete_provider);
    let ghost middle = user@;
    user.password = newer(&user.password, request.password);
    user.email = newer(&user.email, request.email);
    user.display_name = newer(&user.display_name, request.display_name);
    user.photo_url = newer(&user.photo_url, request.photo_url);
    user.phone_number = newer(&user.phone_number, request.phone_number);
    user.custom_attributes = newer(&user.custom_attributes, request.custom_attributes);
    user.email_verified = match request.email_verified {
        Some(value) => value,
        None => user.email_verified,
    };
    user.disabled = match request.disable_user {
        Some(value) => value,
        None => match request.disabled {
            Some(value) => value,
            None => user.disabled,
        },
    };
    user.valid_since = match request.valid_since {
        Some(value) => value,
        None => user.valid_since.clone(),
    };
    let ghost more = items_view(request.link_provider_user_info@);
    let ghost before = user@;
    let ghost providers = before.provider_user_info;
    let mut known: Vec<Json> = Vec::new();
    std::mem::swap(&mut user.provider_user_info, &mut known);
    for provider in it: request.link_provider_user_info
        invariant
            it.seq() == request.link_provider_user_info@,
            more == items_view(request.link_provider_user_info@),
            items_view(known@) == linked(providers, more, it.index() as nat),
    {
        assert(more[it.index() as int] == provider@);
        upsert_provider(&mut known, provider);
    }
    user.provider_user_info = either_items(request.provider_user_info, known);
    let mut factors: Vec<Json> = Vec::new();
    std::mem::swap(&mut user.mfa_info, &mut factors);
    user.mfa_info = either_items(request.mfa, either_items(request.mfa_info, factors));
    assert(user@ =~= UserView {
        password: replaced(middle.password, request@.password),
        email: replaced(middle.email, request@.email),
        email_verified: match request.email_verified {
            Some(verified) => verified,
            None => middle.email_verified,
        },
        display_name: replaced(middle.display_name, request@.display_name),
        photo_url: replaced(middle.photo_url, request@.photo_url),
        phone_number: replaced(middle.phone_number, request@.phone_number),
        disabled: match crate::auth::disabling(request@) {
            Some(value) => value,
            None => middle.disabled,
        },
        custom_attributes: replaced(middle.custom_attributes, request@.custom_attributes),
        valid_since: match request@.valid_since {
            Some(value) => value,
            None => middle.valid_since,
        },
        provider_user_info: or_else_items(
            request@.provider_user_info,
            linked(middle.provider_user_info, more, more.len()),
        ),
        mfa_info: or_else_items(
            request@.mfa,
            or_else_items(request@.mfa_info, middle.mfa_info),
        ),
        ..middle
    });
    sync_password_provider(user);
}

fn overlay(v: Json, more: Json) -> (r: Json)
    requires
        more@ is Object,
    ensures
        r@ == overlaid(v@, more@->Object_0, more@->Object_0.len()),
{
    match more {
        Json::Object(members) => {
            proof {
                json_object_view(members);
            }
            let ghost all = members_view(members@);
            let mut out = v;
            for member in it: members
                invariant
                    it.seq() == members@,
                    all == members_view(members@),
                    out@ == overlaid(v@, all, it.index() as nat),
            {
                assert(all[it.index() as int] == (member.0@, member.1@));
                out = out.with(member.0.as_str(), member.1);
            }
            out
        },
        _ => v,
    }
}

impl Auth {
    /// No users and no sessions.
    pub fn new() -> (r: Auth)
        ensures
            r@ == (AuthView { users: Seq::empty(), sessions: Seq::empty() }),
    {
        Auth { users: OrderedMap::new(), sessions: OrderedMap::new() }
    }

    fn take_users(&mut self, namespace: &str) -> (r: OrderedMap<User>)
        ensures
            r@ == users_of(old(self)@, namespace@),
            final(self)@ == (AuthView {
                users: without(old(self)@.users, namespace@),
                ..old(self)@
            }),
            keys_sorted(old(self)@.users),
    {
        let _count = self.users.len();
        match self.users.remove(namespace) {
            Some(users) => users,
            None => {
                let none: OrderedMap<User> = OrderedMap::new();
                assert(without(old(self)@.users, namespace@) =~= old(self)@.users);
                none
            },
        }
    }

    fn put_user(&mut self, namespace: &str, local_id: &str, user: User)
        ensures
            final(self)@ == with_users(
                old(self)@,
                namespace@,
                put(users_of(old(self)@, namespace@), local_id@, user@),
            ),
    {
        let ghost start = self@;
        let mut users = self.take_users(namespace);
        users.insert(local_id, user);
        proof {
            put_after_without(start.users, namespace@, users@);
        }
        self.users.insert(namespace, users);
        assert(self@ =~= with_users(
            start,
            namespace@,
            put(users_of(start, namespace@), local_id@, user@),
        ));
    }

    fn check_create(&self, namespace: &str, request: &WriteAccountRequest, d: &Draw) -> (r: Result<
        String,
        String,
    >)
        ensures
            match creation(users_of(self@, namespace@), request@, d@) {
                Ok(_) => r is Ok && r->Ok_0@ == created_id(request@, d@),
                Err(e) => r is Err && r->Err_0@ == e,
            },
    {
        match validate_credentials(request) {
            Ok(()) => {},
            Err(e) => {
                return Err(e);
            },
        }
        let local_id = match &request.local_id {
            Some(id) => id.clone(),
            None => d.local_id.clone(),
        };
        if is_blank(local_id.as_str()) {
            return Err("INVALID_LOCAL_ID".to_owned());
        }
        let none: OrderedMap<User> = OrderedMap::new();
        let users = match self.users.get(namespace) {
            Some(users) => users,
            None => &none,
        };
        if users.contains(local_id.as_str()) {
            return Err("DUPLICATE_LOCAL_ID".to_owned());
        }
        match ensure_unique(users, &request.email, &request.phone_number, None) {
            Ok(()) => Ok(local_id),
            Err(e) => Err(e),
        }
    }

    /// Creates an account.
    pub fn create_account_at(
        &mut self,
        namespace: &str,
        request: WriteAccountRequest,
        d: &Draw,
    ) -> (r: Result<Json, String>)
        ensures
            create_account_spec(old(self)@, namespace@, request@, d@) == (
                final(self)@,
                json_result(r),
            ),
    {
        let local_id = match self.check_create(namespace, &request, d) {
            Ok(id) => id,
            Err(e) => {
                return Err(e);
            },
        };
        let key = local_id.clone();
        let user = make_user(request, local_id, d.millis.as_str());
        let written = user_json(&user);
        self.put_user(namespace, key.as_str(), user);
        Ok(written)
    }

    /// Creates an account, with what it needs drawn for it.
    pub fn create_account(&mut self, namespace: &str, request: WriteAccountRequest) -> (r: Result<
        Json,
        String,
    >)
        ensures
            exists|d: DrawView|
                #![trigger is_draw(d)]
                is_draw(d) && create_account_spec(old(self)@, namespace@, request@, d) == (
                    final(self)@,
                    json_result(r),
                ),
    {
        let d = draw();
        self.create_account_at(namespace, request, &d)
    }

    fn issue_session(&mut self, namespace: &str, user: &User, d: &Draw) -> (r: Json)
        ensures
            issue_session_spec(old(self)@, namespace@, user@, d@) == (final(self)@, r@),
            is_plain_json(
                claims_spec(
                    namespace@,
                    user@,
                    d.now,
                    match user@.custom_attributes {
                        Some(text) => json_of_text(text),
                        None => None,
                    },
                ),
                100,
            ) ==> claims_of(session_token(namespace@, user@, d.now)) == Some(
                claims_spec(
                    namespace@,
                    user@,
                    d.now,
                    match user@.custom_attributes {
                        Some(text) => json_of_text(text),
                        None => None,
                    },
                ),
            ),
    {
        let parsed = match &user.custom_attributes {
            Some(text) => parse_json(text.as_str()),
            None => None,
        };
        let claims = token_claims(namespace, user, d.now, parsed);
        let token = write_id_token(&claims);
        let mut flags: Vec<bool> = Vec::new();
        let mut i: usize = 0;
        while i < self.sessions.len()
            invariant
                i <= self.sessions@.len(),
                *self == *old(self),
                flags@.len() == i,
                forall|j: int|
                    0 <= j < i ==> flags@[j] == is_open(d.now)(#[trigger] self.sessions@[j]),
            decreases self.sessions@.len() - i,
        {
            flags.push(self.sessions.value_at(i).expires_at > d.now);
            i += 1;
        }
        self.sessions.retain_flagged(&flags, Ghost(is_open(d.now)));
        self.sessions.insert(
            token.as_str(),
            AuthSession {
                namespace: namespace.to_owned(),
                uid: user.local_id.clone(),
                issued_at: d.now,
                expires_at: crate::auth::later_than(d.now, ID_TOKEN_TTL_SECS),
                kind: SessionKind::IdToken,
            },
        );
        self.sessions.insert(
            d.refresh.as_str(),
            AuthSession {
                namespace: namespace.to_owned(),
                uid: user.local_id.clone(),
                issued_at: d.now,
                expires_at: crate::auth::later_than(d.now, REFRESH_TOKEN_TTL_SECS),
                kind: SessionKind::RefreshToken,
            },
        );
        assert(self@ =~= issue_session_spec(old(self)@, namespace@, user@, d@).0);
        single("localId", Json::of_text(user.local_id.as_str())).with(
            "email",
            optional_text(&user.email),
        ).with("displayName", optional_text(&user.display_name)).with("idToken", Json::Text(token)).with(
            "refreshToken",
            Json::of_text(d.refresh.as_str()),
        ).with("expiresIn", Json::of_text("3600")).with("registered", Json::Bool(true))
    }

    /// Finds the user of an id token, given the claims that it carries. An
    /// expired session is forgotten.
    pub fn session_user_with(
        &mut self,
        namespace: &str,
        token: &str,
        claims: Option<Json>,
        now: u64,
    ) -> (r: Result<User, String>)
        ensures
            ({
                let (after, outcome) = session_user_spec(
                    old(self)@,
                    namespace@,
                    token@,
                    match claims {
                        Some(v) => Some(v@),
                        None => None,
                    },
                    now,
                );
                &&& final(self)@ == after
                &&& match outcome {
                    Ok(user) => r is Ok && r->Ok_0@ == user,
                    Err(e) => r is Err && r->Err_0@ == e,
                }
            }),
    {
        let (uid, expired) = match self.sessions.get(token) {
            None => {
                return Err("INVALID_ID_TOKEN".to_owned());
            },
            Some(session) => {
                if session.kind != SessionKind::IdToken || !same(
                    session.namespace.as_str(),
                    namespace,
                ) {
                    return Err("INVALID_ID_TOKEN".to_owned());
                }
                (session.uid.clone(), session.expires_at <= now)
            },
        };
        if expired {
            let _gone = self.sessions.remove(token);
            return Err("TOKEN_EXPIRED".to_owned());
        }
        let v = match claims {
            Some(v) => v,
            None => {
                return Err("INVALID_ID_TOKEN".to_owned());
            },
        };
        if number_of(&v, "exp") <= now {
            return Err("TOKEN_EXPIRED".to_owned());
        }
        let user = match self.find_user(namespace, uid.as_str()) {
            Some(user) => user,
            None => {
                return Err("USER_NOT_FOUND".to_owned());
            },
        };
        if user.disabled {
            return Err("USER_DISABLED".to_owned());
        }
        if valid_second(user) > number_of(&v, "auth_time") {
            return Err("TOKEN_EXPIRED".to_owned());
        }
        Ok(user.duplicate())
    }

    /// Finds the user of an id token.
    pub fn session_user(&mut self, namespace: &str, token: &str, now: u64) -> (r: Result<
        User,
        String,
    >)
        ensures
            ({
                let (after, outcome) = session_user_spec(
                    old(self)@,
                    namespace@,
                    token@,
                    claims_of(token@),
                    now,
                );
                &&& final(self)@ == after
                &&& match outcome {
                    Ok(user) => r is Ok && r->Ok_0@ == user,
                    Err(e) => r is Err && r->Err_0@ == e,
                }
            }),
    {
        let claims = read_claims(token);
        self.session_user_with(namespace, token, claims, now)
    }

    /// Finds a user.
    pub fn find_user(&self, namespace: &str, uid: &str) -> (r: Option<&User>)
        ensures
            match r {
                Some(user) => lookup(users_of(self@, namespace@), uid@) == Some(user@),
                None => lookup(users_of(self@, namespace@), uid@) is None,
            },
    {
        match self.users.get(namespace) {
            Some(users) => users.get(uid),
            None => None,
        }
    }

    fn resolve(
        &mut self,
        namespace: &str,
        id_token: &Option<String>,
        local_id: Option<String>,
        now: u64,
    ) -> (r: Result<Option<String>, String>)
        ensures
            ({
                let (after, outcome) = resolve_spec(
                    old(self)@,
                    namespace@,
                    opt_text(*id_token),
                    opt_text(local_id),
                    now,
                );
                &&& final(self)@ == after
                &&& match outcome {
                    Ok(id) => r is Ok && opt_text(r->Ok_0) == id,
                    Err(e) => r is Err && r->Err_0@ == e,
                }
            }),
    {
        match id_token {
            None => Ok(local_id),
            Some(token) => match self.session_user(namespace, token.as_str(), now) {
                Ok(user) => Ok(Some(user.local_id)),
                Err(e) => Err(e),
            },
        }
    }

    fn check_update(
        &self,
        namespace: &str,
        local_id: Option<String>,
        request: &WriteAccountRequest,
    ) -> (r: Result<User, String>)
        ensures
            match updating(users_of(self@, namespace@), opt_text(local_id), request@) {
                Ok(user) => r is Ok && local_id is Some && lookup(
                    users_of(self@, namespace@),
                    local_id->0@,
                ) == Some(r->Ok_0@) && user == updated_user(r->Ok_0@, request@),
                Err(e) => r is Err && r->Err_0@ == e,
            },
    {
        match validate_credentials(request) {
            Ok(()) => {},
            Err(e) => {
                return Err(e);
            },
        }
        let id = match local_id {
            Some(id) => id,
            None => {
                return Err("MISSING_LOCAL_ID".to_owned());
            },
        };
        let none: OrderedMap<User> = OrderedMap::new();
        let users = match self.users.get(namespace) {
            Some(users) => users,
            None => &none,
        };
        let user = match users.get(id.as_str()) {
            Some(user) => user,
            None => {
                return Err("USER_NOT_FOUND".to_owned());
            },
        };
        match ensure_unique(users, &request.email, &request.phone_number, Some(id.as_str())) {
            Ok(()) => Ok(user.duplicate()),
            Err(e) => Err(e),
        }
    }

    /// Updates an account.
    pub fn update_account_at(
        &mut self,
        namespace: &str,
        request: WriteAccountRequest,
        d: &Draw,
    ) -> (r: Result<Json, String>)
        ensures
            update_account_spec(old(self)@, namespace@, request@, d@) == (
                final(self)@,
                json_result(r),
            ),
    {
        let browser = request.id_token.is_some();
        let resolved = self.resolve(
            namespace,
            &request.id_token,
            copy_text(&request.local_id),
            d.now,
        );
        let local_id = match resolved {
            Ok(id) => id,
            Err(e) => {
                return Err(e);
            },
        };
        let mut user = match self.check_update(namespace, copy_text(&local_id), &request) {
            Ok(user) => user,
            Err(e) => {
                return Err(e);
            },
        };
        let key = match local_id {
            Some(id) => id,
            None => {
                return Err("MISSING_LOCAL_ID".to_owned());
            },
        };
        update_user(&mut user, request);
        let written = user_json(&user);
        let copy = user.duplicate();
        self.put_user(namespace, key.as_str(), user);
        if browser {
            let session = self.issue_session(namespace, &copy, d);
            Ok(overlay(written, session))
        } else {
            Ok(written)
        }
    }

    /// Updates an account, with what it needs drawn for it.
    pub fn update_account(&mut self, namespace: &str, request: WriteAccountRequest) -> (r: Result<
        Json,
        String,
    >)
        ensures
            exists|d: DrawView|
                #![trigger is_draw(d)]
                is_draw(d) && update_account_spec(old(self)@, namespace@, request@, d) == (
                    final(self)@,
                    json_result(r),
                ),
    {
        let d = draw();
        self.update_account_at(namespace, request, &d)
    }

    /// Deletes an account and its sessions.
    pub fn delete_account(
        &mut self,
        namespace: &str,
        id_token: Option<String>,
        local_id: String,
        now: u64,
    ) -> (r: Result<Json, String>)
        ensures
            delete_account_spec(old(self)@, namespace@, opt_text(id_token), local_id@, now) == (
                final(self)@,
                json_result(r),
            ),
    {
        let uid = match self.resolve(namespace, &id_token, Some(local_id), now) {
            Ok(Some(id)) => id,
            Ok(None) => {
                return Err("USER_NOT_FOUND".to_owned());
            },
            Err(e) => {
                return Err(e);
            },
        };
        if self.find_user(namespace, uid.as_str()).is_none() {
            return Err("USER_NOT_FOUND".to_owned());
        }
        let ghost start = self@;
        let mut users = self.take_users(namespace);
        let _gone = users.remove(uid.as_str());
        proof {
            put_after_without(start.users, namespace@, users@);
        }
        self.users.insert(namespace, users);
        let ghost middle = *self;
        let mut flags: Vec<bool> = Vec::new();
        let mut i: usize = 0;
        while i < self.sessions.len()
            invariant
                i <= self.sessions@.len(),
                *self == middle,
                flags@.len() == i,
                forall|j: int|
                    0 <= j < i ==> flags@[j] == is_of_another(namespace@, uid@)(
                        #[trigger] self.sessions@[j],
                    ),
            decreases self.sessions@.len() - i,
        {
            let session = self.sessions.value_at(i);
            flags.push(
                !same(session.namespace.as_str(), namespace) || !same(
                    session.uid.as_str(),
                    uid.as_str(),
                ),
            );
            i += 1;
        }
        self.sessions.retain_flagged(&flags, Ghost(is_of_another(namespace@, uid@)));
        Ok(Json::object())
    }

    /// Looks users up.
    pub fn lookup_accounts(&mut self, namespace: &str, request: LookupRequest, now: u64) -> (r: Result<
        Json,
        String,
    >)
        ensures
            lookup_accounts_spec(
                old(self)@,
                namespace@,
                opt_text(request.id_token),
                texts(request.local_id@),
                texts(request.email@),
                texts(request.phone_number@),
                identities_view(request.federated_user_id@),
                now,
            ) == (final(self)@, json_result(r)),
    {
        let wanted = match self.resolve(namespace, &request.id_token, None, now) {
            Ok(Some(id)) => wanted_list(id),
            Ok(None) => request.local_id,
            Err(e) => {
                return Err(e);
            },
        };
        let asked = LookupRequest {
            id_token: None,
            local_id: wanted,
            email: request.email,
            phone_number: request.phone_number,
            federated_user_id: request.federated_user_id,
        };
        let none: OrderedMap<User> = OrderedMap::new();
        let users = match self.users.get(namespace) {
            Some(users) => users,
            None => &none,
        };
        let mut found: Vec<Json> = Vec::new();
        let mut i: usize = 0;
        assert(items_view(found@) =~= Seq::empty());
        while i < users.len()
            invariant
                i <= users@.len(),
                items_view(found@) == found_users(
                    users@,
                    i as nat,
                    texts(asked.local_id@),
                    texts(asked.email@),
                    texts(asked.phone_number@),
                    identities_view(asked.federated_user_id@),
                ),
            decreases users@.len() - i,
        {
            let user = users.value_at(i);
            if asks_for(&asked, user) {
                let ghost before = items_view(found@);
                let written = user_json(user);
                found.push(written);
                assert(items_view(found@) =~= before.push(written@));
            }
            i += 1;
        }
        Ok(single("users", Json::array(found)))
    }

    /// Lists the first users of a namespace.
    pub fn list_users(&self, namespace: &str, limit: usize) -> (r: Vec<Json>)
        ensures
            items_view(r@) == listed_users(users_of(self@, namespace@), limit as nat),
    {
        let none: OrderedMap<User> = OrderedMap::new();
        let users = match self.users.get(namespace) {
            Some(users) => users,
            None => &none,
        };
        let most: usize = if limit < 1000 {
            limit
        } else {
            1000
        };
        let end: usize = if most < users.len() {
            most
        } else {
            users.len()
        };
        let mut out: Vec<Json> = Vec::new();
        let mut i: usize = 0;
        while i < end
            invariant
                i <= end <= users@.len(),
                out@.len() == i,
                forall|j: int|
                    0 <= j < i ==> (#[trigger] out@[j])@ == user_json_spec(users@[j].1),
            decreases end - i,
        {
            out.push(user_json(users.value_at(i)));
            i += 1;
        }
        assert(items_view(out@) =~= listed_users(users@, limit as nat));
        out
    }

    /// Answers a query for users, under both names that clients know.
    pub fn query_accounts(
        &self,
        namespace: &str,
        max_results: Option<usize>,
        page_size: Option<usize>,
    ) -> (r: Json)
        ensures
            ({
                let limit = match max_results {
                    Some(n) => n,
                    None => match page_size {
                        Some(n) => n,
                        None => 1000,
                    },
                };
                let users = JsonView::Array(
                    listed_users(users_of(self@, namespace@), limit as nat),
                );
                r@ == with_member(object1("userInfo"@, users), "users"@, users)
            }),
    {
        let limit: usize = match max_results {
            Some(n) => n,
            None => match page_size {
                Some(n) => n,
                None => 1000,
            },
        };
        let first = Json::array(self.list_users(namespace, limit));
        let second = Json::array(self.list_users(namespace, limit));
        single("userInfo", first).with("users", second)
    }

    /// Lists users.
    pub fn batch_get_accounts(&self, namespace: &str, max_results: Option<usize>) -> (r: Json)
        ensures
            r@ == object1(
                "users"@,
                JsonView::Array(
                    listed_users(
                        users_of(self@, namespace@),
                        match max_results {
                            Some(n) => n as nat,
                            None => 1000,
                        },
                    ),
                ),
            ),
    {
        let limit: usize = match max_results {
            Some(n) => n,
            None => 1000,
        };
        single("users", Json::array(self.list_users(namespace, limit)))
    }

    /// Signs a new user up.
    pub fn sign_up_at(&mut self, namespace: &str, request: WriteAccountRequest, d: &Draw) -> (r:
        Result<Json, String>)
        ensures
            sign_up_spec(old(self)@, namespace@, request@, d@) == (final(self)@, json_result(r)),
    {
        if request.email.is_some() && request.password.is_none() {
            return Err("MISSING_PASSWORD".to_owned());
        }
        let local_id = match self.check_create(namespace, &request, d) {
            Ok(id) => id,
            Err(e) => {
                return Err(e);
            },
        };
        let key = local_id.clone();
        let user = make_user(request, local_id, d.millis.as_str());
        let copy = user.duplicate();
        self.put_user(namespace, key.as_str(), user);
        Ok(self.issue_session(namespace, &copy, d))
    }

    /// Signs a new user up, with what is needed drawn for it.
    pub fn sign_up(&mut self, namespace: &str, request: WriteAccountRequest) -> (r: Result<
        Json,
        String,
    >)
        ensures
            exists|d: DrawView|
                #![trigger is_draw(d)]
                is_draw(d) && sign_up_spec(old(self)@, namespace@, request@, d) == (
                    final(self)@,
                    json_result(r),
                ),
    {
        let d = draw();
        self.sign_up_at(namespace, request, &d)
    }

    /// Signs a user in.
    pub fn sign_in_at(
        &mut self,
        namespace: &str,
        email: Option<String>,
        password: Option<String>,
        d: &Draw,
    ) -> (r: Result<Json, String>)
        ensures
            sign_in_spec(old(self)@, namespace@, opt_text(email), opt_text(password), d@) == (
                final(self)@,
                json_result(r),
            ),
    {
        let wanted = match email {
            Some(email) => email,
            None => {
                return Err("MISSING_EMAIL".to_owned());
            },
        };
        let given = match password {
            Some(password) => password,
            None => {
                return Err("MISSING_PASSWORD".to_owned());
            },
        };
        let none: OrderedMap<User> = OrderedMap::new();
        let users = match self.users.get(namespace) {
            Some(users) => users,
            None => &none,
        };
        let ghost all = users@;
        let mut i: usize = 0;
        let total: usize = users.len();
        let mut found = false;
        while i < total && !found
            invariant
                i <= total,
                total == users@.len(),
                all == users@,
                found ==> i < total && email_index(all, wanted@, 0) == Some(i as int),
                !found ==> email_index(all, wanted@, 0) == email_index(all, wanted@, i as int),
            decreases total - i + (if found { 0int } else { 1int }),
        {
            found = match &users.value_at(i).email {
                Some(current) => eq_ignore_case(current.as_str(), wanted.as_str()),
                None => false,
            };
            if !found {
                i += 1;
            }
        }
        if !found {
            return Err("EMAIL_NOT_FOUND".to_owned());
        }
        let user = users.value_at(i);
        if user.disabled {
            return Err("USER_DISABLED".to_owned());
        }
        let right = match &user.password {
            Some(known) => same(known.as_str(), given.as_str()),
            None => false,
        };
        if !right {
            return Err("INVALID_PASSWORD".to_owned());
        }
        let key = users.key_at(i).to_owned();
        let mut seen = user.duplicate();
        seen.last_login_at = d.millis.clone();
        let copy = seen.duplicate();
        proof {
            lookup_at(all, i as int);
            assert(put(all, key@, seen@) =~= all.update(i as int, (key@, seen@)));
        }
        self.put_user(namespace, key.as_str(), seen);
        Ok(self.issue_session(namespace, &copy, d))
    }

    /// Signs a user in, with what is needed drawn for it.
    pub fn sign_in(&mut self, namespace: &str, email: Option<String>, password: Option<String>)
        -> (r: Result<Json, String>)
        ensures
            exists|d: DrawView|
                #![trigger is_draw(d)]
                is_draw(d) && sign_in_spec(
                    old(self)@,
                    namespace@,
                    opt_text(email),
                    opt_text(password),
                    d,
                ) == (final(self)@, json_result(r)),
    {
        let d = draw();
        self.sign_in_at(namespace, email, password, &d)
    }

    /// Refreshes a session, given whether its token is a UUID.
    pub fn refresh_token_at(
        &mut self,
        grant_type: Option<&str>,
        refresh: Option<&str>,
        is_uuid: bool,
        d: &Draw,
    ) -> (r: Result<Json, String>)
        ensures
            refresh_spec(
                old(self)@,
                match grant_type {
                    Some(t) => Some(t@),
                    None => None,
                },
                match refresh {
                    Some(t) => Some(t@),
                    None => None,
                },
                is_uuid,
                d@,
            ) == (final(self)@, json_result(r)),
    {
        let granted = match grant_type {
            Some(t) => same(t, "refresh_token"),
            None => false,
        };
        if !granted {
            return Err("INVALID_GRANT_TYPE".to_owned());
        }
        let token = match refresh {
            Some(token) => token,
            None => {
                return Err("MISSING_REFRESH_TOKEN".to_owned());
            },
        };
        if !is_uuid {
            return Err("INVALID_REFRESH_TOKEN".to_owned());
        }
        let (namespace, uid, issued_at, good) = match self.sessions.get(token) {
            None => {
                return Err("INVALID_REFRESH_TOKEN".to_owned());
            },
            Some(session) => (
                session.namespace.clone(),
                session.uid.clone(),
                session.issued_at,
                session.kind == SessionKind::RefreshToken && session.expires_at > d.now,
            ),
        };
        if !good {
            let _gone = self.sessions.remove(token);
            return Err("INVALID_REFRESH_TOKEN".to_owned());
        }
        let user = match self.find_user(namespace.as_str(), uid.as_str()) {
            Some(user) => user.duplicate(),
            None => {
                return Err("USER_NOT_FOUND".to_owned());
            },
        };
        if user.disabled {
            return Err("USER_DISABLED".to_owned());
        }
        if valid_second(&user) > issued_at {
            return Err("TOKEN_EXPIRED".to_owned());
        }
        let session = self.issue_session(namespace.as_str(), &user, d);
        proof {
            session_token_member(user@, session_token(namespace@, user@, d.now), d.refresh@);
        }
        let token = session.text("idToken");
        let project = match strip_prefix(namespace.as_str(), "project/") {
            Some(project) => project,
            None => namespace,
        };
        let copy = token.clone();
        Ok(
            single("access_token", Json::Text(token)).with("id_token", Json::Text(copy)).with(
                "refresh_token",
                Json::of_text(d.refresh.as_str()),
            ).with("expires_in", Json::of_text("3600")).with(
                "token_type",
                Json::of_text("Bearer"),
            ).with("user_id", Json::Text(uid)).with("project_id", Json::Text(project)),
        )
    }

    /// Refreshes a session, with what is needed drawn for it.
    pub fn refresh_token(&mut self, grant_type: Option<&str>, refresh: Option<&str>) -> (r: Result<
        Json,
        String,
    >)
        ensures
            exists|d: DrawView|
                #![trigger is_draw(d)]
                is_draw(d) && refresh_spec(
                    old(self)@,
                    match grant_type {
                        Some(t) => Some(t@),
                        None => None,
                    },
                    match refresh {
                        Some(t) => Some(t@),
                        None => None,
                    },
                    refresh is Some && uuid_of_text(refresh->0@) is Some,
                    d,
                ) == (final(self)@, json_result(r)),
    {
        let is_uuid = match refresh {
            Some(token) => canonical_uuid(token).is_some(),
            None => false,
        };
        let d = draw();
        self.refresh_token_at(grant_type, refresh, is_uuid, &d)
    }
}

fn number_of(v: &Json, key: &str) -> (r: u64)
    ensures
        r == claimed_number(v@, key@),
{
    match v.get(key) {
        Some(Json::Unsigned(n)) => *n,
        _ => 0,
    }
}

fn valid_second(user: &User) -> (r: u64)
    ensures
        r == valid_from(user@),
{
    match parse_unsigned(user.valid_since.as_str(), u64::MAX) {
        Some(n) => n,
        None => 0,
    }
}

/// One more member of an object: it is found, the others stay, and the order
/// of the members is kept.
pub(crate) proof fn one_more(v: JsonView, key: Seq<char>, value: JsonView, other: Seq<char>)
    requires
        v is Object,
        keys_sorted(v->Object_0),
    ensures
        with_member(v, key, value) is Object,
        keys_sorted(with_member(v, key, value)->Object_0),
        member(with_member(v, key, value), key) == Some(value),
        other != key ==> member(with_member(v, key, value), other) == member(v, other),
{
    lookup_after_put(v->Object_0, key, value, other);
    put_sorted(v->Object_0, key, value);
}

proof fn session_token_member(user: UserView, token: Seq<char>, refresh: Seq<char>)
    ensures
        member(session_json(user, token, refresh), "idToken"@) == Some(JsonView::Text(token)),
{
    reveal_strlit("idToken");
    reveal_strlit("refreshToken");
    reveal_strlit("expiresIn");
    reveal_strlit("registered");
    let e = empty_object();
    one_more(e, "localId"@, JsonView::Text(user.local_id), "idToken"@);
    let v = object1("localId"@, JsonView::Text(user.local_id));
    one_more(v, "email"@, text_or_null(user.email), "idToken"@);
    let v = with_member(v, "email"@, text_or_null(user.email));
    one_more(v, "displayName"@, text_or_null(user.display_name), "idToken"@);
    let v = with_member(v, "displayName"@, text_or_null(user.display_name));
    one_more(v, "idToken"@, JsonView::Text(token), "idToken"@);
    let v = with_member(v, "idToken"@, JsonView::Text(token));
    one_more(v, "refreshToken"@, JsonView::Text(refresh), "idToken"@);
    let v = with_member(v, "refreshToken"@, JsonView::Text(refresh));
    one_more(v, "expiresIn"@, JsonView::Text("3600"@), "idToken"@);
    let v = with_member(v, "expiresIn"@, JsonView::Text("3600"@));
    one_more(v, "registered"@, JsonView::Bool(true), "idToken"@);
}

} // verus!
