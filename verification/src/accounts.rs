//! User accounts: what a request writes of them and how they are shown.
use crate::json::{as_text_spec, at, items_view, object1, with_member, Json, JsonView};
use crate::multipart::{eq_ignore_case, is_white, is_white_spec, same_but_case};
use crate::ordered::{keys_sorted, lookup, put, Duplicate, OrderedMap};
use crate::storage::{add_text, with_text};
use crate::text::{cat, chars_of, is_blank, opt_text, same, split, split_spec, texts};
use crate::web_values::single;
use vstd::prelude::*;
use vstd::utf8::encode_utf8;

verus! {

/// The text in small letters, as `str::to_lowercase` writes it.
pub uninterp spec fn lowercase_text(text: Seq<char>) -> Seq<char>;

/// Writes a text in small letters with `str::to_lowercase`.
#[verifier::external_body]
pub(crate) fn to_lowercase(text: &str) -> (r: String)
    ensures
        r@ == lowercase_text(text@),
{
    text.to_lowercase()
}

/// The namespace of a project's users.
pub open spec fn project_namespace_spec(project_id: Seq<char>) -> Seq<char> {
    "project/"@ + project_id
}

/// Names the namespace of a project's users.
pub fn project_namespace(project_id: &str) -> (r: String)
    ensures
        r@ == project_namespace_spec(project_id@),
{
    cat("project/", project_id)
}

/// The namespace of the project that the environment names.
pub fn environment_namespace(gcloud: Option<String>, google_cloud: Option<String>) -> (r: String)
    ensures
        r@ == project_namespace_spec(
            match opt_text(gcloud) {
                Some(project) => project,
                None => match opt_text(google_cloud) {
                    Some(project) => project,
                    None => "demo-firebase"@,
                },
            },
        ),
{
    let project = match gcloud {
        Some(project) => project,
        None => match google_cloud {
            Some(project) => project,
            None => "demo-firebase".to_owned(),
        },
    };
    project_namespace(project.as_str())
}

/// A user of a project.
pub struct User {
    pub local_id: String,
    pub password: Option<String>,
    pub email: Option<String>,
    pub email_verified: bool,
    pub display_name: Option<String>,
    pub photo_url: Option<String>,
    pub phone_number: Option<String>,
    pub disabled: bool,
    pub custom_attributes: Option<String>,
    pub provider_user_info: Vec<Json>,
    pub mfa_info: Vec<Json>,
    pub valid_since: String,
    pub created_at: String,
    pub last_login_at: String,
}

/// What a [`User`] stands for.
#[verifier::ext_equal]
pub struct UserView {
    pub local_id: Seq<char>,
    pub password: Option<Seq<char>>,
    pub email: Option<Seq<char>>,
    pub email_verified: bool,
    pub display_name: Option<Seq<char>>,
    pub photo_url: Option<Seq<char>>,
    pub phone_number: Option<Seq<char>>,
    pub disabled: bool,
    pub custom_attributes: Option<Seq<char>>,
    pub provider_user_info: Seq<JsonView>,
    pub mfa_info: Seq<JsonView>,
    pub valid_since: Seq<char>,
    pub created_at: Seq<char>,
    pub last_login_at: Seq<char>,
}

impl View for User {
    type V = UserView;

    open spec fn view(&self) -> UserView {
        UserView {
            local_id: self.local_id@,
            password: opt_text(self.password),
            email: opt_text(self.email),
            email_verified: self.email_verified,
            display_name: opt_text(self.display_name),
            photo_url: opt_text(self.photo_url),
            phone_number: opt_text(self.phone_number),
            disabled: self.disabled,
            custom_attributes: opt_text(self.custom_attributes),
            provider_user_info: items_view(self.provider_user_info@),
            mfa_info: items_view(self.mfa_info@),
            valid_since: self.valid_since@,
            created_at: self.created_at@,
            last_login_at: self.last_login_at@,
        }
    }
}

pub(crate) fn copy_text(text: &Option<String>) -> (r: Option<String>)
    ensures
        opt_text(r) == opt_text(*text),
{
    match text {
        Some(t) => Some(t.clone()),
        None => None,
    }
}

pub(crate) fn copy_items(items: &Vec<Json>) -> (r: Vec<Json>)
    ensures
        items_view(r@) == items_view(items@),
{
    let mut out: Vec<Json> = Vec::new();
    let mut i: usize = 0;
    while i < items.len()
        invariant
            i <= items@.len(),
            out@.len() == i,
            forall|j: int| 0 <= j < i ==> (#[trigger] out@[j])@ == items@[j]@,
        decreases items.len() - i,
    {
        out.push(items[i].duplicate());
        i += 1;
    }
    assert(items_view(out@) =~= items_view(items@));
    out
}

impl Duplicate for User {
    fn duplicate(&self) -> (r: Self) {
        User {
            local_id: self.local_id.clone(),
            password: copy_text(&self.password),
            email: copy_text(&self.email),
            email_verified: self.email_verified,
            display_name: copy_text(&self.display_name),
            photo_url: copy_text(&self.photo_url),
            phone_number: copy_text(&self.phone_number),
            disabled: self.disabled,
            custom_attributes: copy_text(&self.custom_attributes),
            provider_user_info: copy_items(&self.provider_user_info),
            mfa_info: copy_items(&self.mfa_info),
            valid_since: self.valid_since.clone(),
            created_at: self.created_at.clone(),
            last_login_at: self.last_login_at.clone(),
        }
    }
}

/// What a request writes of an account. What is missing is left as it is.
pub struct WriteAccountRequest {
    pub local_id: Option<String>,
    pub email: Option<String>,
    pub email_verified: Option<bool>,
    pub display_name: Option<String>,
    pub photo_url: Option<String>,
    pub phone_number: Option<String>,
    pub disabled: Option<bool>,
    pub disable_user: Option<bool>,
    pub custom_attributes: Option<String>,
    pub valid_since: Option<String>,
    pub delete_attribute: Vec<String>,
    pub delete_provider: Vec<String>,
    pub link_provider_user_info: Vec<Json>,
    pub provider_user_info: Vec<Json>,
    pub mfa: Vec<Json>,
    pub mfa_info: Vec<Json>,
    pub password: Option<String>,
    pub id_token: Option<String>,
}

/// What a [`WriteAccountRequest`] stands for.
#[verifier::ext_equal]
pub struct AccountView {
    pub local_id: Option<Seq<char>>,
    pub email: Option<Seq<char>>,
    pub email_verified: Option<bool>,
    pub display_name: Option<Seq<char>>,
    pub photo_url: Option<Seq<char>>,
    pub phone_number: Option<Seq<char>>,
    pub disabled: Option<bool>,
    pub disable_user: Option<bool>,
    pub custom_attributes: Option<Seq<char>>,
    pub valid_since: Option<Seq<char>>,
    pub delete_attribute: Seq<Seq<char>>,
    pub delete_provider: Seq<Seq<char>>,
    pub link_provider_user_info: Seq<JsonView>,
    pub provider_user_info: Seq<JsonView>,
    pub mfa: Seq<JsonView>,
    pub mfa_info: Seq<JsonView>,
    pub password: Option<Seq<char>>,
    pub id_token: Option<Seq<char>>,
}

impl View for WriteAccountRequest {
    type V = AccountView;

    open spec fn view(&self) -> AccountView {
        AccountView {
            local_id: opt_text(self.local_id),
            email: opt_text(self.email),
            email_verified: self.email_verified,
            display_name: opt_text(self.display_name),
            photo_url: opt_text(self.photo_url),
            phone_number: opt_text(self.phone_number),
            disabled: self.disabled,
            disable_user: self.disable_user,
            custom_attributes: opt_text(self.custom_attributes),
            valid_since: opt_text(self.valid_since),
            delete_attribute: texts(self.delete_attribute@),
            delete_provider: texts(self.delete_provider@),
            link_provider_user_info: items_view(self.link_provider_user_info@),
            provider_user_info: items_view(self.provider_user_info@),
            mfa: items_view(self.mfa@),
            mfa_info: items_view(self.mfa_info@),
            password: opt_text(self.password),
            id_token: opt_text(self.id_token),
        }
    }
}

impl WriteAccountRequest {
    /// A request that writes nothing.
    pub open spec fn none_spec() -> AccountView {
        AccountView {
            local_id: None,
            email: None,
            email_verified: None,
            display_name: None,
            photo_url: None,
            phone_number: None,
            disabled: None,
            disable_user: None,
            custom_attributes: None,
            valid_since: None,
            delete_attribute: Seq::empty(),
            delete_provider: Seq::empty(),
            link_provider_user_info: Seq::empty(),
            provider_user_info: Seq::empty(),
            mfa: Seq::empty(),
            mfa_info: Seq::empty(),
            password: None,
            id_token: None,
        }
    }

    pub fn none() -> (r: WriteAccountRequest)
        ensures
            r@ == WriteAccountRequest::none_spec(),
    {
        let r = WriteAccountRequest {
            local_id: None,
            email: None,
            email_verified: None,
            display_name: None,
            photo_url: None,
            phone_number: None,
            disabled: None,
            disable_user: None,
            custom_attributes: None,
            valid_since: None,
            delete_attribute: Vec::new(),
            delete_provider: Vec::new(),
            link_provider_user_info: Vec::new(),
            provider_user_info: Vec::new(),
            mfa: Vec::new(),
            mfa_info: Vec::new(),
            password: None,
            id_token: None,
        };
        assert(r@ =~= WriteAccountRequest::none_spec());
        r
    }
}

/// The JSON of a user. The password is not shown.
pub open spec fn user_json_spec(user: UserView) -> JsonView {
    let v = object1("localId"@, JsonView::Text(user.local_id));
    let v = with_text(v, "email"@, user.email);
    let v = with_member(v, "emailVerified"@, JsonView::Bool(user.email_verified));
    let v = with_text(v, "displayName"@, user.display_name);
    let v = with_text(v, "photoUrl"@, user.photo_url);
    let v = with_text(v, "phoneNumber"@, user.phone_number);
    let v = with_member(v, "disabled"@, JsonView::Bool(user.disabled));
    let v = with_text(v, "customAttributes"@, user.custom_attributes);
    let v = with_member(v, "providerUserInfo"@, JsonView::Array(user.provider_user_info));
    let v = if user.mfa_info.len() == 0 {
        v
    } else {
        with_member(v, "mfaInfo"@, JsonView::Array(user.mfa_info))
    };
    let v = with_member(v, "validSince"@, JsonView::Text(user.valid_since));
    let v = with_member(v, "createdAt"@, JsonView::Text(user.created_at));
    with_member(v, "lastLoginAt"@, JsonView::Text(user.last_login_at))
}

/// Writes a user as JSON.
pub fn user_json(user: &User) -> (r: Json)
    ensures
        r@ == user_json_spec(user@),
{
    let v = single("localId", Json::of_text(user.local_id.as_str()));
    let v = add_text(v, "email", &user.email);
    let v = v.with("emailVerified", Json::Bool(user.email_verified));
    let v = add_text(v, "displayName", &user.display_name);
    let v = add_text(v, "photoUrl", &user.photo_url);
    let v = add_text(v, "phoneNumber", &user.phone_number);
    let v = v.with("disabled", Json::Bool(user.disabled));
    let v = add_text(v, "customAttributes", &user.custom_attributes);
    let v = v.with("providerUserInfo", Json::array(copy_items(&user.provider_user_info)));
    let v = if user.mfa_info.len() == 0 {
        v
    } else {
        v.with("mfaInfo", Json::array(copy_items(&user.mfa_info)))
    };
    let v = v.with("validSince", Json::of_text(user.valid_since.as_str()));
    let v = v.with("createdAt", Json::of_text(user.created_at.as_str()));
    v.with("lastLoginAt", Json::of_text(user.last_login_at.as_str()))
}

/// Whether a text is an address: one at sign with text on both sides, and no
/// white space.
pub open spec fn is_email(email: Seq<char>) -> bool {
    let parts = split_spec(email, '@');
    &&& parts.len() == 2
    &&& parts[0].len() > 0
    &&& parts[1].len() > 0
    &&& forall|i: int| 0 <= i < email.len() ==> !is_white_spec(#[trigger] email[i])
}

/// Why the credentials of a request are refused, if they are: the address must
/// be one, and the password take at least six bytes.
pub open spec fn credentials_refused(email: Option<Seq<char>>, password: Option<Seq<char>>) -> Option<
    Seq<char>,
> {
    if email is Some && !is_email(email->0) {
        Some("INVALID_EMAIL"@)
    } else if password is Some && encode_utf8(password->0).len() < 6 {
        Some("WEAK_PASSWORD : Password should be at least 6 characters"@)
    } else {
        None
    }
}

fn valid_email(email: &str) -> (r: bool)
    ensures
        r == is_email(email@),
{
    let parts = split(email, '@');
    let ghost all = texts(parts@);
    if parts.len() != 2 {
        return false;
    }
    assert(all[0] == parts@[0]@ && all[1] == parts@[1]@);
    if is_blank(parts[0].as_str()) || is_blank(parts[1].as_str()) {
        return false;
    }
    let chars = chars_of(email);
    let mut i: usize = 0;
    while i < chars.len()
        invariant
            i <= chars@.len(),
            chars@ == email@,
            forall|j: int| 0 <= j < i ==> !is_white_spec(#[trigger] email@[j]),
        decreases chars.len() - i,
    {
        if is_white(chars[i]) {
            assert(is_white_spec(email@[i as int]));
            return false;
        }
        i += 1;
    }
    true
}

/// Checks the credentials of a request.
pub fn validate_credentials(request: &WriteAccountRequest) -> (r: Result<(), String>)
    ensures
        match r {
            Ok(_) => credentials_refused(request@.email, request@.password) is None,
            Err(e) => credentials_refused(request@.email, request@.password) == Some(e@),
        },
{
    if let Some(email) = &request.email {
        if !valid_email(email.as_str()) {
            return Err("INVALID_EMAIL".to_owned());
        }
    }
    if let Some(password) = &request.password {
        if password.as_str().as_bytes().len() < 6 {
            return Err("WEAK_PASSWORD : Password should be at least 6 characters".to_owned());
        }
    }
    Ok(())
}

/// The id of a provider, where it has one.
pub open spec fn provider_id(provider: JsonView) -> Option<Seq<char>> {
    as_text_spec(at(provider, "providerId"@))
}

/// The first of the providers from `i` on with an id.
pub open spec fn provider_index(
    providers: Seq<JsonView>,
    id: Option<Seq<char>>,
    i: int,
) -> Option<int>
    decreases providers.len() - i,
{
    if i < 0 || i >= providers.len() {
        None
    } else if provider_id(providers[i]) == id {
        Some(i)
    } else {
        provider_index(providers, id, i + 1)
    }
}

/// The providers with one in place of the first with the same id, or behind
/// all others.
pub open spec fn upsert_provider_spec(providers: Seq<JsonView>, new: JsonView) -> Seq<JsonView> {
    match provider_index(providers, provider_id(new), 0) {
        Some(i) => providers.update(i, new),
        None => providers.push(new),
    }
}

fn same_id(a: Option<&str>, b: Option<&str>) -> (r: bool)
    ensures
        r == (match (a, b) {
            (Some(x), Some(y)) => x@ == y@,
            (None, None) => true,
            _ => false,
        }),
{
    match (a, b) {
        (Some(x), Some(y)) => same(x, y),
        (None, None) => true,
        _ => false,
    }
}

fn id_of(provider: &Json) -> (r: Option<&str>)
    ensures
        (match r {
            Some(id) => Some(id@),
            None => None,
        }) == provider_id(provider@),
{
    match provider.get("providerId") {
        Some(id) => id.as_text(),
        None => None,
    }
}

/// Adds a provider, or puts it in place of the one with the same id.
pub fn upsert_provider(providers: &mut Vec<Json>, new_provider: Json)
    ensures
        items_view(final(providers)@) == upsert_provider_spec(
            items_view(old(providers)@),
            new_provider@,
        ),
{
    let ghost all = items_view(providers@);
    let mut i: usize = 0;
    while i < providers.len()
        invariant
            i <= providers@.len(),
            *providers == *old(providers),
            all == items_view(providers@),
            provider_index(all, provider_id(new_provider@), 0) == provider_index(
                all,
                provider_id(new_provider@),
                i as int,
            ),
        decreases providers.len() - i,
    {
        assert(all[i as int] == providers@[i as int]@);
        if same_id(id_of(&providers[i]), id_of(&new_provider)) {
            providers.set(i, new_provider);
            assert(items_view(providers@) =~= all.update(i as int, new_provider@));
            return;
        }
        i += 1;
    }
    providers.push(new_provider);
    assert(items_view(providers@) =~= all.push(new_provider@));
}

/// A text as JSON, null where it is missing.
pub open spec fn text_or_null(text: Option<Seq<char>>) -> JsonView {
    match text {
        Some(t) => JsonView::Text(t),
        None => JsonView::Null,
    }
}

pub(crate) fn optional_text(text: &Option<String>) -> (r: Json)
    ensures
        r@ == text_or_null(opt_text(*text)),
{
    match text {
        Some(t) => Json::of_text(t.as_str()),
        None => Json::Null,
    }
}

/// The provider that stands for signing in with a password.
pub open spec fn password_provider(user: UserView) -> JsonView {
    let email = JsonView::Text(user.email->0);
    let v = object1("providerId"@, JsonView::Text("password"@));
    let v = with_member(v, "rawId"@, email);
    let v = with_member(v, "email"@, email);
    let v = with_member(v, "displayName"@, text_or_null(user.display_name));
    with_member(v, "photoUrl"@, text_or_null(user.photo_url))
}

/// A user whose providers tell that there is a password, where there is one.
pub open spec fn synced(user: UserView) -> UserView {
    if user.email is Some && user.password is Some {
        UserView {
            provider_user_info: upsert_provider_spec(
                user.provider_user_info,
                password_provider(user),
            ),
            ..user
        }
    } else {
        user
    }
}

/// Keeps the provider for signing in with a password in step with a user.
pub fn sync_password_provider(user: &mut User)
    ensures
        final(user)@ == synced(old(user)@),
{
    if user.password.is_some() {
        if let Some(email) = &user.email {
            let provider = single("providerId", Json::of_text("password")).with(
                "rawId",
                Json::of_text(email.as_str()),
            ).with("email", Json::of_text(email.as_str())).with(
                "displayName",
                optional_text(&user.display_name),
            ).with("photoUrl", optional_text(&user.photo_url));
            upsert_provider(&mut user.provider_user_info, provider);
        }
    }
}

/// A user without an attribute.
pub open spec fn without_attribute(user: UserView, attribute: Seq<char>) -> UserView {
    if attribute == "EMAIL"@ {
        UserView { email: None, email_verified: false, ..user }
    } else if attribute == "DISPLAY_NAME"@ {
        UserView { display_name: None, ..user }
    } else if attribute == "PHOTO_URL"@ {
        UserView { photo_url: None, ..user }
    } else if attribute == "PHONE_NUMBER"@ {
        UserView { phone_number: None, ..user }
    } else if attribute == "CUSTOM_ATTRIBUTES"@ {
        UserView { custom_attributes: None, ..user }
    } else {
        user
    }
}

/// A user without the first `n` of some attributes.
pub open spec fn without_attributes(user: UserView, attributes: Seq<Seq<char>>, n: nat) -> UserView
    decreases n,
{
    if n == 0 || n > attributes.len() {
        user
    } else {
        without_attribute(without_attributes(user, attributes, (n - 1) as nat), attributes[n - 1])
    }
}

/// The providers whose ids are not among some.
pub open spec fn kept_providers(providers: Seq<JsonView>, removed: Seq<Seq<char>>) -> Seq<JsonView>
    decreases providers.len(),
{
    if providers.len() == 0 {
        Seq::empty()
    } else {
        let before = kept_providers(providers.drop_last(), removed);
        if provider_id(providers.last()) matches Some(id) && removed.contains(id) {
            before
        } else {
            before.push(providers.last())
        }
    }
}

/// A user without some attributes and providers.
pub open spec fn after_deletions(
    user: UserView,
    attributes: Seq<Seq<char>>,
    providers: Seq<Seq<char>>,
) -> UserView {
    let user = without_attributes(user, attributes, attributes.len());
    UserView { provider_user_info: kept_providers(user.provider_user_info, providers), ..user }
}

fn is_among(id: &str, names: &Vec<String>) -> (r: bool)
    ensures
        r == texts(names@).contains(id@),
{
    let ghost all = texts(names@);
    let mut i: usize = 0;
    while i < names.len()
        invariant
            i <= names@.len(),
            all == texts(names@),
            forall|j: int| 0 <= j < i ==> all[j] != id@,
        decreases names.len() - i,
    {
        assert(all[i as int] == names@[i as int]@);
        if same(names[i].as_str(), id) {
            return true;
        }
        i += 1;
    }
    false
}

/// Removes attributes and providers of a user.
pub fn apply_deletions(user: &mut User, attributes: &Vec<String>, providers: &Vec<String>)
    ensures
        final(user)@ == after_deletions(old(user)@, texts(attributes@), texts(providers@)),
{
    let ghost names = texts(attributes@);
    let ghost start = user@;
    let mut i: usize = 0;
    while i < attributes.len()
        invariant
            i <= attributes@.len(),
            names == texts(attributes@),
            start == old(user)@,
            user@ == without_attributes(start, names, i as nat),
        decreases attributes.len() - i,
    {
        let ghost before = user@;
        assert(names[i as int] == attributes@[i as int]@);
        let attribute = attributes[i].as_str();
        if same(attribute, "EMAIL") {
            user.email = None;
            user.email_verified = false;
        } else if same(attribute, "DISPLAY_NAME") {
            user.display_name = None;
        } else if same(attribute, "PHOTO_URL") {
            user.photo_url = None;
        } else if same(attribute, "PHONE_NUMBER") {
            user.phone_number = None;
        } else if same(attribute, "CUSTOM_ATTRIBUTES") {
            user.custom_attributes = None;
        }
        assert(user@ =~= without_attribute(before, attribute@));
        i += 1;
    }
    let ghost middle = user@;
    let mut all: Vec<Json> = Vec::new();
    std::mem::swap(&mut user.provider_user_info, &mut all);
    let ghost views = items_view(all@);
    let mut kept: Vec<Json> = Vec::new();
    assert(items_view(kept@) =~= Seq::empty());
    assert(views.take(0) =~= Seq::empty());
    for provider in it: all
        invariant
            it.seq() == all@,
            views == items_view(all@),
            items_view(kept@) == kept_providers(
                views.take(it.index() as int),
                texts(providers@),
            ),
    {
        let ghost i = it.index() as int;
        assert(views.take(i + 1).drop_last() =~= views.take(i));
        assert(views.take(i + 1).last() == provider@);
        let removed = match id_of(&provider) {
            Some(id) => is_among(id, providers),
            None => false,
        };
        if !removed {
            let ghost before = items_view(kept@);
            kept.push(provider);
            assert(items_view(kept@) =~= before.push(provider@));
        }
    }
    assert(views.take(views.len() as int) =~= views);
    user.provider_user_info = kept;
    assert(user@ =~= after_deletions(start, names, texts(providers@)));
}

/// The users of a project by id.
pub type UsersView = Seq<(Seq<char>, UserView)>;

/// Whether a user already has an address, the case of letters aside.
pub open spec fn has_email(user: UserView, email: Option<Seq<char>>) -> bool {
    email is Some && user.email is Some && same_but_case(user.email->0, email->0)
}

/// Whether a user already has a phone number.
pub open spec fn has_phone(user: UserView, phone: Option<Seq<char>>) -> bool {
    phone is Some && user.phone_number == phone
}

/// Which of an address and a phone number is taken by a user from `i` on.
pub open spec fn taken(
    users: UsersView,
    email: Option<Seq<char>>,
    phone: Option<Seq<char>>,
    except: Option<Seq<char>>,
    i: int,
) -> Option<Seq<char>>
    decreases users.len() - i,
{
    if i < 0 || i >= users.len() {
        None
    } else if except == Some(users[i].1.local_id) {
        taken(users, email, phone, except, i + 1)
    } else if has_email(users[i].1, email) {
        Some("EMAIL_EXISTS"@)
    } else if has_phone(users[i].1, phone) {
        Some("PHONE_NUMBER_EXISTS"@)
    } else {
        taken(users, email, phone, except, i + 1)
    }
}

/// Checks that no user but `except_local_id` has an address, the case of
/// letters aside, or a phone number.
pub fn ensure_unique(
    users: &OrderedMap<User>,
    email: &Option<String>,
    phone: &Option<String>,
    except_local_id: Option<&str>,
) -> (r: Result<(), String>)
    ensures
        ({
            let except = match except_local_id {
                Some(id) => Some(id@),
                None => None,
            };
            match r {
                Ok(_) => taken(users@, opt_text(*email), opt_text(*phone), except, 0) is None,
                Err(e) => taken(users@, opt_text(*email), opt_text(*phone), except, 0) == Some(e@),
            }
        }),
{
    let ghost except = match except_local_id {
        Some(id) => Some(id@),
        None => None,
    };
    let mut i: usize = 0;
    while i < users.len()
        invariant
            i <= users@.len(),
            except == (match except_local_id {
                Some(id) => Some(id@),
                None => None,
            }),
            taken(users@, opt_text(*email), opt_text(*phone), except, 0) == taken(
                users@,
                opt_text(*email),
                opt_text(*phone),
                except,
                i as int,
            ),
        decreases users@.len() - i,
    {
        let user = users.value_at(i);
        let skipped = match except_local_id {
            Some(id) => same(id, user.local_id.as_str()),
            None => false,
        };
        if !skipped {
            let known = match (email, &user.email) {
                (Some(candidate), Some(current)) => {
                    eq_ignore_case(current.as_str(), candidate.as_str())
                },
                _ => false,
            };
            if known {
                return Err("EMAIL_EXISTS".to_owned());
            }
            let called = match (phone, &user.phone_number) {
                (Some(candidate), Some(current)) => same(current.as_str(), candidate.as_str()),
                _ => false,
            };
            if called {
                return Err("PHONE_NUMBER_EXISTS".to_owned());
            }
        }
        i += 1;
    }
    Ok(())
}

/// Whether no two users of a project have the same address, the case of
/// letters aside, or the same phone number.
pub open spec fn contacts_unique(users: UsersView) -> bool {
    forall|i: int, j: int|
        0 <= i < j < users.len() ==> !has_email(
            (#[trigger] users[i]).1,
            (#[trigger] users[j]).1.email,
        ) && !has_phone(users[i].1, users[j].1.phone_number)
}

/// Whether each user is stored under the user's own id.
pub open spec fn filed_by_id(users: UsersView) -> bool {
    forall|i: int| 0 <= i < users.len() ==> (#[trigger] users[i]).0 == users[i].1.local_id
}

pub(crate) proof fn not_taken(
    users: UsersView,
    email: Option<Seq<char>>,
    phone: Option<Seq<char>>,
    except: Option<Seq<char>>,
    i: int,
    k: int,
)
    requires
        0 <= i <= k < users.len(),
        taken(users, email, phone, except, i) is None,
        except != Some(users[k].1.local_id),
    ensures
        !has_email(users[k].1, email),
        !has_phone(users[k].1, phone),
    decreases k - i,
{
    if i < k {
        not_taken(users, email, phone, except, i + 1, k);
    }
}

pub(crate) proof fn email_symmetric(a: UserView, b: UserView)
    ensures
        has_email(a, b.email) == has_email(b, a.email),
        has_phone(a, b.phone_number) == has_phone(b, a.phone_number),
{
    if a.email is Some && b.email is Some {
        let (x, y) = (a.email->0, b.email->0);
        if same_but_case(x, y) {
            assert forall|i: int| 0 <= i < y.len() implies crate::multipart::lower_spec(
                #[trigger] y[i],
            ) == crate::multipart::lower_spec(x[i]) by {
                assert(crate::multipart::lower_spec(x[i]) == crate::multipart::lower_spec(y[i]));
            }
        }
        if same_but_case(y, x) {
            assert forall|i: int| 0 <= i < x.len() implies crate::multipart::lower_spec(
                #[trigger] x[i],
            ) == crate::multipart::lower_spec(y[i]) by {
                assert(crate::multipart::lower_spec(y[i]) == crate::multipart::lower_spec(x[i]));
            }
        }
    }
}

/// A user whose address and phone number no other user has can be stored, in
/// place of the user with the same id or as a new one, and the contacts of all
/// users stay unique.
pub proof fn contacts_stay_unique(users: UsersView, user: UserView)
    requires
        keys_sorted(users),
        filed_by_id(users),
        contacts_unique(users),
        taken(users, user.email, user.phone_number, Some(user.local_id), 0) is None,
    ensures
        filed_by_id(put(users, user.local_id, user)),
        contacts_unique(put(users, user.local_id, user)),
{
    let id = user.local_id;
    let out = put(users, id, user);
    crate::ordered::lower_bound_properties(users, id);
    let b = crate::ordered::lower_bound(users, id);
    let replaced = lookup(users, id) is Some;
    assert forall|i: int| 0 <= i < out.len() && i != b implies exists|k: int|
        0 <= k < users.len() && users[k] == #[trigger] out[i] && users[k].1.local_id != id by {
        let k = if replaced || i < b {
            i
        } else {
            i - 1
        };
        assert(users[k] == out[i]);
        assert(users[k].0 == users[k].1.local_id);
        if users[k].0 == id {
            crate::ordered::lookup_at(users, k);
        }
    }
    assert(out[b] == (id, user));
    assert forall|i: int| 0 <= i < out.len() implies (#[trigger] out[i]).0 == out[i].1.local_id by {
        if i != b {
            let k = choose|k: int|
                0 <= k < users.len() && users[k] == out[i] && users[k].1.local_id != id;
            assert(users[k].0 == users[k].1.local_id);
        }
    }
    assert forall|i: int, j: int| 0 <= i < j < out.len() implies !has_email(
        (#[trigger] out[i]).1,
        (#[trigger] out[j]).1.email,
    ) && !has_phone(out[i].1, out[j].1.phone_number) by {
        if i == b {
            let k = choose|k: int|
                0 <= k < users.len() && users[k] == out[j] && users[k].1.local_id != id;
            not_taken(users, user.email, user.phone_number, Some(id), 0, k);
            email_symmetric(out[i].1, out[j].1);
        } else if j == b {
            let k = choose|k: int|
                0 <= k < users.len() && users[k] == out[i] && users[k].1.local_id != id;
            not_taken(users, user.email, user.phone_number, Some(id), 0, k);
        } else {
            let x = if replaced || i < b {
                i
            } else {
                i - 1
            };
            let y = if replaced || j < b {
                j
            } else {
                j - 1
            };
            assert(users[x] == out[i] && users[y] == out[j]);
        }
    }
}

/// What is asked for of a lookup.
pub struct LookupRequest {
    pub id_token: Option<String>,
    pub local_id: Vec<String>,
    pub email: Vec<String>,
    pub phone_number: Vec<String>,
    pub federated_user_id: Vec<(String, String)>,
}

/// Whether a user signs in with a provider under an id.
pub open spec fn has_identity(user: UserView, wanted: (Seq<char>, Seq<char>)) -> bool {
    exists|i: int|
        0 <= i < user.provider_user_info.len() && provider_id(
            #[trigger] user.provider_user_info[i],
        ) == Some(wanted.0) && as_text_spec(at(user.provider_user_info[i], "rawId"@)) == Some(
            wanted.1,
        )
}

/// The view of pairs of texts.
pub open spec fn identities_view(pairs: Seq<(String, String)>) -> Seq<(Seq<char>, Seq<char>)> {
    pairs.map_values(|p: (String, String)| (p.0@, p.1@))
}

/// Whether a user is asked for: by id, by address, the case of letters aside,
/// by phone number or by an identity at a provider.
pub open spec fn is_asked_for(
    user: UserView,
    ids: Seq<Seq<char>>,
    emails: Seq<Seq<char>>,
    phones: Seq<Seq<char>>,
    identities: Seq<(Seq<char>, Seq<char>)>,
) -> bool {
    ||| ids.contains(user.local_id)
    ||| user.email is Some && exists|i: int|
        0 <= i < emails.len() && lowercase_text(#[trigger] emails[i]) == lowercase_text(
            user.email->0,
        )
    ||| user.phone_number is Some && phones.contains(user.phone_number->0)
    ||| exists|i: int| 0 <= i < identities.len() && has_identity(user, #[trigger] identities[i])
}

fn identity_matches(user: &User, wanted: &(String, String)) -> (r: bool)
    ensures
        r == has_identity(user@, (wanted.0@, wanted.1@)),
{
    let ghost all = user@.provider_user_info;
    let mut i: usize = 0;
    while i < user.provider_user_info.len()
        invariant
            i <= user.provider_user_info@.len(),
            all == user@.provider_user_info,
            forall|j: int|
                0 <= j < i ==> !(provider_id(#[trigger] all[j]) == Some(wanted.0@) && as_text_spec(
                    at(all[j], "rawId"@),
                ) == Some(wanted.1@)),
        decreases user.provider_user_info.len() - i,
    {
        let provider = &user.provider_user_info[i];
        assert(all[i as int] == provider@);
        let raw = match provider.get("rawId") {
            Some(raw) => raw.as_text(),
            None => None,
        };
        if same_id(id_of(provider), Some(wanted.0.as_str())) && same_id(
            raw,
            Some(wanted.1.as_str()),
        ) {
            assert(provider_id(all[i as int]) == Some(wanted.0@));
            return true;
        }
        i += 1;
    }
    false
}

fn email_matches(email: &str, wanted: &Vec<String>) -> (r: bool)
    ensures
        r == exists|i: int|
            0 <= i < texts(wanted@).len() && lowercase_text(#[trigger] texts(wanted@)[i])
                == lowercase_text(email@),
{
    let ghost all = texts(wanted@);
    let low = to_lowercase(email);
    let mut i: usize = 0;
    while i < wanted.len()
        invariant
            i <= wanted@.len(),
            all == texts(wanted@),
            low@ == lowercase_text(email@),
            forall|j: int|
                0 <= j < i ==> lowercase_text(#[trigger] all[j]) != lowercase_text(email@),
        decreases wanted.len() - i,
    {
        assert(all[i as int] == wanted@[i as int]@);
        if same(to_lowercase(wanted[i].as_str()).as_str(), low.as_str()) {
            assert(lowercase_text(all[i as int]) == lowercase_text(email@));
            return true;
        }
        i += 1;
    }
    false
}

/// Whether a user is asked for.
pub fn asks_for(request: &LookupRequest, user: &User) -> (r: bool)
    ensures
        r == is_asked_for(
            user@,
            texts(request.local_id@),
            texts(request.email@),
            texts(request.phone_number@),
            identities_view(request.federated_user_id@),
        ),
{
    if is_among(user.local_id.as_str(), &request.local_id) {
        return true;
    }
    if let Some(email) = &user.email {
        if email_matches(email.as_str(), &request.email) {
            return true;
        }
    }
    if let Some(phone) = &user.phone_number {
        if is_among(phone.as_str(), &request.phone_number) {
            return true;
        }
    }
    let ghost all = identities_view(request.federated_user_id@);
    let mut i: usize = 0;
    while i < request.federated_user_id.len()
        invariant
            i <= request.federated_user_id@.len(),
            all == identities_view(request.federated_user_id@),
            forall|j: int| 0 <= j < i ==> !has_identity(user@, #[trigger] all[j]),
        decreases request.federated_user_id.len() - i,
    {
        assert(all[i as int] == (
            request.federated_user_id@[i as int].0@,
            request.federated_user_id@[i as int].1@,
        ));
        if identity_matches(user, &request.federated_user_id[i]) {
            assert(has_identity(user@, all[i as int]));
            return true;
        }
        i += 1;
    }
    false
}

} // verus!
