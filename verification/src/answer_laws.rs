//! What refusals are answered with, which requests are served, and which
//! projects and ports are chosen.
use crate::account_laws::{added, began};
use crate::accounts::{
    after_deletions, credentials_refused, has_email, has_phone, kept_providers, provider_id,
    provider_index, synced, taken, upsert_provider_spec, without_attributes, UserView, UsersView,
};
use crate::auth::auth_error_json;
use crate::json::{integer_json_spec, member, object1, pointer, with_member, JsonView};
use crate::loopback::{is_local_host, is_served, origin_parts_host, IpAddress};
use crate::multipart::{is_white_spec, same_but_case};
use crate::ordered::lookup;
use crate::settings::{
    is_demo_project, json_port_spec, port_of_text, project_spec, selected_port_spec,
    EnvironmentView,
};
use crate::status::{Code, StatusView};
use crate::text::{decimal_reads_back, decimal_spec};
use crate::value::Timestamp;
use crate::web_channel::{commit_json_spec, error_json_spec, status_name_spec, write_result_json};
use crate::web_service::rest_status_spec;
use crate::web_values::{time_json_spec, values_json_spec};
use crate::writes::{status_proto_spec, WriteResultView};
use vstd::prelude::*;
use vstd::utf8::encode_utf8;

verus! {

/// The number that a code has on the wire.
pub open spec fn wire_number(code: Code) -> int {
    if code == Code::Cancelled {
        1
    } else if code == Code::InvalidArgument {
        3
    } else if code == Code::NotFound {
        5
    } else if code == Code::AlreadyExists {
        6
    } else if code == Code::ResourceExhausted {
        8
    } else if code == Code::FailedPrecondition {
        9
    } else if code == Code::Unimplemented {
        12
    } else if code == Code::Internal {
        13
    } else {
        14
    }
}

/// A refusal on the wire carries the number of its code and its message, and
/// two codes never have the same number.
pub proof fn statuses_are_sent(status: StatusView, other: StatusView)
    ensures
        status_proto_spec(status).code == wire_number(status.code),
        status_proto_spec(status).message == status.message,
        status_proto_spec(status).code == status_proto_spec(other).code ==> status.code
            == other.code,
{
}

/// A refusal in JSON tells the number of its code, the name of its code and its
/// message.
pub proof fn errors_are_told(error: StatusView)
    ensures
        ({
            let told = member(error_json_spec(error), "error"@);
            &&& told is Some
            &&& member(told->0, "code"@) == Some(JsonView::Unsigned(wire_number(error.code) as u64))
            &&& member(told->0, "message"@) == Some(JsonView::Text(error.message))
            &&& error.code == Code::NotFound ==> member(told->0, "status"@) == Some(
                JsonView::Text("NOT_FOUND"@),
            )
            &&& error.code == Code::AlreadyExists ==> member(told->0, "status"@) == Some(
                JsonView::Text("ALREADY_EXISTS"@),
            )
            &&& error.code == Code::FailedPrecondition ==> member(told->0, "status"@) == Some(
                JsonView::Text("FAILED_PRECONDITION"@),
            )
            &&& error.code == Code::Unimplemented ==> member(told->0, "status"@) == Some(
                JsonView::Text("UNIMPLEMENTED"@),
            )
            &&& error.code == Code::InvalidArgument ==> member(told->0, "status"@) == Some(
                JsonView::Text("INVALID_ARGUMENT"@),
            )
        }),
{
    reveal_strlit("code");
    reveal_strlit("status");
    reveal_strlit("message");
    assert("code"@.len() == 4 && "status"@.len() == 6 && "message"@.len() == 7);
    let number = integer_json_spec(error.code.number_spec() as int);
    let name = JsonView::Text(status_name_spec(error.code));
    let v0 = object1("code"@, number);
    began("code"@, number);
    added(v0, "status"@, name);
    let v1 = with_member(v0, "status"@, name);
    added(v1, "message"@, JsonView::Text(error.message));
    began("error"@, with_member(v1, "message"@, JsonView::Text(error.message)));
}

/// A request that finds nothing is answered with 404, one that meets what is
/// there already with 409, one that is not supported with 501, and every other
/// refused one with 400.
pub proof fn refusals_have_their_status(code: Code)
    ensures
        rest_status_spec(code) == 404 <==> code == Code::NotFound,
        rest_status_spec(code) == 409 <==> code == Code::AlreadyExists,
        rest_status_spec(code) == 501 <==> code == Code::Unimplemented,
        rest_status_spec(code) == 400 || rest_status_spec(code) == 404 || rest_status_spec(code)
            == 409 || rest_status_spec(code) == 501,
{
}

/// A commit tells the time of each of its writes, what their transforms gave,
/// and when it was made.
pub proof fn commits_are_told(
    results: Seq<WriteResultView>,
    time: Timestamp,
    i: int,
)
    requires
        0 <= i < results.len(),
    ensures
        ({
            let v = commit_json_spec(results, time);
            let told = member(v, "writeResults"@);
            &&& member(v, "commitTime"@) == Some(time_json_spec(Some(time)))
            &&& told is Some && told->0 is Array
            &&& told->0->Array_0.len() == results.len()
            &&& member(told->0->Array_0[i], "updateTime"@) == Some(
                time_json_spec(results[i].update_time),
            )
            &&& member(told->0->Array_0[i], "transformResults"@) == Some(
                JsonView::Array(values_json_spec(results[i].transform_results)),
            )
        }),
{
    reveal_strlit("writeResults");
    reveal_strlit("commitTime");
    reveal_strlit("updateTime");
    reveal_strlit("transformResults");
    assert("writeResults"@.len() == 12 && "commitTime"@.len() == 10);
    assert("updateTime"@.len() == 10 && "transformResults"@.len() == 16);
    let list = JsonView::Array(
        results.map_values(|r: WriteResultView| write_result_json(r)),
    );
    began("writeResults"@, list);
    added(object1("writeResults"@, list), "commitTime"@, time_json_spec(Some(time)));
    let updated = time_json_spec(results[i].update_time);
    began("updateTime"@, updated);
    added(
        object1("updateTime"@, updated),
        "transformResults"@,
        JsonView::Array(values_json_spec(results[i].transform_results)),
    );
}

/// A refused request for an account is answered with 400 and its message, twice.
pub proof fn refused_accounts_are_told(message: Seq<char>)
    ensures
        ({
            let told = member(auth_error_json(message), "error"@);
            &&& told is Some
            &&& member(told->0, "code"@) == Some(JsonView::Unsigned(400))
            &&& member(told->0, "message"@) == Some(JsonView::Text(message))
            &&& member(told->0, "errors"@) matches Some(JsonView::Array(errors))
            &&& errors.len() == 1
            &&& member(errors[0], "message"@) == Some(JsonView::Text(message))
            &&& member(errors[0], "domain"@) == Some(JsonView::Text("global"@))
            &&& member(errors[0], "reason"@) == Some(JsonView::Text("invalid"@))
        }),
{
    reveal_strlit("code");
    reveal_strlit("message");
    reveal_strlit("errors");
    reveal_strlit("domain");
    reveal_strlit("reason");
    assert("code"@.len() == 4 && "message"@.len() == 7 && "errors"@.len() == 6);
    assert("domain"@.len() == 6 && "reason"@.len() == 6);
    assert("domain"@[0] == 'd' && "reason"@[0] == 'r');
    let text = JsonView::Text(message);
    let d0 = object1("message"@, text);
    began("message"@, text);
    added(d0, "domain"@, JsonView::Text("global"@));
    let d1 = with_member(d0, "domain"@, JsonView::Text("global"@));
    added(d1, "reason"@, JsonView::Text("invalid"@));
    let detail = with_member(d1, "reason"@, JsonView::Text("invalid"@));
    let v0 = object1("code"@, JsonView::Unsigned(400));
    began("code"@, JsonView::Unsigned(400));
    added(v0, "message"@, text);
    let v1 = with_member(v0, "message"@, text);
    let list = JsonView::Array(seq![detail]);
    added(v1, "errors"@, list);
    began("error"@, with_member(v1, "errors"@, list));
}

/// A request is served where its host is local and, where it comes from an
/// origin, that is local too. The name `localhost` is local in whatever case,
/// and so is every address that begins with 127, and the address 1 of the
/// longer ones.
pub proof fn local_requests_are_served(
    host: Seq<char>,
    ip: Option<IpAddress>,
    origin: Seq<char>,
    origin_ip: Option<IpAddress>,
    n: u32,
    m: u128,
)
    ensures
        is_served(Some(host), ip, false, None, None) <==> is_local_host(host, ip),
        is_served(Some(host), ip, true, Some(origin), origin_ip) <==> is_local_host(host, ip)
            && is_local_host(origin, origin_ip),
        !is_served(None, ip, false, None, None),
        !is_served(Some(host), ip, true, None, origin_ip),
        same_but_case(host, "localhost"@) ==> is_local_host(host, None),
        !same_but_case(host, "localhost"@) ==> !is_local_host(host, None),
        !same_but_case(host, "localhost"@) ==> (is_local_host(host, Some(IpAddress::V4(n)))
            <==> 127 * 0x100_0000 <= n < 128 * 0x100_0000),
        !same_but_case(host, "localhost"@) ==> (is_local_host(host, Some(IpAddress::V6(m))) <==> m
            == 1),
{
}

/// An origin has a host only where it is one of the web, with nothing behind
/// its host.
pub proof fn origins_are_bare(
    scheme: Option<Seq<char>>,
    host: Seq<char>,
    path: Seq<char>,
    query: bool,
)
    ensures
        origin_parts_host((scheme, Some(host), path, query)) is Some <==> (scheme == Some("http"@)
            || scheme == Some("https"@)) && path == "/"@ && !query,
        origin_parts_host((scheme, None, path, query)) is None,
{
}

/// A text in decimal digits between 0 and 65535 is the port of that number, and
/// a larger one is refused.
pub proof fn ports_are_read(n: nat)
    ensures
        n <= 65535 ==> port_of_text(decimal_spec(n)) == Ok::<u16, Seq<char>>(n as u16),
        n > 65535 ==> port_of_text(decimal_spec(n)) is Err,
{
    decimal_reads_back(n);
    let s = decimal_spec(n);
    assert(s.len() > 0 ==> crate::text::all_digits(s));
    if s.len() > 0 && s[0] == '+' {
        assert(false);
    }
}

/// The port of an emulator is the one of the environment, else the one of the
/// configuration, else the usual one; none may be zero.
pub proof fn ports_are_chosen(
    environment: EnvironmentView,
    firebase: JsonView,
    key: Seq<char>,
    service: Seq<char>,
    default: u16,
    n: nat,
    m: u64,
)
    requires
        1 <= n <= 65535,
        1 <= m <= 65535,
        default > 0,
    ensures
        lookup(environment, key) == Some(decimal_spec(n)) && pointer(
            firebase,
            seq!["emulators"@, service, "port"@],
        ) is None ==> selected_port_spec(environment, firebase, key, service, default) == Ok::<
            u16,
            Seq<char>,
        >(n as u16),
        lookup(environment, key) == Some(decimal_spec(n)) && pointer(
            firebase,
            seq!["emulators"@, service, "port"@],
        ) == Some(JsonView::Unsigned(m)) ==> selected_port_spec(
            environment,
            firebase,
            key,
            service,
            default,
        ) == Ok::<u16, Seq<char>>(n as u16),
        lookup(environment, key) is None && pointer(
            firebase,
            seq!["emulators"@, service, "port"@],
        ) == Some(JsonView::Unsigned(m)) ==> selected_port_spec(
            environment,
            firebase,
            key,
            service,
            default,
        ) == Ok::<u16, Seq<char>>(m as u16),
        lookup(environment, key) is None && pointer(
            firebase,
            seq!["emulators"@, service, "port"@],
        ) is None ==> selected_port_spec(environment, firebase, key, service, default) == Ok::<
            u16,
            Seq<char>,
        >(default),
        pointer(firebase, seq!["emulators"@, service, "port"@]) matches Some(JsonView::Unsigned(p))
            ==> (p == 0 || p > 65535 ==> json_port_spec(firebase, service) is Err),
{
    ports_are_read(n);
}

/// A project is named by the command line before anything else, then by the
/// environment, then by the file; what is named may stand for another project
/// in the file. Only projects whose names begin with `demo-` are accepted.
pub proof fn projects_are_chosen(
    named: Seq<char>,
    environment: EnvironmentView,
    firebaserc: JsonView,
)
    requires
        pointer(firebaserc, seq!["projects"@, named]) is None,
    ensures
        is_demo_project(named) ==> project_spec(Some(named), environment, firebaserc) == Ok::<
            Seq<char>,
            Seq<char>,
        >(named),
        !is_demo_project(named) ==> project_spec(Some(named), environment, firebaserc) is Err,
        lookup(environment, "FIREBASE_EMU_PROJECT"@) == Some(named) && is_demo_project(named)
            ==> project_spec(None, environment, firebaserc) == Ok::<Seq<char>, Seq<char>>(named),
        lookup(environment, "FIREBASE_EMU_PROJECT"@) is None && lookup(
            environment,
            "GCLOUD_PROJECT"@,
        ) == Some(named) && is_demo_project(named) ==> project_spec(None, environment, firebaserc)
            == Ok::<Seq<char>, Seq<char>>(named),
        lookup(environment, "FIREBASE_EMU_PROJECT"@) is None && lookup(
            environment,
            "GCLOUD_PROJECT"@,
        ) is None && lookup(environment, "GOOGLE_CLOUD_PROJECT"@) == Some(named) && is_demo_project(
            named,
        ) ==> project_spec(None, environment, firebaserc) == Ok::<Seq<char>, Seq<char>>(named),
        project_spec(Some(named), environment, firebaserc) is Ok ==> "demo-"@.is_prefix_of(named),
{
}

/// Credentials are accepted where the address has something on both sides of
/// its one `@` and no white space, and the password takes at least six bytes.
pub proof fn credentials_are_checked(email: Option<Seq<char>>, password: Option<Seq<char>>)
    ensures
        password is None && email is None ==> credentials_refused(email, password) is None,
        email is None && password is Some ==> (credentials_refused(email, password) is None
            <==> encode_utf8(password->0).len() >= 6),
        email is Some && credentials_refused(email, password) is None ==> forall|i: int|
            0 <= i < email->0.len() ==> !is_white_spec(#[trigger] email->0[i]),
        email is Some && credentials_refused(email, password) is None
            ==> crate::text::split_spec(email->0, '@').len() == 2,
        email is Some && email->0.len() == 0 ==> credentials_refused(email, password) == Some(
            "INVALID_EMAIL"@,
        ),
{
}

proof fn first_provider(providers: Seq<JsonView>, id: Option<Seq<char>>, i: int)
    requires
        0 <= i <= providers.len(),
    ensures
        match provider_index(providers, id, i) {
            Some(k) => i <= k < providers.len() && provider_id(providers[k]) == id && forall|j: int|
                i <= j < k ==> provider_id(#[trigger] providers[j]) != id,
            None => forall|j: int|
                i <= j < providers.len() ==> provider_id(#[trigger] providers[j]) != id,
        },
    decreases providers.len() - i,
{
    if i < providers.len() && provider_id(providers[i]) != id {
        first_provider(providers, id, i + 1);
    }
}

/// A provider takes the place of the one with its id, or comes last; the others
/// stay where they are.
pub proof fn providers_are_replaced(providers: Seq<JsonView>, new: JsonView)
    ensures
        ({
            let after = upsert_provider_spec(providers, new);
            &&& after.contains(new)
            &&& after.len() == providers.len() || after.len() == providers.len() + 1
            &&& after.len() == providers.len() + 1 <==> forall|j: int|
                0 <= j < providers.len() ==> provider_id(#[trigger] providers[j]) != provider_id(
                    new,
                )
            &&& forall|j: int|
                0 <= j < providers.len() && provider_id(providers[j]) != provider_id(new)
                    ==> #[trigger] after[j] == providers[j]
        }),
{
    first_provider(providers, provider_id(new), 0);
    let after = upsert_provider_spec(providers, new);
    match provider_index(providers, provider_id(new), 0) {
        Some(k) => {
            assert(after[k] == new);
            assert(provider_id(providers[k]) == provider_id(new));
        },
        None => {
            assert(after[providers.len() as int] == new);
        },
    }
}

/// A user with an address and a password has a provider that tells the address.
pub proof fn passwords_are_providers(user: UserView)
    ensures
        user.email is Some && user.password is Some ==> exists|i: int|
            0 <= i < synced(user).provider_user_info.len() && member(
                #[trigger] synced(user).provider_user_info[i],
                "providerId"@,
            ) == Some(JsonView::Text("password"@)) && member(
                synced(user).provider_user_info[i],
                "rawId"@,
            ) == Some(JsonView::Text(user.email->0)) && member(
                synced(user).provider_user_info[i],
                "email"@,
            ) == Some(JsonView::Text(user.email->0)),
        user.email is None || user.password is None ==> synced(user) == user,
        synced(user).local_id == user.local_id,
        synced(user).email == user.email,
        synced(user).password == user.password,
        synced(user).custom_attributes == user.custom_attributes,
        synced(user).disabled == user.disabled,
{
    if user.email is Some && user.password is Some {
        reveal_strlit("providerId");
        reveal_strlit("rawId");
        reveal_strlit("email");
        reveal_strlit("displayName");
        reveal_strlit("photoUrl");
        assert("providerId"@.len() == 10 && "rawId"@.len() == 5 && "email"@.len() == 5);
        assert("displayName"@.len() == 11 && "photoUrl"@.len() == 8);
        assert("rawId"@[0] == 'r' && "email"@[0] == 'e');
        let email = JsonView::Text(user.email->0);
        let v0 = object1("providerId"@, JsonView::Text("password"@));
        began("providerId"@, JsonView::Text("password"@));
        added(v0, "rawId"@, email);
        let v1 = with_member(v0, "rawId"@, email);
        added(v1, "email"@, email);
        let v2 = with_member(v1, "email"@, email);
        let name = crate::accounts::text_or_null(user.display_name);
        added(v2, "displayName"@, name);
        let v3 = with_member(v2, "displayName"@, name);
        let photo = crate::accounts::text_or_null(user.photo_url);
        added(v3, "photoUrl"@, photo);
        let new = crate::accounts::password_provider(user);
        assert(new == with_member(v3, "photoUrl"@, photo));
        providers_are_replaced(user.provider_user_info, new);
        let after = synced(user).provider_user_info;
        let i = choose|i: int| 0 <= i < after.len() && after[i] == new;
        assert(after[i] == new);
    }
}

proof fn kept_ones(providers: Seq<JsonView>, removed: Seq<Seq<char>>, p: JsonView)
    ensures
        kept_providers(providers, removed).contains(p) <==> providers.contains(p) && !(provider_id(
            p,
        ) is Some && removed.contains(provider_id(p)->0)),
    decreases providers.len(),
{
    if providers.len() > 0 {
        let init = providers.drop_last();
        kept_ones(init, removed, p);
        let last = providers.len() - 1;
        let before = kept_providers(init, removed);
        let all = kept_providers(providers, removed);
        if providers.contains(p) {
            let k = choose|k: int| 0 <= k < providers.len() && providers[k] == p;
            if k < last {
                assert(init[k] == p);
            } else if all != before {
                assert(all[before.len() as int] == p);
            }
        }
        if init.contains(p) {
            let k = choose|k: int| 0 <= k < init.len() && init[k] == p;
            assert(providers[k] == p);
        }
        if before.contains(p) {
            let k = choose|k: int| 0 <= k < before.len() && before[k] == p;
            assert(all[k] == p);
        }
        if all.contains(p) {
            let k = choose|k: int| 0 <= k < all.len() && all[k] == p;
            if k < before.len() {
                assert(before[k] == p);
            } else {
                assert(providers[last] == p);
            }
        }
    }
}

proof fn attributes_gone(user: UserView, attributes: Seq<Seq<char>>, n: nat)
    requires
        n <= attributes.len(),
    ensures
        ({
            let after = without_attributes(user, attributes, n);
            let gone = attributes.take(n as int);
            &&& after.email == if gone.contains("EMAIL"@) {
                None
            } else {
                user.email
            }
            &&& after.email_verified == (user.email_verified && !gone.contains("EMAIL"@))
            &&& after.display_name == if gone.contains("DISPLAY_NAME"@) {
                None
            } else {
                user.display_name
            }
            &&& after.photo_url == if gone.contains("PHOTO_URL"@) {
                None
            } else {
                user.photo_url
            }
            &&& after.phone_number == if gone.contains("PHONE_NUMBER"@) {
                None
            } else {
                user.phone_number
            }
            &&& after.custom_attributes == if gone.contains("CUSTOM_ATTRIBUTES"@) {
                None
            } else {
                user.custom_attributes
            }
            &&& after.local_id == user.local_id
            &&& after.password == user.password
            &&& after.disabled == user.disabled
            &&& after.provider_user_info == user.provider_user_info
        }),
    decreases n,
{
    reveal_strlit("EMAIL");
    reveal_strlit("DISPLAY_NAME");
    reveal_strlit("PHOTO_URL");
    reveal_strlit("PHONE_NUMBER");
    reveal_strlit("CUSTOM_ATTRIBUTES");
    assert("EMAIL"@.len() == 5 && "DISPLAY_NAME"@.len() == 12 && "PHOTO_URL"@.len() == 9);
    assert("PHONE_NUMBER"@.len() == 12 && "CUSTOM_ATTRIBUTES"@.len() == 17);
    assert("DISPLAY_NAME"@[0] == 'D' && "PHONE_NUMBER"@[0] == 'P');
    if n > 0 {
        let m = (n - 1) as nat;
        attributes_gone(user, attributes, m);
        let before = attributes.take(m as int);
        let gone = attributes.take(n as int);
        assert(gone =~= before.push(attributes[m as int]));
        assert forall|a: Seq<char>| #[trigger] gone.contains(a) <==> before.contains(a) || a
            == attributes[m as int] by {
            if before.contains(a) {
                let k = choose|k: int| 0 <= k < before.len() && before[k] == a;
                assert(gone[k] == a);
            }
            if a == attributes[m as int] {
                assert(gone[m as int] == a);
            }
        }
    } else {
        assert(attributes.take(0) =~= Seq::empty());
    }
}

/// What is named to be deleted of a user is gone, and everything else stays: an
/// address that goes takes its verification along, and of the providers those
/// go whose ids are named.
pub proof fn deletions_take_what_they_name(
    user: UserView,
    attributes: Seq<Seq<char>>,
    providers: Seq<Seq<char>>,
    p: JsonView,
)
    ensures
        ({
            let after = after_deletions(user, attributes, providers);
            &&& after.email == if attributes.contains("EMAIL"@) {
                None
            } else {
                user.email
            }
            &&& after.email_verified == (user.email_verified && !attributes.contains("EMAIL"@))
            &&& after.display_name == if attributes.contains("DISPLAY_NAME"@) {
                None
            } else {
                user.display_name
            }
            &&& after.photo_url == if attributes.contains("PHOTO_URL"@) {
                None
            } else {
                user.photo_url
            }
            &&& after.phone_number == if attributes.contains("PHONE_NUMBER"@) {
                None
            } else {
                user.phone_number
            }
            &&& after.custom_attributes == if attributes.contains("CUSTOM_ATTRIBUTES"@) {
                None
            } else {
                user.custom_attributes
            }
            &&& after.local_id == user.local_id
            &&& after.password == user.password
            &&& after.disabled == user.disabled
            &&& after.provider_user_info.contains(p) <==> user.provider_user_info.contains(p) && !(
            provider_id(p) is Some && providers.contains(provider_id(p)->0))
        }),
{
    attributes_gone(user, attributes, attributes.len());
    assert(attributes.take(attributes.len() as int) =~= attributes);
    kept_ones(user.provider_user_info, providers, p);
}

/// An address or a phone number that another user has is refused by its own
/// message, and one that nobody else has is not; addresses are the same in
/// whatever case.
pub proof fn contacts_of_others_are_refused(
    users: UsersView,
    email: Option<Seq<char>>,
    phone: Option<Seq<char>>,
    except: Option<Seq<char>>,
    i: int,
)
    requires
        0 <= i <= users.len(),
    ensures
        match taken(users, email, phone, except, i) {
            None => forall|k: int|
                i <= k < users.len() && except != Some((#[trigger] users[k]).1.local_id) ==> !(
                email is Some && users[k].1.email is Some && same_but_case(
                    users[k].1.email->0,
                    email->0,
                )) && !(phone is Some && users[k].1.phone_number == phone),
            Some(message) => exists|k: int|
                i <= k < users.len() && except != Some((#[trigger] users[k]).1.local_id) && ((
                message == "EMAIL_EXISTS"@ && email is Some && users[k].1.email is Some
                    && same_but_case(users[k].1.email->0, email->0)) || (message
                    == "PHONE_NUMBER_EXISTS"@ && phone is Some && users[k].1.phone_number
                    == phone)),
        },
    decreases users.len() - i,
{
    if i < users.len() {
        contacts_of_others_are_refused(users, email, phone, except, i + 1);
        let next = taken(users, email, phone, except, i + 1);
        let found = taken(users, email, phone, except, i);
        if found is Some {
            if except != Some(users[i].1.local_id) && (has_email(users[i].1, email) || has_phone(
                users[i].1,
                phone,
            )) {
                assert(except != Some(users[i].1.local_id));
            } else {
                assert(next == found);
                let k = choose|k: int|
                    i + 1 <= k < users.len() && except != Some((#[trigger] users[k]).1.local_id)
                        && ((found->0 == "EMAIL_EXISTS"@ && email is Some && users[k].1.email
                        is Some && same_but_case(users[k].1.email->0, email->0)) || (found->0
                        == "PHONE_NUMBER_EXISTS"@ && phone is Some && users[k].1.phone_number
                        == phone));
                assert(except != Some(users[k].1.local_id));
            }
        }
    }
}

} // verus!
