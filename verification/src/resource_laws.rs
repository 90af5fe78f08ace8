//! Which names are those of documents, what a transaction allows, and what
//! functions and browsers are given.
use crate::broker::{DeliveriesView, DeliveryView};
use crate::firestore::{commit_spec, validate_names_spec, validate_transaction_spec, StoreView};
use crate::json::{pointer, text_of_json, JsonView};
use crate::leases::{active_ids, pending_spec};
use crate::names::{
    database_document_prefix_spec, database_from_resource_spec, validate_document_name_spec,
};
use crate::ordered::{keys_sorted, lookup, lookup_after_put, put, put_sorted};
use crate::project::{child_environment_spec, endpoint_text_spec, ConfigView};
use crate::settings::{ui_address_spec, EnvironmentView};
use crate::status::StatusView;
use crate::text::{decimal_reads_back, decimal_spec, join_spec, split_of_joined, split_spec};
use crate::topic_laws::is_one_part;
use crate::value::Timestamp;
use crate::web_form::{form_offset, insert_numbered, request_number, requests_spec};
use crate::web_service::response_headers_spec;
use crate::writes::{apply_writes_spec, WriteView};
use vstd::prelude::*;

verus! {

proof fn one_part(s: Seq<char>)
    requires
        is_one_part(s),
    ensures
        split_spec(s, '/') == seq![s],
    decreases s.len(),
{
    if s.len() > 0 {
        assert forall|i: int| 0 <= i < s.drop_last().len() implies #[trigger] s.drop_last()[i]
            != '/' by {
            assert(s[i] != '/');
        }
        one_part(s.drop_last());
        assert(s[s.len() - 1] != '/');
        assert(split_spec(s, '/') =~= seq![s.drop_last().push(s.last())]);
        assert(s.drop_last().push(s.last()) =~= s);
    } else {
        assert(s =~= Seq::empty());
    }
}

/// The name of a database: its project and its id.
pub open spec fn named_database(project: Seq<char>, id: Seq<char>) -> Seq<char> {
    "projects"@ + "/"@ + project + "/"@ + "databases"@ + "/"@ + id
}

proof fn database_parts(project: Seq<char>, id: Seq<char>)
    requires
        is_one_part(project),
        is_one_part(id),
    ensures
        split_spec(named_database(project, id), '/') == seq![
            "projects"@,
            project,
            "databases"@,
            id,
        ],
{
    reveal_strlit("projects");
    reveal_strlit("databases");
    reveal_strlit("/");
    assert(is_one_part("projects"@) && is_one_part("databases"@));
    one_part("projects"@);
    one_part(project);
    one_part("databases"@);
    one_part(id);
    let a = "projects"@ + "/"@ + project;
    assert(a =~= "projects"@.push('/') + project);
    split_of_joined("projects"@, project, '/');
    assert(split_spec(a, '/') =~= seq!["projects"@, project]);
    let b = a + "/"@ + "databases"@;
    assert(b =~= a.push('/') + "databases"@);
    split_of_joined(a, "databases"@, '/');
    assert(split_spec(b, '/') =~= seq!["projects"@, project, "databases"@]);
    let c = b + "/"@ + id;
    assert(c =~= b.push('/') + id);
    split_of_joined(b, id, '/');
    assert(split_spec(c, '/') =~= seq!["projects"@, project, "databases"@, id]);
}

/// A name below a database is that of a document where its path has an even
/// number of parts, so that collections and documents alternate; and the
/// database is found in it.
pub proof fn document_names_alternate(project: Seq<char>, id: Seq<char>, path: Seq<char>)
    requires
        is_one_part(project) && project.len() > 0,
        is_one_part(id) && id.len() > 0,
    ensures
        ({
            let database = named_database(project, id);
            let name = database + "/documents/"@ + path;
            &&& validate_document_name_spec(name) is Ok <==> split_spec(path, '/').len() % 2 == 0
            &&& database_document_prefix_spec(database) == Ok::<Seq<char>, StatusView>(
                database + "/documents/"@,
            )
            &&& database_from_resource_spec(name) == Ok::<Seq<char>, StatusView>(database)
        }),
{
    let database = named_database(project, id);
    let name = database + "/documents/"@ + path;
    database_parts(project, id);
    reveal_strlit("/documents/");
    reveal_strlit("documents");
    reveal_strlit("/");
    assert(is_one_part("documents"@));
    one_part("documents"@);
    let front = database.push('/') + "documents"@;
    split_of_joined(database, "documents"@, '/');
    assert(name =~= front.push('/') + path);
    split_of_joined(front, path, '/');
    let parts = split_spec(name, '/');
    let first = split_spec(database, '/');
    assert(parts =~= first + seq!["documents"@] + split_spec(path, '/'));
    crate::text::split_is_never_empty(path, '/');
    assert(parts.take(4) =~= first);
    crate::text::join_undoes_split(database, '/');
    assert(seq!['/'] =~= "/"@);
    assert(join_spec(parts.take(4), "/"@) == database);
}

/// Names are accepted together where each of them is.
pub proof fn names_are_checked_one_by_one(names: Seq<Seq<char>>)
    ensures
        validate_names_spec(names) is Ok <==> forall|i: int|
            0 <= i < names.len() ==> validate_document_name_spec(#[trigger] names[i]) is Ok,
    decreases names.len(),
{
    if names.len() > 0 {
        let init = names.drop_last();
        names_are_checked_one_by_one(init);
        if validate_names_spec(names) is Ok {
            assert forall|i: int| 0 <= i < names.len() implies validate_document_name_spec(
                #[trigger] names[i],
            ) is Ok by {
                if i < init.len() {
                    assert(init[i] == names[i]);
                }
            }
        } else if forall|i: int|
            0 <= i < names.len() ==> validate_document_name_spec(#[trigger] names[i]) is Ok {
            assert forall|i: int| 0 <= i < init.len() implies validate_document_name_spec(
                #[trigger] init[i],
            ) is Ok by {
                assert(names[i] == init[i]);
            }
            assert(validate_document_name_spec(names[names.len() - 1]) is Ok);
        }
    }
}

/// A commit in a transaction is accepted only while the transaction is active
/// and of the same database, and it ends the transaction. One outside any
/// transaction leaves them all.
pub proof fn commits_end_their_transaction(
    store: StoreView,
    database: Seq<char>,
    writes: Seq<WriteView>,
    token: Seq<u8>,
    other: Seq<u8>,
    now: Timestamp,
)
    requires
        token.len() > 0,
        other != token,
    ensures
        !store.transactions.dom().contains(token) || store.transactions[token] != database
            ==> commit_spec(store, database, writes, token, now) is Err,
        store.transactions.dom().contains(token) && store.transactions[token] == database
            && apply_writes_spec(store.documents, writes, now) is Ok ==> commit_spec(
            store,
            database,
            writes,
            token,
            now,
        ) is Ok,
        commit_spec(store, database, writes, token, now) matches Ok(done) ==> {
            &&& !done.0.transactions.dom().contains(token)
            &&& done.0.transactions.dom().contains(other) <==> store.transactions.dom().contains(
                other,
            )
            &&& store.transactions.dom().contains(other) ==> done.0.transactions[other]
                == store.transactions[other]
        },
        commit_spec(store, database, writes, Seq::empty(), now) matches Ok(done)
            ==> done.0.transactions == store.transactions,
        validate_transaction_spec(store.transactions, database, token) is Ok
            <==> store.transactions.dom().contains(token) && store.transactions[token] == database,
{
}

proof fn environment_keys_differ()
    ensures
        "GCLOUD_PROJECT"@.len() == 14,
        "GOOGLE_CLOUD_PROJECT"@.len() == 20 && "GOOGLE_CLOUD_PROJECT"@[0] == 'G',
        "FIREBASE_CONFIG"@.len() == 15,
        "CLOUD_RUNTIME_CONFIG"@.len() == 20 && "CLOUD_RUNTIME_CONFIG"@[0] == 'C',
        "FIRESTORE_EMULATOR_HOST"@.len() == 23,
        "FIREBASE_AUTH_EMULATOR_HOST"@.len() == 27,
        "FIREBASE_STORAGE_EMULATOR_HOST"@.len() == 30,
        "FIREBASE_DATABASE_EMULATOR_HOST"@.len() == 31,
        "PUBSUB_EMULATOR_HOST"@.len() == 20 && "PUBSUB_EMULATOR_HOST"@[0] == 'P',
        "FUNCTIONS_EMULATOR"@.len() == 18,
        "NODE_ENV"@.len() == 8,
{
    reveal_strlit("GCLOUD_PROJECT");
    reveal_strlit("GOOGLE_CLOUD_PROJECT");
    reveal_strlit("FIREBASE_CONFIG");
    reveal_strlit("CLOUD_RUNTIME_CONFIG");
    reveal_strlit("FIRESTORE_EMULATOR_HOST");
    reveal_strlit("FIREBASE_AUTH_EMULATOR_HOST");
    reveal_strlit("FIREBASE_STORAGE_EMULATOR_HOST");
    reveal_strlit("FIREBASE_DATABASE_EMULATOR_HOST");
    reveal_strlit("PUBSUB_EMULATOR_HOST");
    reveal_strlit("FUNCTIONS_EMULATOR");
    reveal_strlit("NODE_ENV");
}

/// What functions find under a name.
spec fn variable(c: ConfigView, key: Seq<char>) -> Option<Seq<char>> {
    if key == "NODE_ENV"@ {
        Some("development"@)
    } else if key == "FUNCTIONS_EMULATOR"@ {
        Some("true"@)
    } else if key == "PUBSUB_EMULATOR_HOST"@ {
        Some(endpoint_text_spec(c.addresses.pubsub))
    } else if key == "FIREBASE_DATABASE_EMULATOR_HOST"@ {
        Some(endpoint_text_spec(c.addresses.database))
    } else if key == "FIREBASE_STORAGE_EMULATOR_HOST"@ {
        Some(endpoint_text_spec(c.addresses.storage))
    } else if key == "FIREBASE_AUTH_EMULATOR_HOST"@ {
        Some(endpoint_text_spec(c.addresses.auth))
    } else if key == "FIRESTORE_EMULATOR_HOST"@ {
        Some(endpoint_text_spec(c.addresses.firestore))
    } else if key == "CLOUD_RUNTIME_CONFIG"@ {
        Some(text_of_json(c.runtime_config))
    } else if key == "FIREBASE_CONFIG"@ {
        Some(text_of_json(c.firebase_config))
    } else if key == "GOOGLE_CLOUD_PROJECT"@ {
        Some(c.project_id)
    } else if key == "GCLOUD_PROJECT"@ {
        Some(c.project_id)
    } else {
        lookup(c.local_environment, key)
    }
}

proof fn set_in(
    v: Seq<(Seq<char>, Seq<char>)>,
    key: Seq<char>,
    value: Seq<char>,
    other: Seq<char>,
)
    requires
        keys_sorted(v),
    ensures
        keys_sorted(put(v, key, value)),
        lookup(put(v, key, value), other) == if other == key {
            Some(value)
        } else {
            lookup(v, other)
        },
{
    put_sorted(v, key, value);
    lookup_after_put(v, key, value, other);
}

#[verifier::rlimit(40)]
proof fn variable_is_set(c: ConfigView, key: Seq<char>)
    requires
        keys_sorted(c.local_environment),
    ensures
        lookup(child_environment_spec(c), key) == variable(c, key),
{
    let v0 = c.local_environment;
    set_in(v0, "GCLOUD_PROJECT"@, c.project_id, key);
    let v1 = put(v0, "GCLOUD_PROJECT"@, c.project_id);
    set_in(v1, "GOOGLE_CLOUD_PROJECT"@, c.project_id, key);
    let v2 = put(v1, "GOOGLE_CLOUD_PROJECT"@, c.project_id);
    set_in(v2, "FIREBASE_CONFIG"@, text_of_json(c.firebase_config), key);
    let v3 = put(v2, "FIREBASE_CONFIG"@, text_of_json(c.firebase_config));
    set_in(v3, "CLOUD_RUNTIME_CONFIG"@, text_of_json(c.runtime_config), key);
    let v4 = put(v3, "CLOUD_RUNTIME_CONFIG"@, text_of_json(c.runtime_config));
    set_in(v4, "FIRESTORE_EMULATOR_HOST"@, endpoint_text_spec(c.addresses.firestore), key);
    let v5 = put(v4, "FIRESTORE_EMULATOR_HOST"@, endpoint_text_spec(c.addresses.firestore));
    set_in(v5, "FIREBASE_AUTH_EMULATOR_HOST"@, endpoint_text_spec(c.addresses.auth), key);
    let v6 = put(v5, "FIREBASE_AUTH_EMULATOR_HOST"@, endpoint_text_spec(c.addresses.auth));
    set_in(v6, "FIREBASE_STORAGE_EMULATOR_HOST"@, endpoint_text_spec(c.addresses.storage), key);
    let v7 = put(v6, "FIREBASE_STORAGE_EMULATOR_HOST"@, endpoint_text_spec(c.addresses.storage));
    set_in(v7, "FIREBASE_DATABASE_EMULATOR_HOST"@, endpoint_text_spec(c.addresses.database), key);
    let v8 = put(v7, "FIREBASE_DATABASE_EMULATOR_HOST"@, endpoint_text_spec(c.addresses.database));
    set_in(v8, "PUBSUB_EMULATOR_HOST"@, endpoint_text_spec(c.addresses.pubsub), key);
    let v9 = put(v8, "PUBSUB_EMULATOR_HOST"@, endpoint_text_spec(c.addresses.pubsub));
    set_in(v9, "FUNCTIONS_EMULATOR"@, "true"@, key);
    let v10 = put(v9, "FUNCTIONS_EMULATOR"@, "true"@);
    set_in(v10, "NODE_ENV"@, "development"@, key);
    let v11 = put(v10, "NODE_ENV"@, "development"@);
    assert(child_environment_spec(c) == v11);
}

/// Functions find the project, the configuration and the address of every
/// emulator in their environment, whatever their own files say; every other
/// variable is the one of their files.
pub proof fn functions_find_the_emulators(c: ConfigView, other: Seq<char>)
    requires
        keys_sorted(c.local_environment),
    ensures
        ({
            let v = child_environment_spec(c);
            &&& lookup(v, "GCLOUD_PROJECT"@) == Some(c.project_id)
            &&& lookup(v, "GOOGLE_CLOUD_PROJECT"@) == Some(c.project_id)
            &&& lookup(v, "FIREBASE_CONFIG"@) == Some(text_of_json(c.firebase_config))
            &&& lookup(v, "CLOUD_RUNTIME_CONFIG"@) == Some(text_of_json(c.runtime_config))
            &&& lookup(v, "FIRESTORE_EMULATOR_HOST"@) == Some(
                endpoint_text_spec(c.addresses.firestore),
            )
            &&& lookup(v, "FIREBASE_AUTH_EMULATOR_HOST"@) == Some(
                endpoint_text_spec(c.addresses.auth),
            )
            &&& lookup(v, "FIREBASE_STORAGE_EMULATOR_HOST"@) == Some(
                endpoint_text_spec(c.addresses.storage),
            )
            &&& lookup(v, "FIREBASE_DATABASE_EMULATOR_HOST"@) == Some(
                endpoint_text_spec(c.addresses.database),
            )
            &&& lookup(v, "PUBSUB_EMULATOR_HOST"@) == Some(endpoint_text_spec(c.addresses.pubsub))
            &&& lookup(v, "FUNCTIONS_EMULATOR"@) == Some("true"@)
            &&& lookup(v, "NODE_ENV"@) == Some("development"@)
            &&& other.len() < 8 ==> lookup(v, other) == lookup(c.local_environment, other)
        }),
{
    environment_keys_differ();
    variable_is_set(c, "GCLOUD_PROJECT"@);
    variable_is_set(c, "GOOGLE_CLOUD_PROJECT"@);
    variable_is_set(c, "FIREBASE_CONFIG"@);
    variable_is_set(c, "CLOUD_RUNTIME_CONFIG"@);
    variable_is_set(c, "FIRESTORE_EMULATOR_HOST"@);
    variable_is_set(c, "FIREBASE_AUTH_EMULATOR_HOST"@);
    variable_is_set(c, "FIREBASE_STORAGE_EMULATOR_HOST"@);
    variable_is_set(c, "FIREBASE_DATABASE_EMULATOR_HOST"@);
    variable_is_set(c, "PUBSUB_EMULATOR_HOST"@);
    variable_is_set(c, "FUNCTIONS_EMULATOR"@);
    variable_is_set(c, "NODE_ENV"@);
    variable_is_set(c, other);
}

/// What waits for some subscriptions is counted one by one: a delivery more
/// counts where it is for one of them, and not where it is for another.
pub proof fn waiting_deliveries_are_counted(
    deliveries: DeliveriesView,
    subscriptions: Seq<Seq<char>>,
    entry: (Seq<char>, DeliveryView),
)
    ensures
        pending_spec(Seq::empty(), subscriptions, 0) == 0,
        pending_spec(deliveries.push(entry), subscriptions, deliveries.len() + 1) == pending_spec(
            deliveries,
            subscriptions,
            deliveries.len(),
        ) + if subscriptions.contains(entry.1.subscription) {
            1nat
        } else {
            0nat
        },
{
    pending_prefix(deliveries, entry, subscriptions, deliveries.len());
}

proof fn pending_prefix(
    deliveries: DeliveriesView,
    entry: (Seq<char>, DeliveryView),
    subscriptions: Seq<Seq<char>>,
    n: nat,
)
    requires
        n <= deliveries.len(),
    ensures
        pending_spec(deliveries.push(entry), subscriptions, n) == pending_spec(
            deliveries,
            subscriptions,
            n,
        ),
    decreases n,
{
    if n > 0 {
        pending_prefix(deliveries, entry, subscriptions, (n - 1) as nat);
        assert(deliveries.push(entry)[n - 1] == deliveries[n - 1]);
    }
}

/// A lease is active where a delivery of the subscription is in flight under
/// its id and its deadline has not passed.
pub proof fn active_leases_are_found(
    deliveries: DeliveriesView,
    subscription: Seq<char>,
    ids: Seq<Seq<char>>,
    now: i64,
    n: nat,
    id: Seq<char>,
)
    requires
        n <= deliveries.len(),
    ensures
        active_ids(deliveries, subscription, ids, now, n).contains(id) <==> ids.contains(id)
            && exists|k: int|
            0 <= k < n && (#[trigger] deliveries[k]).1.subscription == subscription
                && deliveries[k].1.in_flight && deliveries[k].1.ack_id == Some(id)
                && deliveries[k].1.deadline_ms is Some && deliveries[k].1.deadline_ms->0 > now,
    decreases n,
{
    if n > 0 {
        let m = (n - 1) as nat;
        active_leases_are_found(deliveries, subscription, ids, now, m, id);
        let before = active_ids(deliveries, subscription, ids, now, m);
        let all = active_ids(deliveries, subscription, ids, now, n);
        let last = deliveries[m as int].1;
        if before.contains(id) {
            let k = choose|k: int| 0 <= k < before.len() && before[k] == id;
            assert(all[k] == id);
        }
        if all.len() > before.len() {
            assert(all[before.len() as int] == last.ack_id->0);
        }
        if all.contains(id) {
            let k = choose|k: int| 0 <= k < all.len() && all[k] == id;
            if k < before.len() {
                assert(before[k] == id);
            } else {
                assert(deliveries[m as int].1.subscription == subscription);
            }
        }
    }
}

/// The console listens on the port of the command line, else on the one of the
/// environment, else on the one of the configuration, else on port 4000.
pub proof fn consoles_listen_where_told(
    port: u16,
    environment: EnvironmentView,
    firebase: JsonView,
    n: nat,
    m: u64,
)
    requires
        n <= 65535,
        m <= 65535,
        lookup(environment, "FIREBASE_EMU_HOST"@) is None,
        pointer(firebase, seq!["emulators"@, "ui"@, "host"@]) is None,
    ensures
        ({
            let address = |cli: Option<u16>|
                ui_address_spec(cli, None, environment, firebase, None);
            let set = lookup(environment, "FIREBASE_UI_EMU_PORT"@);
            let configured = pointer(firebase, seq!["emulators"@, "ui"@, "port"@]);
            &&& set is None && configured is None ==> (address(None) matches Ok(e) && e.port
                == 4000)
            &&& set is None && configured is None ==> (address(Some(port)) matches Ok(e) && e.port
                == port)
            &&& set == Some(decimal_spec(n)) && configured is None ==> (address(None) matches Ok(e)
                && e.port == n)
            &&& set == Some(decimal_spec(n)) && configured == Some(JsonView::Unsigned(m)) ==> (
            address(None) matches Ok(e) && e.port == n)
            &&& set is None && configured == Some(JsonView::Unsigned(m)) ==> (address(
                None,
            ) matches Ok(e) && e.port == m)
        }),
{
    crate::answer_laws::ports_are_read(n);
}

proof fn inserted(list: Seq<(u128, JsonView)>, item: (u128, JsonView), other: (u128, JsonView))
    ensures
        insert_numbered(list, item).contains(other) <==> list.contains(other) || other == item,
    decreases list.len(),
{
    if list.len() == 0 || list.last().0 <= item.0 {
        pushed(list, item, other);
    } else {
        let init = list.drop_last();
        inserted(init, item, other);
        pushed(insert_numbered(init, item), list.last(), other);
        pushed(init, list.last(), other);
        assert(list =~= init.push(list.last()));
    }
}

proof fn pushed(s: Seq<(u128, JsonView)>, x: (u128, JsonView), y: (u128, JsonView))
    ensures
        s.push(x).contains(y) <==> s.contains(y) || x == y,
{
    if s.contains(y) {
        let k = choose|k: int| 0 <= k < s.len() && s[k] == y;
        assert(s.push(x)[k] == y);
    }
    assert(s.push(x)[s.len() as int] == x);
    if s.push(x).contains(y) {
        let k = choose|k: int| 0 <= k < s.push(x).len() && s.push(x)[k] == y;
        if k < s.len() {
            assert(s[k] == y);
        }
    }
}

/// Every message of a form is taken, under its own number and the offset of the
/// form together.
pub proof fn messages_of_forms_are_taken(
    fields: Seq<(Seq<char>, Seq<char>)>,
    parsed: Seq<Option<JsonView>>,
    n: nat,
    i: int,
    number: nat,
    message: JsonView,
)
    requires
        n <= fields.len(),
        n <= parsed.len(),
        0 <= i < n,
        number <= u64::MAX,
        request_number(fields[i].0) == Some(decimal_spec(number)),
        parsed[i] == Some(message),
        requests_spec(fields, parsed, n) is Ok,
    ensures
        requests_spec(fields, parsed, n)->Ok_0.contains(
            ((form_offset(fields) + number) as u128, message),
        ),
    decreases n,
{
    let m = (n - 1) as nat;
    let item = ((form_offset(fields) + number) as u128, message);
    let before = requests_spec(fields, parsed, m)->Ok_0;
    decimal_reads_back(number);
    let text = decimal_spec(number);
    if text.len() > 0 && text[0] == '+' {
        assert(false);
    }
    if i < m {
        messages_of_forms_are_taken(fields, parsed, m, i, number, message);
        if let Some(t) = request_number(fields[m as int].0) {
            let index = crate::text::parse_unsigned_spec(t, u64::MAX as nat)->0;
            inserted(
                before,
                ((form_offset(fields) + index) as u128, parsed[m as int]->0),
                item,
            );
        }
    } else {
        inserted(before, item, item);
    }
}

/// An answer lets the origin read it that asked, and carries its type.
pub proof fn answers_are_for_the_origin(
    content_type: Seq<char>,
    origin: Seq<char>,
    requested: Option<Seq<char>>,
)
    ensures
        response_headers_spec(content_type, Some(origin), requested).contains(
            ("content-type"@, content_type),
        ),
        response_headers_spec(content_type, Some(origin), requested).contains(
            ("access-control-allow-origin"@, origin),
        ),
        response_headers_spec(content_type, None, requested).contains(
            ("access-control-allow-origin"@, "*"@),
        ),
        requested is Some ==> response_headers_spec(content_type, None, requested).contains(
            ("access-control-allow-headers"@, requested->0),
        ),
{
    let a = response_headers_spec(content_type, Some(origin), requested);
    assert(a[0] == ("content-type"@, content_type));
    assert(a[2] == ("access-control-allow-origin"@, origin));
    let b = response_headers_spec(content_type, None, requested);
    assert(b[2] == ("access-control-allow-origin"@, "*"@));
    assert(requested is Some ==> b[5] == ("access-control-allow-headers"@, requested->0));
}

} // verus!
