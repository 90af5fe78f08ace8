//! What the command line, the environment and the files of a project come to,
//! and what the pages of a listing show.
use crate::account_laws::{added, began};
use crate::codebases::{
    codebases_spec, entries_spec, entry_source_spec, source_at, sources_stay_inside,
    CodebaseView, FilesView,
};
use crate::json::{json_of_text, member, object1, pointer, with_member, JsonView};
use crate::listing::{limit_spec, line_fronts, line_items, page_lines, shared_front};
use crate::multipart::{found_is_first, stands_at};
use crate::ordered::lookup;
use crate::project::{
    arguments_spec, endpoint_text_spec, load_spec, with_value, CommandView, InvocationView,
    ProjectView,
};
use crate::settings::{
    addresses_spec, host_text_spec, port_of_text, project_spec, EnvironmentView, OverridesView,
};
use vstd::prelude::*;

verus! {

proof fn options_differ()
    ensures
        "--config"@.len() == 8,
        "--data-dir"@.len() == 10,
        "--project"@.len() == 9 && "--project"@[2] == 'p',
        "--host"@.len() == 6,
        "--functions-port"@.len() == 16,
        "--pubsub-port"@.len() == 13,
        "--ui-port"@.len() == 9 && "--ui-port"@[2] == 'u',
        "--functions-source"@.len() == 18,
        "--functions-codebase"@.len() == 20,
        "--functions-runtime"@.len() == 19,
        "--runtime-config"@.len() == 16 && "--runtime-config"@[2] == 'r',
        "--functions-port"@[2] == 'f',
        "--in-memory"@.len() == 11,
        "--no-functions"@.len() == 14,
        "--no-ui"@.len() == 7,
{
    reveal_strlit("--config");
    reveal_strlit("--data-dir");
    reveal_strlit("--project");
    reveal_strlit("--host");
    reveal_strlit("--functions-port");
    reveal_strlit("--pubsub-port");
    reveal_strlit("--ui-port");
    reveal_strlit("--functions-source");
    reveal_strlit("--functions-codebase");
    reveal_strlit("--functions-runtime");
    reveal_strlit("--runtime-config");
    reveal_strlit("--in-memory");
    reveal_strlit("--no-functions");
    reveal_strlit("--no-ui");
}

/// Every option sets what it is named after and leaves the rest of the command
/// line as it was.
pub proof fn options_set_what_they_name(c: CommandView, value: Seq<char>)
    ensures
        with_value(c, "--config"@, value) == Ok::<CommandView, Seq<char>>(
            CommandView { config_root: Some(value), ..c },
        ),
        with_value(c, "--data-dir"@, value) == Ok::<CommandView, Seq<char>>(
            CommandView { data_dir: Some(value), ..c },
        ),
        with_value(c, "--project"@, value) matches Ok(d) && d.functions.project == Some(value)
            && d.functions.host == c.functions.host && d.data_dir == c.data_dir,
        with_value(c, "--host"@, value) matches Ok(d) && d.functions.host == Some(value)
            && d.functions.project == c.functions.project,
        with_value(c, "--functions-source"@, value) matches Ok(d) && d.functions.functions_source
            == Some(value) && d.functions.functions_codebase == c.functions.functions_codebase,
        with_value(c, "--functions-codebase"@, value) matches Ok(d)
            && d.functions.functions_codebase == Some(value) && d.functions.functions_source
            == c.functions.functions_source,
        with_value(c, "--functions-runtime"@, value) matches Ok(d) && d.functions.functions_runtime
            == Some(value) && d.functions.functions_source == c.functions.functions_source,
        match port_of_text(value) {
            Ok(port) => {
                &&& with_value(c, "--functions-port"@, value) matches Ok(d)
                    && d.functions.functions_port == Some(port) && d.functions.pubsub_port
                    == c.functions.pubsub_port && d.ui_port == c.ui_port
                &&& with_value(c, "--pubsub-port"@, value) matches Ok(d) && d.functions.pubsub_port
                    == Some(port) && d.functions.functions_port == c.functions.functions_port
                    && d.ui_port == c.ui_port
                &&& with_value(c, "--ui-port"@, value) matches Ok(d) && d.ui_port == Some(port)
                    && d.functions == c.functions
            },
            Err(_) => {
                &&& with_value(c, "--functions-port"@, value) is Err
                &&& with_value(c, "--pubsub-port"@, value) is Err
                &&& with_value(c, "--ui-port"@, value) is Err
            },
        },
        match json_of_text(value) {
            Some(v) => with_value(c, "--runtime-config"@, value) matches Ok(d)
                && d.functions.runtime_config == Some(v),
            None => with_value(c, "--runtime-config"@, value) is Err,
        },
{
    options_differ();
}

/// An option with its value, and a switch, count before the arguments behind
/// them are read. An option without its value is refused.
pub proof fn arguments_are_read_in_turn(
    args: Seq<Option<Seq<char>>>,
    i: int,
    c: CommandView,
    value: Seq<char>,
)
    requires
        0 <= i < args.len(),
    ensures
        args[i] == Some("--data-dir"@) && i + 1 < args.len() && args[i + 1] == Some(value)
            ==> arguments_spec(args, i, c) == arguments_spec(
            args,
            i + 2,
            CommandView { data_dir: Some(value), ..c },
        ),
        args[i] == Some("--config"@) && i + 1 < args.len() && args[i + 1] == Some(value)
            ==> arguments_spec(args, i, c) == arguments_spec(
            args,
            i + 2,
            CommandView { config_root: Some(value), ..c },
        ),
        args[i] == Some("--project"@) && i + 1 == args.len() ==> arguments_spec(args, i, c) is Err,
        args[i] == Some("--in-memory"@) ==> arguments_spec(args, i, c) == arguments_spec(
            args,
            i + 1,
            CommandView { in_memory: true, ..c },
        ),
        args[i] == Some("--no-functions"@) ==> arguments_spec(args, i, c) == arguments_spec(
            args,
            i + 1,
            CommandView { no_functions: true, ..c },
        ),
        args[i] == Some("--no-ui"@) ==> arguments_spec(args, i, c) == arguments_spec(
            args,
            i + 1,
            CommandView { no_ui: true, ..c },
        ),
        args[i] is None ==> arguments_spec(args, i, c) is Err,
        !(c.data_dir is Some && c.in_memory) ==> (arguments_spec(
            args,
            args.len() as int,
            c,
        ) matches Ok(InvocationView::Run(run)) && run == c),
{
    options_differ();
}

/// The host is the one of the command line, else the one of the environment,
/// else the one of the configuration.
pub proof fn hosts_are_chosen(
    host: Seq<char>,
    environment: EnvironmentView,
    firebase: JsonView,
    service: Seq<char>,
)
    ensures
        host_text_spec(Some(host), environment, firebase, service) matches Some(chosen) && chosen.0
            == host && !chosen.1,
        lookup(environment, "FIREBASE_EMU_HOST"@) == Some(host) ==> (host_text_spec(
            None,
            environment,
            firebase,
            service,
        ) matches Some(chosen) && chosen.0 == host && !chosen.1),
        lookup(environment, "FIREBASE_EMU_HOST"@) is None && pointer(
            firebase,
            seq!["emulators"@, service, "host"@],
        ) == Some(JsonView::Text(host)) ==> (host_text_spec(
            None,
            environment,
            firebase,
            service,
        ) matches Some(chosen) && chosen.0 == host && chosen.1),
{
}

/// A configuration that loads holds what its parts come to: the project that
/// was chosen, the addresses, a codebase for each entry, and what functions are
/// told of the project and of their settings.
pub proof fn configurations_hold_their_parts(
    cli: OverridesView,
    environment: EnvironmentView,
    files: ProjectView,
    parsed: Option<Result<JsonView, Seq<char>>>,
)
    ensures
        load_spec(cli, environment, files, parsed) matches Ok(config) ==> {
            &&& project_spec(cli.project, environment, files.firebaserc) == Ok::<
                Seq<char>,
                Seq<char>,
            >(config.project_id)
            &&& addresses_spec(
                cli,
                environment,
                files.firebase,
                files.host_ip,
                files.pubsub_ip,
            ) matches Ok(addresses)
            &&& addresses == config.addresses
            &&& member(config.firebase_config, "projectId"@) == Some(
                JsonView::Text(config.project_id),
            )
            &&& member(config.firebase_config, "storageBucket"@) == Some(
                JsonView::Text(config.project_id + ".appspot.com"@),
            )
            &&& member(config.firebase_config, "databaseURL"@) == Some(
                JsonView::Text(
                    "http://"@ + endpoint_text_spec(config.addresses.database) + "?ns="@
                        + config.project_id,
                ),
            )
            &&& cli.runtime_config matches Some(v) ==> config.runtime_config == v
            &&& cli.runtime_config is None && parsed is Some ==> parsed->0 == Ok::<
                JsonView,
                Seq<char>,
            >(config.runtime_config)
            &&& entries_spec(cli, environment, files.firebase) is Ok
            &&& config.codebases.len() == entries_spec(
                cli,
                environment,
                files.firebase,
            )->Ok_0.len()
        },
{
    if let Ok(config) = load_spec(cli, environment, files, parsed) {
        reveal_strlit("projectId");
        reveal_strlit("storageBucket");
        reveal_strlit("databaseURL");
        assert("projectId"@.len() == 9);
        assert("storageBucket"@.len() == 13 && "databaseURL"@.len() == 11);
        let id = JsonView::Text(config.project_id);
        let bucket = JsonView::Text(config.project_id + ".appspot.com"@);
        let url = JsonView::Text(
            "http://"@ + endpoint_text_spec(config.addresses.database) + "?ns="@
                + config.project_id,
        );
        let v0 = object1("projectId"@, id);
        began("projectId"@, id);
        added(v0, "storageBucket"@, bucket);
        added(with_member(v0, "storageBucket"@, bucket), "databaseURL"@, url);
        let entries = entries_spec(cli, environment, files.firebase)->Ok_0;
        every_entry_is_read(
            files.root,
            entries,
            files.sources,
            entries.len(),
            crate::codebases::override_of(
                cli.functions_codebase,
                environment,
                "FIREBASE_FUNCTIONS_CODEBASE"@,
            ),
            crate::codebases::override_of(
                cli.functions_runtime,
                environment,
                "FIREBASE_FUNCTIONS_RUNTIME"@,
            ),
        );
    }
}

/// Whether a codebase lies in the directory that was found for it, and runs on
/// a supported version.
pub open spec fn is_read(codebase: CodebaseView, found: FilesView) -> bool {
    &&& found.resolved is Ok
    &&& codebase.source == found.resolved->Ok_0.display
    &&& codebase.runtime == "nodejs18"@ || codebase.runtime == "nodejs20"@ || codebase.runtime
        == "nodejs22"@
}

/// Whether codebases are those of the first `n` directories.
pub open spec fn are_read(codebases: Seq<CodebaseView>, files: Seq<FilesView>, n: nat) -> bool {
    &&& codebases.len() == n
    &&& forall|i: int| 0 <= i < n ==> is_read(#[trigger] codebases[i], source_at(files, i))
}

/// Each entry makes one codebase, in turn, from the directory that was found
/// for it.
pub proof fn every_entry_is_read(
    root: Seq<Seq<char>>,
    entries: Seq<JsonView>,
    files: Seq<FilesView>,
    n: nat,
    set_name: Option<Seq<char>>,
    set_runtime: Option<Seq<char>>,
)
    requires
        n <= entries.len(),
    ensures
        codebases_spec(root, entries, files, n, set_name, set_runtime) is Ok ==> are_read(
            codebases_spec(root, entries, files, n, set_name, set_runtime)->Ok_0,
            files,
            n,
        ),
    decreases n,
{
    if n == 0 {
        assert(codebases_spec(root, entries, files, n, set_name, set_runtime)->Ok_0.len() == 0);
    } else {
        let m = (n - 1) as nat;
        every_entry_is_read(root, entries, files, m, set_name, set_runtime);
        if codebases_spec(root, entries, files, n, set_name, set_runtime) is Ok {
            let codebases = codebases_spec(root, entries, files, n, set_name, set_runtime)->Ok_0;
            let before = codebases_spec(root, entries, files, m, set_name, set_runtime)->Ok_0;
            let source = entry_source_spec(entries[m as int])->Ok_0;
            let found = source_at(files, m as int);
            sources_stay_inside(root, source, found.is_absolute, found.resolved);
            assert(codebases =~= before.push(codebases[m as int]));
            assert forall|i: int| 0 <= i < n implies is_read(
                #[trigger] codebases[i],
                source_at(files, i),
            ) by {
                if i < m {
                    assert(codebases[i] == before[i]);
                }
            }
        }
    }
}

/// Where nothing else is said, the emulators listen on the machine's own
/// address, each on its usual port.
pub proof fn emulators_have_usual_ports(
    cli: OverridesView,
    environment: EnvironmentView,
    firebase: JsonView,
)
    requires
        environment.len() == 0,
        firebase is Null,
        cli.host is None,
    ensures
        cli.functions_port is None && cli.pubsub_port is None ==> {
            &&& addresses_spec(cli, environment, firebase, None, None) matches Ok(a)
            &&& a.functions.port == 5001
            &&& a.firestore.port == 8080
            &&& a.auth.port == 9099
            &&& a.storage.port == 9199
            &&& a.database.port == 9000
            &&& a.pubsub.port == 8085
        },
        cli.functions_port matches Some(p) ==> (p > 0 ==> (addresses_spec(
            cli,
            environment,
            firebase,
            None,
            None,
        ) matches Ok(a) && a.functions.port == p && a.firestore.port == 8080)),
        cli.functions_port is None && cli.pubsub_port is Some ==> (addresses_spec(
            cli,
            environment,
            firebase,
            None,
            None,
        ) matches Ok(a) && a.pubsub.port == cli.pubsub_port->0 && a.functions.port == 5001),
{
    assert(environment =~= Seq::empty());
    nothing_is_configured(firebase, "functions"@, "host"@);
    nothing_is_configured(firebase, "pubsub"@, "host"@);
    nothing_is_configured(firebase, "functions"@, "port"@);
    nothing_is_configured(firebase, "firestore"@, "port"@);
    nothing_is_configured(firebase, "auth"@, "port"@);
    nothing_is_configured(firebase, "storage"@, "port"@);
    nothing_is_configured(firebase, "database"@, "port"@);
    nothing_is_configured(firebase, "pubsub"@, "port"@);
}

proof fn nothing_is_configured(firebase: JsonView, service: Seq<char>, key: Seq<char>)
    requires
        firebase is Null,
    ensures
        pointer(firebase, seq!["emulators"@, service, key]) is None,
{
    let keys = seq!["emulators"@, service, key];
    assert(keys.drop_last().drop_last() =~= seq!["emulators"@]);
    assert(keys.drop_last().drop_last().drop_last() =~= Seq::empty());
    assert(pointer(firebase, Seq::empty()) == Some(firebase));
    assert(pointer(firebase, keys.drop_last().drop_last()) is None);
    assert(pointer(firebase, keys.drop_last()) is None);
}

/// A page shows the lines from its offset on, as many as were asked for, but
/// at least one and at most a thousand.
pub proof fn pages_show_their_lines(
    entries: Seq<(Seq<char>, Option<JsonView>)>,
    offset: nat,
    asked: usize,
    i: int,
)
    requires
        offset < entries.len(),
        0 <= i < page_lines(entries, offset, limit_spec(Some(asked))).len(),
    ensures
        page_lines(entries, offset, limit_spec(Some(asked)))[i] == entries[offset + i],
        1 <= asked <= 1000 && offset + asked <= entries.len() ==> page_lines(
            entries,
            offset,
            limit_spec(Some(asked)),
        ).len() == asked,
        limit_spec(None) == 1000,
        asked == 0 ==> limit_spec(Some(asked)) == 1,
        asked > 1000 ==> limit_spec(Some(asked)) == 1000,
{
}

/// The objects of a page are those of its lines, and its fronts those of the
/// lines that are none of an object.
pub proof fn pages_part_objects_and_fronts(lines: Seq<(Seq<char>, Option<JsonView>)>, i: int)
    requires
        0 <= i < lines.len(),
    ensures
        lines[i].1 matches Some(item) ==> line_items(lines).contains(item),
        lines[i].1 is None ==> line_fronts(lines).contains(JsonView::Text(lines[i].0)),
        line_items(lines).len() + line_fronts(lines).len() == lines.len(),
    decreases lines.len(),
{
    let init = lines.drop_last();
    let last = lines.len() - 1;
    let items = line_items(init);
    let fronts = line_fronts(init);
    if last > 0 {
        let j: int = if i < last {
            i
        } else {
            0
        };
        pages_part_objects_and_fronts(init, j);
    } else {
        assert(init.len() == 0);
    }
    if i < last {
        assert(init[i] == lines[i]);
        match lines[i].1 {
            Some(item) => {
                let k = choose|k: int| 0 <= k < items.len() && items[k] == item;
                assert(line_items(lines)[k] == item);
            },
            None => {
                let text = JsonView::Text(lines[i].0);
                let k = choose|k: int| 0 <= k < fronts.len() && fronts[k] == text;
                assert(line_fronts(lines)[k] == text);
            },
        }
    } else {
        match lines[i].1 {
            Some(item) => {
                assert(line_items(lines)[items.len() as int] == item);
            },
            None => {
                assert(line_fronts(lines)[fronts.len() as int] == JsonView::Text(lines[i].0));
            },
        }
    }
}

/// The front that a name shares begins the name, goes on behind the prefix to
/// the first delimiter there, and ends with it. Without a delimiter behind the
/// prefix there is none.
pub proof fn fronts_end_at_the_first_delimiter(
    name: Seq<char>,
    prefix: Seq<char>,
    delimiter: Seq<char>,
)
    requires
        prefix.is_prefix_of(name),
        delimiter.len() > 0,
    ensures
        match shared_front(name, prefix, Some(delimiter)) {
            Some(front) => {
                let k = front.len() - prefix.len() - delimiter.len();
                &&& k >= 0
                &&& front.len() <= name.len()
                &&& front == name.take(front.len() as int)
                &&& stands_at(name.skip(prefix.len() as int), delimiter, k)
                &&& forall|j: int|
                    0 <= j < k ==> !#[trigger] stands_at(
                        name.skip(prefix.len() as int),
                        delimiter,
                        j,
                    )
            },
            None => forall|j: int|
                0 <= j ==> !#[trigger] stands_at(name.skip(prefix.len() as int), delimiter, j),
        },
        shared_front(name, prefix, None) is None,
{
    found_is_first(name.skip(prefix.len() as int), delimiter, 0);
}

} // verus!
