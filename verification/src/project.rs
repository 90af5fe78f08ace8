//! The configuration of a project with functions, and the command line.
use crate::accounts::copy_text;
use crate::codebases::{
    codebases_spec, codebases_view, config_file_spec, entries_spec, function_entries,
    load_codebases, load_local_dotenv, local_values_spec, malformed_package_refused,
    malformed_runtime_config_refused, override_of, parse_sources, parsed_result,
    parsed_source_spec, read_config_file, runtime_config_spec, select_runtime_config,
    source_files_view, sources_view, CodebaseView, FilesView, FunctionCodebase, ParsedSource,
    SourceFiles, SourceView, TextFile, TextFileView,
};
use crate::dotenv::overridden;
use crate::json::{
    items_view, json_error_text, json_object_view, json_of_text, object1, parse_json_or_error,
    text_of_json, with_member, write_json, Json, JsonView,
};
use crate::loopback::IpAddress;
use crate::ordered::{lookup, put, OrderedMap};
use crate::settings::{
    address, addresses_spec, either_text, env_text, first_of, load_addresses, load_pubsub_address,
    number_result, parse_port, plain_address_spec, port_of_text, project_spec, pubsub_address_spec,
    select_project, ConfigOverrides, EmulatorAddresses, Endpoint, EnvironmentView, OverridesView,
};
use crate::text::{cat, cat3, decimal, decimal_spec, opt_text, same, texts};
use crate::web_values::single;
use vstd::prelude::*;

verus! {

/// An endpoint on the machine itself, as text: the four numbers of an address
/// or the address of version 6 in brackets, and the port.
pub open spec fn endpoint_text_spec(e: Endpoint) -> Seq<char> {
    let host = match e.ip {
        IpAddress::V4(n) => decimal_spec((n / 0x100_0000) as nat) + "."@ + decimal_spec(
            (n / 0x1_0000 % 0x100) as nat,
        ) + "."@ + decimal_spec((n / 0x100 % 0x100) as nat) + "."@ + decimal_spec(
            (n % 0x100) as nat,
        ),
        IpAddress::V6(_) => "[::1]"@,
    };
    host + ":"@ + decimal_spec(e.port as nat)
}

/// Writes an endpoint on the machine itself.
pub fn endpoint_text(e: Endpoint) -> (r: String)
    requires
        e.ip.is_loopback_spec(),
    ensures
        r@ == endpoint_text_spec(e),
{
    let mut text = match e.ip {
        IpAddress::V4(n) => {
            let mut out = decimal((n / 0x100_0000) as u64);
            out.append(".");
            out.append(decimal((n / 0x1_0000 % 0x100) as u64).as_str());
            out.append(".");
            out.append(decimal((n / 0x100 % 0x100) as u64).as_str());
            out.append(".");
            out.append(decimal((n % 0x100) as u64).as_str());
            out
        },
        IpAddress::V6(_) => "[::1]".to_owned(),
    };
    text.append(":");
    text.append(decimal(e.port as u64).as_str());
    text
}

/// What functions are told of their project.
pub open spec fn firebase_config_spec(project: Seq<char>, database: Endpoint) -> JsonView {
    let v = object1("projectId"@, JsonView::Text(project));
    let v = with_member(v, "storageBucket"@, JsonView::Text(project + ".appspot.com"@));
    with_member(
        v,
        "databaseURL"@,
        JsonView::Text("http://"@ + endpoint_text_spec(database) + "?ns="@ + project),
    )
}

fn write_firebase_config(project: &str, database: Endpoint) -> (r: Json)
    requires
        database.ip.is_loopback_spec(),
    ensures
        r@ == firebase_config_spec(project@, database),
{
    let mut url = cat3("http://", endpoint_text(database).as_str(), "?ns=");
    url.append(project);
    single("projectId", Json::of_text(project)).with(
        "storageBucket",
        Json::Text(cat(project, ".appspot.com")),
    ).with("databaseURL", Json::Text(url))
}

/// The configuration of a project with functions.
pub struct FunctionsConfig {
    pub project_id: String,
    pub codebases: Vec<FunctionCodebase>,
    pub addresses: EmulatorAddresses,
    pub firebase_config: Json,
    pub runtime_config: Json,
    pub local_environment: OrderedMap<String>,
}

/// What a [`FunctionsConfig`] stands for.
#[verifier::ext_equal]
pub struct ConfigView {
    pub project_id: Seq<char>,
    pub codebases: Seq<CodebaseView>,
    pub addresses: EmulatorAddresses,
    pub firebase_config: JsonView,
    pub runtime_config: JsonView,
    pub local_environment: Seq<(Seq<char>, Seq<char>)>,
}

impl View for FunctionsConfig {
    type V = ConfigView;

    open spec fn view(&self) -> ConfigView {
        ConfigView {
            project_id: self.project_id@,
            codebases: codebases_view(self.codebases@),
            addresses: self.addresses,
            firebase_config: self.firebase_config@,
            runtime_config: self.runtime_config@,
            local_environment: self.local_environment@,
        }
    }
}

/// The files of a project and the addresses that its configured hosts are.
/// What was read of each directory of functions stands in the order of the
/// configurations.
pub struct ProjectFiles {
    pub root: Vec<String>,
    pub firebase: TextFile,
    pub firebaserc: TextFile,
    pub host_ip: Option<IpAddress>,
    pub pubsub_ip: Option<IpAddress>,
    pub sources: Vec<SourceFiles>,
}

/// What [`ProjectFiles`] stand for.
#[verifier::ext_equal]
pub struct ProjectFilesView {
    pub root: Seq<Seq<char>>,
    pub firebase: TextFileView,
    pub firebaserc: TextFileView,
    pub host_ip: Option<IpAddress>,
    pub pubsub_ip: Option<IpAddress>,
    pub sources: Seq<SourceView>,
}

impl View for ProjectFiles {
    type V = ProjectFilesView;

    open spec fn view(&self) -> ProjectFilesView {
        ProjectFilesView {
            root: texts(self.root@),
            firebase: self.firebase@,
            firebaserc: self.firebaserc@,
            host_ip: self.host_ip,
            pubsub_ip: self.pubsub_ip,
            sources: source_files_view(self.sources@),
        }
    }
}

/// The files of a project with those of JSON parsed, or what is wrong with the
/// first file of the project that holds no JSON. What is wrong with the files
/// of a directory of functions is told when they are needed.
pub open spec fn parsed_project_spec(files: ProjectFilesView) -> Result<ProjectView, Seq<char>> {
    match config_file_spec(files.firebase) {
        Err(e) => Err(e),
        Ok(firebase) => match config_file_spec(files.firebaserc) {
            Err(e) => Err(e),
            Ok(firebaserc) => Ok(
                ProjectView {
                    root: files.root,
                    firebase,
                    firebaserc,
                    host_ip: files.host_ip,
                    pubsub_ip: files.pubsub_ip,
                    sources: files.sources.map_values(|s: SourceView| parsed_source_spec(s)),
                },
            ),
        },
    }
}

/// Parses the files of a project.
pub fn parse_project(files: ProjectFiles) -> (r: Result<ParsedProject, String>)
    ensures
        (match r {
            Ok(p) => Ok(p@),
            Err(e) => Err(e@),
        }) == parsed_project_spec(files@),
{
    let firebase = match read_config_file(&files.firebase) {
        Ok(v) => v,
        Err(e) => {
            return Err(e);
        },
    };
    let firebaserc = match read_config_file(&files.firebaserc) {
        Ok(v) => v,
        Err(e) => {
            return Err(e);
        },
    };
    Ok(
        ParsedProject {
            root: files.root,
            firebase,
            firebaserc,
            host_ip: files.host_ip,
            pubsub_ip: files.pubsub_ip,
            sources: parse_sources(files.sources),
        },
    )
}

/// The files of a project, those of JSON parsed.
pub struct ParsedProject {
    pub root: Vec<String>,
    pub firebase: Json,
    pub firebaserc: Json,
    pub host_ip: Option<IpAddress>,
    pub pubsub_ip: Option<IpAddress>,
    pub sources: Vec<ParsedSource>,
}

/// What a [`ParsedProject`] stands for.
#[verifier::ext_equal]
pub struct ProjectView {
    pub root: Seq<Seq<char>>,
    pub firebase: JsonView,
    pub firebaserc: JsonView,
    pub host_ip: Option<IpAddress>,
    pub pubsub_ip: Option<IpAddress>,
    pub sources: Seq<FilesView>,
}

impl View for ParsedProject {
    type V = ProjectView;

    open spec fn view(&self) -> ProjectView {
        ProjectView {
            root: texts(self.root@),
            firebase: self.firebase@,
            firebaserc: self.firebaserc@,
            host_ip: self.host_ip,
            pubsub_ip: self.pubsub_ip,
            sources: sources_view(self.sources@),
        }
    }
}

/// The configuration of a project with functions, given what the variable
/// that sets the configuration of functions was parsed to; or the first thing
/// that is wrong with it.
pub open spec fn load_spec(
    cli: OverridesView,
    environment: EnvironmentView,
    files: ProjectView,
    parsed: Option<Result<JsonView, Seq<char>>>,
) -> Result<ConfigView, Seq<char>> {
    match project_spec(cli.project, environment, files.firebaserc) {
        Err(e) => Err(e),
        Ok(project_id) => match addresses_spec(
            cli,
            environment,
            files.firebase,
            files.host_ip,
            files.pubsub_ip,
        ) {
            Err(e) => Err(e),
            Ok(addresses) => match entries_spec(cli, environment, files.firebase) {
                Err(e) => Err(e),
                Ok(entries) => match codebases_spec(
                    files.root,
                    entries,
                    files.sources,
                    entries.len(),
                    override_of(
                        cli.functions_codebase,
                        environment,
                        "FIREBASE_FUNCTIONS_CODEBASE"@,
                    ),
                    override_of(
                        cli.functions_runtime,
                        environment,
                        "FIREBASE_FUNCTIONS_RUNTIME"@,
                    ),
                ) {
                    Err(e) => Err(e),
                    Ok(codebases) => match runtime_config_spec(
                        cli.runtime_config,
                        parsed,
                        files.sources,
                    ) {
                        Err(e) => Err(e),
                        Ok(runtime_config) => match local_values_spec(
                            files.sources,
                            files.sources.len(),
                        ) {
                            Err(e) => Err(e),
                            Ok(values) => Ok(
                                ConfigView {
                                    project_id,
                                    codebases,
                                    addresses,
                                    firebase_config: firebase_config_spec(
                                        project_id,
                                        addresses.database,
                                    ),
                                    runtime_config: JsonView::Object(runtime_config),
                                    local_environment: overridden(values, environment),
                                },
                            ),
                        },
                    },
                },
            },
        },
    }
}

/// The view of an outcome of loading a configuration.
pub open spec fn config_result(r: Result<FunctionsConfig, String>) -> Result<ConfigView, Seq<char>> {
    match r {
        Ok(c) => Ok(c@),
        Err(e) => Err(e@),
    }
}

/// Loads the configuration of a project with functions, given what its files
/// and the variable that sets the configuration of functions were parsed
/// to.
pub fn load_parsed(
    cli: &ConfigOverrides,
    environment: &OrderedMap<String>,
    files: &ParsedProject,
    parsed: Option<Result<Json, String>>,
) -> (r: Result<FunctionsConfig, String>)
    ensures
        config_result(r) == load_spec(cli@, environment@, files@, parsed_result(parsed)),
{
    let project_id = match select_project(&cli.project, environment, &files.firebaserc) {
        Ok(project) => project,
        Err(e) => {
            return Err(e);
        },
    };
    let addresses = match load_addresses(
        cli,
        environment,
        &files.firebase,
        files.host_ip,
        files.pubsub_ip,
    ) {
        Ok(addresses) => addresses,
        Err(e) => {
            return Err(e);
        },
    };
    let entries = match function_entries(cli, environment, &files.firebase) {
        Ok(entries) => entries,
        Err(e) => {
            return Err(e);
        },
    };
    let set_name = either_text(
        copy_text(&cli.functions_codebase),
        env_text(environment, "FIREBASE_FUNCTIONS_CODEBASE"),
    );
    let set_runtime = either_text(
        copy_text(&cli.functions_runtime),
        env_text(environment, "FIREBASE_FUNCTIONS_RUNTIME"),
    );
    assert(items_view(entries@).len() == entries@.len());
    let codebases = match load_codebases(
        &files.root,
        &entries,
        &files.sources,
        &set_name,
        &set_runtime,
    ) {
        Ok(codebases) => codebases,
        Err(e) => {
            return Err(e);
        },
    };
    let runtime_config = match select_runtime_config(&cli.runtime_config, parsed, &files.sources) {
        Ok(members) => members,
        Err(e) => {
            return Err(e);
        },
    };
    let local_environment = match load_local_dotenv(&files.sources, environment) {
        Ok(values) => values,
        Err(e) => {
            return Err(e);
        },
    };
    proof {
        crate::settings::addresses_are_local(
            cli@,
            environment@,
            files.firebase@,
            files.host_ip,
            files.pubsub_ip,
        );
        json_object_view(runtime_config);
    }
    let firebase_config = write_firebase_config(project_id.as_str(), addresses.database);
    Ok(
        FunctionsConfig {
            project_id,
            codebases,
            addresses,
            firebase_config,
            runtime_config: Json::Object(runtime_config),
            local_environment,
        },
    )
}

/// What a text that is set is parsed to.
pub open spec fn parsed_text(text: Option<Seq<char>>) -> Option<Result<JsonView, Seq<char>>> {
    match text {
        None => None,
        Some(raw) => match json_of_text(raw) {
            Some(v) => Some(Ok(v)),
            None => Some(Err(json_error_text(raw))),
        },
    }
}

/// Loads the configuration of a project with functions from the texts of its
/// files. A file that holds no JSON is refused.
pub fn load(cli: &ConfigOverrides, environment: &OrderedMap<String>, files: ProjectFiles) -> (r:
    Result<FunctionsConfig, String>)
    ensures
        config_result(r) == match parsed_project_spec(files@) {
            Err(e) => Err(e),
            Ok(project) => load_spec(
                cli@,
                environment@,
                project,
                parsed_text(lookup(environment@, "FIREBASE_EMU_RUNTIME_CONFIG"@)),
            ),
        },
{
    let project = match parse_project(files) {
        Ok(project) => project,
        Err(e) => {
            return Err(e);
        },
    };
    let parsed = match environment.get("FIREBASE_EMU_RUNTIME_CONFIG") {
        Some(raw) => Some(parse_json_or_error(raw.as_str())),
        None => None,
    };
    load_parsed(cli, environment, &project, parsed)
}

/// Malformed files fail the start: no configuration loads where a file of the
/// project or the package of a codebase holds no JSON, nor where the file that
/// configures functions holds none and nothing else configures them.
pub proof fn malformed_files_are_refused(
    cli: OverridesView,
    environment: EnvironmentView,
    files: ProjectFilesView,
    parsed: Option<Result<JsonView, Seq<char>>>,
)
    ensures
        config_file_spec(files.firebase) is Err || config_file_spec(files.firebaserc) is Err
            ==> parsed_project_spec(files) is Err,
        parsed_project_spec(files) matches Ok(project) ==> forall|i: int|
            0 <= i < project.sources.len() && (entries_spec(
                cli,
                environment,
                project.firebase,
            ) matches Ok(entries) ==> i < entries.len()) && (
            #[trigger] project.sources[i]).package is Err ==> load_spec(
                cli,
                environment,
                project,
                parsed,
            ) is Err,
        parsed_project_spec(files) matches Ok(project) ==> forall|i: int|
            0 <= i < project.sources.len() && cli.runtime_config is None && parsed is None && (
            #[trigger] project.sources[i]).runtime_config is Err ==> load_spec(
                cli,
                environment,
                project,
                parsed,
            ) is Err,
{
    if let Ok(project) = parsed_project_spec(files) {
        assert forall|i: int|
            0 <= i < project.sources.len() && (entries_spec(
                cli,
                environment,
                project.firebase,
            ) matches Ok(entries) ==> i < entries.len()) && (
            #[trigger] project.sources[i]).package is Err implies load_spec(
            cli,
            environment,
            project,
            parsed,
        ) is Err by {
            if let Ok(entries) = entries_spec(cli, environment, project.firebase) {
                malformed_package_refused(
                    project.root,
                    entries,
                    project.sources,
                    i,
                    entries.len(),
                    override_of(
                        cli.functions_codebase,
                        environment,
                        "FIREBASE_FUNCTIONS_CODEBASE"@,
                    ),
                    override_of(
                        cli.functions_runtime,
                        environment,
                        "FIREBASE_FUNCTIONS_RUNTIME"@,
                    ),
                );
            }
        }
        assert forall|i: int|
            0 <= i < project.sources.len() && cli.runtime_config is None && parsed is None && (
            #[trigger] project.sources[i]).runtime_config is Err implies load_spec(
            cli,
            environment,
            project,
            parsed,
        ) is Err by {
            malformed_runtime_config_refused(project.sources, i, project.sources.len());
        }
    }
}

/// A configuration that loads is one of a project for local work, and every
/// emulator of it listens on the machine itself.
pub proof fn configurations_are_local(
    cli: OverridesView,
    environment: EnvironmentView,
    files: ProjectView,
    parsed: Option<Result<JsonView, Seq<char>>>,
)
    ensures
        load_spec(cli, environment, files, parsed) matches Ok(config) ==> {
            &&& crate::settings::is_demo_project(config.project_id)
            &&& config.addresses.functions.ip.is_loopback_spec()
            &&& config.addresses.firestore.ip.is_loopback_spec()
            &&& config.addresses.auth.ip.is_loopback_spec()
            &&& config.addresses.storage.ip.is_loopback_spec()
            &&& config.addresses.database.ip.is_loopback_spec()
            &&& config.addresses.pubsub.ip.is_loopback_spec()
        },
{
    crate::settings::addresses_are_local(
        cli,
        environment,
        files.firebase,
        files.host_ip,
        files.pubsub_ip,
    );
}

/// The variables of a process that runs functions.
pub open spec fn child_environment_spec(c: ConfigView) -> Seq<(Seq<char>, Seq<char>)> {
    let v = c.local_environment;
    let v = put(v, "GCLOUD_PROJECT"@, c.project_id);
    let v = put(v, "GOOGLE_CLOUD_PROJECT"@, c.project_id);
    let v = put(v, "FIREBASE_CONFIG"@, text_of_json(c.firebase_config));
    let v = put(v, "CLOUD_RUNTIME_CONFIG"@, text_of_json(c.runtime_config));
    let v = put(v, "FIRESTORE_EMULATOR_HOST"@, endpoint_text_spec(c.addresses.firestore));
    let v = put(v, "FIREBASE_AUTH_EMULATOR_HOST"@, endpoint_text_spec(c.addresses.auth));
    let v = put(v, "FIREBASE_STORAGE_EMULATOR_HOST"@, endpoint_text_spec(c.addresses.storage));
    let v = put(v, "FIREBASE_DATABASE_EMULATOR_HOST"@, endpoint_text_spec(c.addresses.database));
    let v = put(v, "PUBSUB_EMULATOR_HOST"@, endpoint_text_spec(c.addresses.pubsub));
    let v = put(v, "FUNCTIONS_EMULATOR"@, "true"@);
    put(v, "NODE_ENV"@, "development"@)
}

/// Whether every emulator of a configuration listens on the machine itself.
pub open spec fn is_local(a: EmulatorAddresses) -> bool {
    &&& a.functions.ip.is_loopback_spec()
    &&& a.firestore.ip.is_loopback_spec()
    &&& a.auth.ip.is_loopback_spec()
    &&& a.storage.ip.is_loopback_spec()
    &&& a.database.ip.is_loopback_spec()
    &&& a.pubsub.ip.is_loopback_spec()
}

impl FunctionsConfig {
    /// Makes the variables of a process that runs functions.
    pub fn child_environment(&self) -> (r: OrderedMap<String>)
        requires
            is_local(self.addresses),
        ensures
            r@ == child_environment_spec(self@),
    {
        let mut v = crate::ordered::Duplicate::duplicate(&self.local_environment);
        v.insert("GCLOUD_PROJECT", self.project_id.clone());
        v.insert("GOOGLE_CLOUD_PROJECT", self.project_id.clone());
        v.insert("FIREBASE_CONFIG", write_json(&self.firebase_config));
        v.insert("CLOUD_RUNTIME_CONFIG", write_json(&self.runtime_config));
        v.insert("FIRESTORE_EMULATOR_HOST", endpoint_text(self.addresses.firestore));
        v.insert("FIREBASE_AUTH_EMULATOR_HOST", endpoint_text(self.addresses.auth));
        v.insert("FIREBASE_STORAGE_EMULATOR_HOST", endpoint_text(self.addresses.storage));
        v.insert("FIREBASE_DATABASE_EMULATOR_HOST", endpoint_text(self.addresses.database));
        v.insert("PUBSUB_EMULATOR_HOST", endpoint_text(self.addresses.pubsub));
        v.insert("FUNCTIONS_EMULATOR", "true".to_owned());
        v.insert("NODE_ENV", "development".to_owned());
        v
    }
}

/// What the command line says.
pub struct CommandLine {
    pub config_root: Option<String>,
    pub data_dir: Option<String>,
    pub in_memory: bool,
    pub no_functions: bool,
    pub no_ui: bool,
    pub ui_port: Option<u16>,
    pub functions: ConfigOverrides,
}

/// What a [`CommandLine`] stands for.
#[verifier::ext_equal]
pub struct CommandView {
    pub config_root: Option<Seq<char>>,
    pub data_dir: Option<Seq<char>>,
    pub in_memory: bool,
    pub no_functions: bool,
    pub no_ui: bool,
    pub ui_port: Option<u16>,
    pub functions: OverridesView,
}

impl View for CommandLine {
    type V = CommandView;

    open spec fn view(&self) -> CommandView {
        CommandView {
            config_root: opt_text(self.config_root),
            data_dir: opt_text(self.data_dir),
            in_memory: self.in_memory,
            no_functions: self.no_functions,
            no_ui: self.no_ui,
            ui_port: self.ui_port,
            functions: self.functions@,
        }
    }
}

impl CommandLine {
    /// A command line that says nothing.
    pub open spec fn none_spec() -> CommandView {
        CommandView {
            config_root: None,
            data_dir: None,
            in_memory: false,
            no_functions: false,
            no_ui: false,
            ui_port: None,
            functions: ConfigOverrides::none_spec(),
        }
    }

    pub fn none() -> (r: CommandLine)
        ensures
            r@ == CommandLine::none_spec(),
    {
        CommandLine {
            config_root: None,
            data_dir: None,
            in_memory: false,
            no_functions: false,
            no_ui: false,
            ui_port: None,
            functions: ConfigOverrides::none(),
        }
    }
}

/// Whether an option takes a value.
pub open spec fn takes_value(option: Seq<char>) -> bool {
    ||| option == "--config"@
    ||| option == "--data-dir"@
    ||| option == "--project"@
    ||| option == "--host"@
    ||| option == "--functions-port"@
    ||| option == "--pubsub-port"@
    ||| option == "--ui-port"@
    ||| option == "--functions-source"@
    ||| option == "--functions-codebase"@
    ||| option == "--functions-runtime"@
    ||| option == "--runtime-config"@
}

/// The command line with an option that takes a value.
pub open spec fn with_value(c: CommandView, option: Seq<char>, value: Seq<char>) -> Result<
    CommandView,
    Seq<char>,
> {
    if option == "--config"@ {
        Ok(CommandView { config_root: Some(value), ..c })
    } else if option == "--data-dir"@ {
        Ok(CommandView { data_dir: Some(value), ..c })
    } else if option == "--project"@ {
        Ok(
            CommandView {
                functions: OverridesView { project: Some(value), ..c.functions },
                ..c
            },
        )
    } else if option == "--host"@ {
        Ok(CommandView { functions: OverridesView { host: Some(value), ..c.functions }, ..c })
    } else if option == "--functions-port"@ {
        match port_of_text(value) {
            Ok(port) => Ok(
                CommandView {
                    functions: OverridesView { functions_port: Some(port), ..c.functions },
                    ..c
                },
            ),
            Err(e) => Err(e),
        }
    } else if option == "--pubsub-port"@ {
        match port_of_text(value) {
            Ok(port) => Ok(
                CommandView {
                    functions: OverridesView { pubsub_port: Some(port), ..c.functions },
                    ..c
                },
            ),
            Err(e) => Err(e),
        }
    } else if option == "--ui-port"@ {
        match port_of_text(value) {
            Ok(port) => Ok(CommandView { ui_port: Some(port), ..c }),
            Err(e) => Err(e),
        }
    } else if option == "--functions-source"@ {
        Ok(
            CommandView {
                functions: OverridesView { functions_source: Some(value), ..c.functions },
                ..c
            },
        )
    } else if option == "--functions-codebase"@ {
        Ok(
            CommandView {
                functions: OverridesView { functions_codebase: Some(value), ..c.functions },
                ..c
            },
        )
    } else if option == "--functions-runtime"@ {
        Ok(
            CommandView {
                functions: OverridesView { functions_runtime: Some(value), ..c.functions },
                ..c
            },
        )
    } else {
        match json_of_text(value) {
            Some(v) => Ok(
                CommandView {
                    functions: OverridesView { runtime_config: Some(v), ..c.functions },
                    ..c
                },
            ),
            None => Err("malformed --runtime-config JSON: "@ + json_error_text(value)),
        }
    }
}

/// What the command line asks for: to be told of the options, or to run.
pub enum Invocation {
    Help,
    Run(CommandLine),
}

/// What an [`Invocation`] stands for.
pub enum InvocationView {
    Help,
    Run(CommandView),
}

impl View for Invocation {
    type V = InvocationView;

    open spec fn view(&self) -> InvocationView {
        match self {
            Invocation::Help => InvocationView::Help,
            Invocation::Run(c) => InvocationView::Run(c@),
        }
    }
}

/// The view of arguments, which are missing where they are no text.
pub open spec fn arguments_view(args: Seq<Option<String>>) -> Seq<Option<Seq<char>>> {
    args.map_values(|a: Option<String>| opt_text(a))
}

/// Why options are refused together.
pub open spec fn command_refused(c: CommandView) -> Option<Seq<char>> {
    if c.data_dir is Some && c.in_memory {
        Some("--data-dir and --in-memory cannot be used together"@)
    } else {
        None
    }
}

/// What the arguments from `i` on ask for, on top of those before.
pub open spec fn arguments_spec(args: Seq<Option<Seq<char>>>, i: int, c: CommandView) -> Result<
    InvocationView,
    Seq<char>,
>
    decreases args.len() - i,
{
    if i < 0 || i >= args.len() {
        match command_refused(c) {
            Some(e) => Err(e),
            None => Ok(InvocationView::Run(c)),
        }
    } else {
        match args[i] {
            None => Err("command-line options must be valid UTF-8"@),
            Some(option) => if takes_value(option) {
                if i + 1 >= args.len() {
                    Err(option + " requires a value"@)
                } else {
                    match args[i + 1] {
                        None => Err(option + " must be valid UTF-8"@),
                        Some(value) => match with_value(c, option, value) {
                            Err(e) => Err(e),
                            Ok(next) => arguments_spec(args, i + 2, next),
                        },
                    }
                }
            } else if option == "--in-memory"@ {
                arguments_spec(args, i + 1, CommandView { in_memory: true, ..c })
            } else if option == "--no-functions"@ {
                arguments_spec(args, i + 1, CommandView { no_functions: true, ..c })
            } else if option == "--no-ui"@ {
                arguments_spec(args, i + 1, CommandView { no_ui: true, ..c })
            } else if option == "--help"@ || option == "-h"@ {
                Ok(InvocationView::Help)
            } else {
                Err("unknown option `"@ + option + "` (use --help)"@)
            },
        }
    }
}

/// Checks the options that cannot be used together.
pub fn validate_command_line(command: &CommandLine) -> (r: Result<(), String>)
    ensures
        match r {
            Ok(_) => command_refused(command@) is None,
            Err(e) => command_refused(command@) == Some(e@),
        },
{
    if command.data_dir.is_some() && command.in_memory {
        Err("--data-dir and --in-memory cannot be used together".to_owned())
    } else {
        Ok(())
    }
}

fn has_value(option: &str) -> (r: bool)
    ensures
        r == takes_value(option@),
{
    same(option, "--config") || same(option, "--data-dir") || same(option, "--project") || same(
        option,
        "--host",
    ) || same(option, "--functions-port") || same(option, "--pubsub-port") || same(
        option,
        "--ui-port",
    ) || same(option, "--functions-source") || same(option, "--functions-codebase") || same(
        option,
        "--functions-runtime",
    ) || same(option, "--runtime-config")
}

fn set_value(command: CommandLine, option: &str, value: String) -> (r: Result<CommandLine, String>)
    requires
        takes_value(option@),
    ensures
        (match r {
            Ok(c) => Ok(c@),
            Err(e) => Err(e@),
        }) == with_value(command@, option@, value@),
{
    let mut c = command;
    if same(option, "--config") {
        c.config_root = Some(value);
    } else if same(option, "--data-dir") {
        c.data_dir = Some(value);
    } else if same(option, "--project") {
        c.functions.project = Some(value);
    } else if same(option, "--host") {
        c.functions.host = Some(value);
    } else if same(option, "--functions-port") {
        match parse_port(value.as_str()) {
            Ok(port) => {
                c.functions.functions_port = Some(port);
            },
            Err(e) => {
                return Err(e);
            },
        }
    } else if same(option, "--pubsub-port") {
        match parse_port(value.as_str()) {
            Ok(port) => {
                c.functions.pubsub_port = Some(port);
            },
            Err(e) => {
                return Err(e);
            },
        }
    } else if same(option, "--ui-port") {
        match parse_port(value.as_str()) {
            Ok(port) => {
                c.ui_port = Some(port);
            },
            Err(e) => {
                return Err(e);
            },
        }
    } else if same(option, "--functions-source") {
        c.functions.functions_source = Some(value);
    } else if same(option, "--functions-codebase") {
        c.functions.functions_codebase = Some(value);
    } else if same(option, "--functions-runtime") {
        c.functions.functions_runtime = Some(value);
    } else {
        match parse_json_or_error(value.as_str()) {
            Ok(v) => {
                c.functions.runtime_config = Some(v);
            },
            Err(e) => {
                return Err(cat("malformed --runtime-config JSON: ", e.as_str()));
            },
        }
    }
    Ok(c)
}

/// Reads the command line, without the name of the program.
pub fn command_line(args: &Vec<Option<String>>) -> (r: Result<Invocation, String>)
    ensures
        (match r {
            Ok(c) => Ok(c@),
            Err(e) => Err(e@),
        }) == arguments_spec(arguments_view(args@), 0, CommandLine::none_spec()),
{
    let ghost all = arguments_view(args@);
    let ghost goal = arguments_spec(all, 0, CommandLine::none_spec());
    let mut command = CommandLine::none();
    let mut i: usize = 0;
    while i < args.len()
        invariant
            i <= args@.len(),
            all == arguments_view(args@),
            goal == arguments_spec(all, 0, CommandLine::none_spec()),
            goal == arguments_spec(all, i as int, command@),
        decreases args.len() - i,
    {
        assert(all[i as int] == opt_text(args@[i as int]));
        let option = match &args[i] {
            Some(option) => option.as_str(),
            None => {
                return Err("command-line options must be valid UTF-8".to_owned());
            },
        };
        if has_value(option) {
            if args.len() - i <= 1 {
                return Err(cat(option, " requires a value"));
            }
            assert(all[i + 1] == opt_text(args@[i + 1]));
            let value = match &args[i + 1] {
                Some(value) => value.clone(),
                None => {
                    return Err(cat(option, " must be valid UTF-8"));
                },
            };
            command =
            match set_value(command, option, value) {
                Ok(next) => next,
                Err(e) => {
                    return Err(e);
                },
            };
            i += 2;
        } else if same(option, "--in-memory") {
            command.in_memory = true;
            i += 1;
        } else if same(option, "--no-functions") {
            command.no_functions = true;
            i += 1;
        } else if same(option, "--no-ui") {
            command.no_ui = true;
            i += 1;
        } else if same(option, "--help") || same(option, "-h") {
            return Ok(Invocation::Help);
        } else {
            return Err(cat3("unknown option `", option, "` (use --help)"));
        }
    }
    match validate_command_line(&command) {
        Ok(()) => Ok(Invocation::Run(command)),
        Err(e) => Err(e),
    }
}

/// A run never both keeps data in a directory and in memory alone.
pub proof fn storage_is_chosen_once(args: Seq<Option<Seq<char>>>, i: int, c: CommandView)
    ensures
        arguments_spec(args, i, c) matches Ok(InvocationView::Run(run)) ==> !(run.data_dir is Some
            && run.in_memory),
    decreases args.len() - i,
{
    if 0 <= i < args.len() && args[i] is Some {
        let option = args[i]->0;
        if takes_value(option) {
            if i + 1 < args.len() && args[i + 1] is Some {
                if let Ok(next) = with_value(c, option, args[i + 1]->0) {
                    storage_is_chosen_once(args, i + 2, next);
                }
            }
        } else if option == "--in-memory"@ {
            storage_is_chosen_once(args, i + 1, CommandView { in_memory: true, ..c });
        } else if option == "--no-functions"@ {
            storage_is_chosen_once(args, i + 1, CommandView { no_functions: true, ..c });
        } else if option == "--no-ui"@ {
            storage_is_chosen_once(args, i + 1, CommandView { no_ui: true, ..c });
        }
    }
}

/// Where the project is looked for.
#[derive(PartialEq, Eq, Debug)]
pub enum RootChoice {
    /// In a directory that is named; a file of configuration stands for its
    /// own.
    Named(String),
    /// In the directory that the program was started in.
    Current,
    /// Nowhere.
    Absent,
}

/// Decides where the project is looked for: where the command line or the
/// environment says, else where the program was started, if functions are
/// named or the file of configuration is there.
pub fn configured_root(
    cli: &Option<String>,
    environment: &OrderedMap<String>,
    functions_source: &Option<String>,
    has_file: bool,
) -> (r: RootChoice)
    ensures
        match first_of(opt_text(*cli), lookup(environment@, "FIREBASE_EMU_CONFIG_DIR"@)) {
            Some(path) => r matches RootChoice::Named(named) && named@ == path,
            None => if functions_source is Some || lookup(
                environment@,
                "FIREBASE_FUNCTIONS_SOURCE"@,
            ) is Some || has_file {
                r is Current
            } else {
                r is Absent
            },
        },
{
    match either_text(copy_text(cli), env_text(environment, "FIREBASE_EMU_CONFIG_DIR")) {
        Some(path) => RootChoice::Named(path),
        None => if functions_source.is_some() || environment.contains("FIREBASE_FUNCTIONS_SOURCE")
            || has_file {
            RootChoice::Current
        } else {
            RootChoice::Absent
        },
    }
}

/// Whether a path whose last part this is names the file of configuration, so
/// that the project is the directory that holds it.
pub fn names_config_file(last: Option<&str>) -> (r: bool)
    ensures
        r == (last matches Some(name) && name@ == "firebase.json"@),
{
    match last {
        Some(name) => same(name, "firebase.json"),
        None => false,
    }
}

/// Where the services listen.
#[derive(Clone, Copy, PartialEq, Eq, Debug, Structural)]
pub struct ServiceAddresses {
    pub firestore: Endpoint,
    pub auth: Endpoint,
    pub storage: Endpoint,
    pub pubsub: Endpoint,
}

/// Where the services listen: where the configuration of functions says, or
/// each where its own variable says.
pub open spec fn service_addresses_spec(
    configured: Option<EmulatorAddresses>,
    cli: OverridesView,
    environment: EnvironmentView,
    firebase: JsonView,
    host: Result<IpAddress, Seq<char>>,
    pubsub_ip: Option<IpAddress>,
) -> Result<ServiceAddresses, Seq<char>> {
    match configured {
        Some(a) => Ok(
            ServiceAddresses {
                firestore: a.firestore,
                auth: a.auth,
                storage: a.storage,
                pubsub: a.pubsub,
            },
        ),
        None => match plain_address_spec(environment, "FIRESTORE_EMU_PORT"@, 8080, host) {
            Err(e) => Err(e),
            Ok(firestore) => match plain_address_spec(
                environment,
                "FIREBASE_AUTH_EMU_PORT"@,
                9099,
                host,
            ) {
                Err(e) => Err(e),
                Ok(auth) => match plain_address_spec(
                    environment,
                    "FIREBASE_STORAGE_EMU_PORT"@,
                    9199,
                    host,
                ) {
                    Err(e) => Err(e),
                    Ok(storage) => match pubsub_address_spec(
                        cli,
                        environment,
                        firebase,
                        pubsub_ip,
                    ) {
                        Err(e) => Err(e),
                        Ok(pubsub) => Ok(ServiceAddresses { firestore, auth, storage, pubsub }),
                    },
                },
            },
        },
    }
}

fn copy_host(host: &Result<IpAddress, String>) -> (r: Result<IpAddress, String>)
    ensures
        number_result(r) == number_result(*host),
{
    match host {
        Ok(ip) => Ok(*ip),
        Err(e) => Err(e.clone()),
    }
}

/// Decides where the services listen.
pub fn service_addresses(
    configured: Option<EmulatorAddresses>,
    cli: &ConfigOverrides,
    environment: &OrderedMap<String>,
    firebase: &Json,
    host: Result<IpAddress, String>,
    pubsub_ip: Option<IpAddress>,
) -> (r: Result<ServiceAddresses, String>)
    ensures
        number_result(r) == service_addresses_spec(
            configured,
            cli@,
            environment@,
            firebase@,
            number_result(host),
            pubsub_ip,
        ),
{
    if let Some(a) = configured {
        return Ok(
            ServiceAddresses {
                firestore: a.firestore,
                auth: a.auth,
                storage: a.storage,
                pubsub: a.pubsub,
            },
        );
    }
    let firestore = match address(environment, "FIRESTORE_EMU_PORT", 8080, copy_host(&host)) {
        Ok(e) => e,
        Err(e) => {
            return Err(e);
        },
    };
    let auth = match address(environment, "FIREBASE_AUTH_EMU_PORT", 9099, copy_host(&host)) {
        Ok(e) => e,
        Err(e) => {
            return Err(e);
        },
    };
    let storage = match address(environment, "FIREBASE_STORAGE_EMU_PORT", 9199, host) {
        Ok(e) => e,
        Err(e) => {
            return Err(e);
        },
    };
    match load_pubsub_address(cli, environment, firebase, pubsub_ip) {
        Ok(pubsub) => Ok(ServiceAddresses { firestore, auth, storage, pubsub }),
        Err(e) => Err(e),
    }
}

/// Every service listens on the machine itself.
pub proof fn services_are_local(
    configured: Option<EmulatorAddresses>,
    cli: OverridesView,
    environment: EnvironmentView,
    firebase: JsonView,
    host: Result<IpAddress, Seq<char>>,
    pubsub_ip: Option<IpAddress>,
)
    requires
        configured is Some ==> is_local(configured->0),
    ensures
        service_addresses_spec(
            configured,
            cli,
            environment,
            firebase,
            host,
            pubsub_ip,
        ) matches Ok(a) ==> {
            &&& a.firestore.ip.is_loopback_spec()
            &&& a.auth.ip.is_loopback_spec()
            &&& a.storage.ip.is_loopback_spec()
            &&& a.pubsub.ip.is_loopback_spec()
        },
{
}

/// The project that the services use by default: the one of the functions,
/// else the one of the command line, else one of the environment.
pub fn default_project(
    configured: Option<String>,
    cli: &Option<String>,
    environment: &OrderedMap<String>,
) -> (r: String)
    ensures
        r@ == match first_of(
            opt_text(configured),
            first_of(
                opt_text(*cli),
                first_of(
                    lookup(environment@, "GCLOUD_PROJECT"@),
                    lookup(environment@, "GOOGLE_CLOUD_PROJECT"@),
                ),
            ),
        ) {
            Some(project) => project,
            None => "demo-rust-emu"@,
        },
{
    let named = either_text(
        configured,
        either_text(
            copy_text(cli),
            either_text(
                env_text(environment, "GCLOUD_PROJECT"),
                env_text(environment, "GOOGLE_CLOUD_PROJECT"),
            ),
        ),
    );
    match named {
        Some(project) => project,
        None => "demo-rust-emu".to_owned(),
    }
}

} // verus!
