use firebase_emu::codebases::{
    parse_json_file, read_json_file, ResolvedSource, SourceFiles, TextFile,
};
use firebase_emu::dotenv::parse_dotenv;
use firebase_emu::json::Json;
use firebase_emu::loopback::{
    names_local_host, origin_host, parse_loopback_host, request_host, serves_request, IpAddress,
    LOCALHOST,
};
use firebase_emu::ordered::OrderedMap;
use firebase_emu::project::{
    command_line, default_project, endpoint_text, load, validate_command_line, CommandLine,
    FunctionsConfig, Invocation, ProjectFiles,
};
use firebase_emu::schema::{migrate, outbox_has_room, SchemaError, SchemaPlan, APPLICATION_ID};
use firebase_emu::settings::{
    address, env_port, load_pubsub_address, load_ui_address, ConfigOverrides, Endpoint,
};

fn json(text: &str) -> Json {
    Json::parse(text).unwrap()
}

fn environment(pairs: &[(&str, &str)]) -> OrderedMap<String> {
    let mut out = OrderedMap::new();
    for (key, value) in pairs {
        out.insert(key, value.to_string());
    }
    out
}

fn local() -> Option<IpAddress> {
    Some(IpAddress::V4(LOCALHOST))
}

fn file(path: &str, text: Option<&str>) -> TextFile {
    TextFile { path: path.into(), text: Ok(text.map(str::to_owned)) }
}

fn source(path: &str, package: &str) -> SourceFiles {
    SourceFiles {
        is_absolute: false,
        resolved: Ok(ResolvedSource {
            display: format!("/root/{path}"),
            components: vec!["/".into(), "root".into(), path.into()],
            has_package: true,
        }),
        package: file(&format!("/root/{path}/package.json"), Some(package)),
        runtime_config: file(&format!("/root/{path}/.runtimeconfig.json"), None),
        dotenv: Vec::new(),
    }
}

fn files(firebase: &str, firebaserc: &str, sources: Vec<SourceFiles>) -> ProjectFiles {
    ProjectFiles {
        root: vec!["/".into(), "root".into()],
        firebase: file("/root/firebase.json", Some(firebase)),
        firebaserc: file("/root/.firebaserc", Some(firebaserc)),
        host_ip: local(),
        pubsub_ip: local(),
        sources,
    }
}

fn base() -> SourceFiles {
    source("functions", r#"{"name":"fixture","engines":{"node":"22"}}"#)
}

fn message(r: Result<FunctionsConfig, String>) -> String {
    r.err().unwrap()
}

#[test]
fn precedence_is_cli_then_environment_then_files_then_defaults() {
    let mut functions = base();
    functions.runtime_config = file(".runtimeconfig.json", Some(r#"{"nested":{"from":"file","number":7}}"#));
    functions.dotenv = vec![
        (".env.demo-cli".into(), Ok(Some("VALUE=file\nONLY_FILE=yes\n".into()))),
        (".env.local".into(), Ok(Some("VALUE=local\nQUOTED=\"nested value\"\n".into()))),
    ];
    let mut project = files(
        r#"{"functions":{"source":"functions","runtime":"nodejs18"},"emulators":{"functions":{"host":"0.0.0.0","port":5101},"firestore":{"port":8180}}}"#,
        r#"{"projects":{"default":"demo-file"}}"#,
        vec![functions],
    );
    project.host_ip = Some(IpAddress::V4(0));
    let env = environment(&[
        ("FIREBASE_EMU_PROJECT", "demo-env"),
        ("FIREBASE_FUNCTIONS_EMU_PORT", "5201"),
        ("FIREBASE_FUNCTIONS_RUNTIME", "20"),
        ("VALUE", "environment"),
        ("UNRELATED_SECRET", "must-not-propagate"),
    ]);
    let mut cli = ConfigOverrides::none();
    cli.project = Some("demo-cli".into());
    cli.functions_port = Some(5301);
    cli.functions_runtime = Some("22".into());
    cli.runtime_config = Some(json(r#"{"nested":{"from":"cli"}}"#));
    let loaded = load(&cli, &env, project).ok().unwrap();
    assert_eq!(loaded.project_id, "demo-cli");
    assert_eq!(loaded.addresses.functions.port, 5301);
    assert!(loaded.addresses.functions.ip.is_loopback());
    assert_eq!(loaded.addresses.firestore.port, 8180);
    assert_eq!(loaded.codebases[0].runtime, "nodejs22");
    assert_eq!(loaded.runtime_config, json(r#"{"nested":{"from":"cli"}}"#));
    let value = |key: &str| loaded.local_environment.get(key).map(String::as_str);
    assert_eq!(value("VALUE"), Some("environment"));
    assert_eq!(value("ONLY_FILE"), Some("yes"));
    assert_eq!(value("QUOTED"), Some("nested value"));
    assert_eq!(value("UNRELATED_SECRET"), None);
}

#[test]
fn discovers_multiple_codebases_and_nested_legacy_config() {
    let mut one = source("one", r#"{"engines":{"node":"22.x"}}"#);
    one.runtime_config = file(".runtimeconfig.json", Some(r#"{"service":{"url":"http://127.0.0.1","nested":{"enabled":true}}}"#));
    let mut two = source("two", "{}");
    two.runtime_config = file(".runtimeconfig.json", Some(r#"{"service":{"nested":{"limit":3}},"other":"value"}"#));
    let project = files(
        r#"{"functions":[{"source":"one","codebase":"web"},{"source":"two","codebase":"uploads","runtime":"nodejs18"}],"emulators":{"auth":{"port":9190},"storage":{"port":9290},"database":{"port":9100},"pubsub":{"port":8185}}}"#,
        r#"{"projects":{"default":"local","local":"demo-multi"}}"#,
        vec![one, two],
    );
    let loaded = load(&ConfigOverrides::none(), &environment(&[]), project).ok().unwrap();
    assert_eq!(loaded.project_id, "demo-multi");
    assert_eq!(
        loaded
            .codebases
            .iter()
            .map(|item| (&*item.codebase, &*item.runtime))
            .collect::<Vec<_>>(),
        vec![("web", "nodejs22"), ("uploads", "nodejs18")]
    );
    assert_eq!(
        loaded.runtime_config,
        json(
            r#"{"service":{"url":"http://127.0.0.1","nested":{"enabled":true,"limit":3}},"other":"value"}"#
        )
    );
    assert_eq!(
        loaded.firebase_config.text("databaseURL"),
        "http://127.0.0.1:9100?ns=demo-multi"
    );
    assert_eq!(loaded.firebase_config.text("storageBucket"), "demo-multi.appspot.com");
    let child = loaded.child_environment();
    assert_eq!(json(child.get("CLOUD_RUNTIME_CONFIG").unwrap()), loaded.runtime_config);
    assert_eq!(json(child.get("FIREBASE_CONFIG").unwrap()), loaded.firebase_config);
    assert_eq!(child.get("FIREBASE_AUTH_EMULATOR_HOST").unwrap(), "127.0.0.1:9190");
    assert_eq!(child.get("PUBSUB_EMULATOR_HOST").unwrap(), "127.0.0.1:8185");
}

#[test]
fn pubsub_address_loads_without_a_functions_source() {
    let firebase = json(r#"{"emulators":{"pubsub":{"host":"localhost","port":8185}}}"#);
    let loaded =
        load_pubsub_address(&ConfigOverrides::none(), &environment(&[]), &firebase, local())
            .unwrap();
    assert_eq!(endpoint_text(loaded), "127.0.0.1:8185");
    let mut cli = ConfigOverrides::none();
    cli.pubsub_port = Some(8285);
    let overridden = load_pubsub_address(&cli, &environment(&[]), &firebase, local()).unwrap();
    assert_eq!(endpoint_text(overridden), "127.0.0.1:8285");
    cli.pubsub_port = Some(0);
    assert_eq!(
        load_pubsub_address(&cli, &environment(&[]), &firebase, local()).unwrap_err(),
        "Pub/Sub emulator port must be between 1 and 65535"
    );
}

#[test]
fn ui_address_uses_firebase_config_and_explicit_override() {
    let at = |port: u16| Endpoint { ip: IpAddress::V4(LOCALHOST), port };
    let none = environment(&[]);
    let firebase = json(r#"{"emulators":{"ui":{"host":"localhost","port":4400}}}"#);
    let configured = load_ui_address(None, &None, &none, &firebase, local()).unwrap();
    assert_eq!(configured, at(4400));
    let host = Some("127.0.0.1".to_string());
    let overridden = load_ui_address(Some(4500), &host, &none, &firebase, local()).unwrap();
    assert_eq!(overridden, at(4500));
    let dynamic = load_ui_address(Some(0), &host, &none, &firebase, local()).unwrap();
    assert_eq!(dynamic, at(0));
    let dynamic_environment = load_ui_address(
        None,
        &None,
        &environment(&[("FIREBASE_UI_EMU_PORT", "0")]),
        &firebase,
        local(),
    )
    .unwrap();
    assert_eq!(dynamic_environment, at(0));
    let firebase = json(r#"{"emulators":{"ui":{"host":"localhost","port":0}}}"#);
    let dynamic_file = load_ui_address(None, &None, &none, &firebase, local()).unwrap();
    assert_eq!(dynamic_file, at(0));
}

#[test]
fn environment_overrides_files_and_defaults_without_cli() {
    let project = files(
        r#"{"functions":{"source":"functions","runtime":"nodejs18"},"emulators":{"functions":{"port":5101}}}"#,
        r#"{"projects":{"default":"demo-file"}}"#,
        vec![base()],
    );
    let env = environment(&[
        ("FIREBASE_EMU_PROJECT", "demo-env"),
        ("FIREBASE_FUNCTIONS_EMU_PORT", "5201"),
        ("FIREBASE_FUNCTIONS_RUNTIME", "20"),
        ("FIREBASE_EMU_RUNTIME_CONFIG", r#"{"env":{"nested":"yes"}}"#),
    ]);
    let loaded = load(&ConfigOverrides::none(), &env, project).ok().unwrap();
    assert_eq!(loaded.project_id, "demo-env");
    assert_eq!(loaded.addresses.functions.port, 5201);
    assert_eq!(loaded.codebases[0].runtime, "nodejs20");
    assert_eq!(loaded.runtime_config, json(r#"{"env":{"nested":"yes"}}"#));
}

#[test]
fn rejects_production_projects_malformed_inputs_and_duplicate_codebases() {
    let none = environment(&[]);
    let cli = ConfigOverrides::none();
    let project = files("{}", r#"{"projects":{"default":"example-prod"}}"#, vec![base()]);
    assert!(message(load(&cli, &none, project)).contains("demo-"));

    let safe = r#"{"projects":{"default":"demo-safe"}}"#;
    let mut functions = base();
    functions.runtime_config = file(".runtimeconfig.json", Some("[]"));
    let project = files("{}", safe, vec![functions]);
    assert!(message(load(&cli, &none, project)).contains("JSON object"));

    let mut functions = base();
    functions.runtime_config = file(".runtimeconfig.json", Some("{}"));
    functions.dotenv = vec![(".env.local".into(), Ok(Some("not valid\n".into())))];
    let project = files("{}", safe, vec![functions]);
    assert!(message(load(&cli, &none, project)).contains("malformed"));

    let project = files(
        r#"{"functions":[{"source":"functions","codebase":"same"},{"source":"functions","codebase":"same"}]}"#,
        safe,
        vec![base(), base()],
    );
    assert!(message(load(&cli, &none, project)).contains("duplicate"));
}

#[test]
fn rejects_escape_non_loopback_bad_runtime_and_malformed_json() {
    let none = environment(&[]);
    let mut cli = ConfigOverrides::none();
    cli.project = Some("demo-safe".into());
    let mut outside = base();
    outside.resolved = Ok(ResolvedSource {
        display: "/outside".into(),
        components: vec!["/".into(), "outside".into()],
        has_package: true,
    });
    let project = files(r#"{"functions":{"source":"../outside"}}"#, "{}", vec![outside]);
    assert!(message(load(&cli, &none, project)).contains("source"));

    let project = files(
        r#"{"functions":{"source":"functions","runtime":"nodejs16"}}"#,
        "{}",
        vec![base()],
    );
    assert!(message(load(&cli, &none, project)).contains("unsupported"));

    let mut project = files(
        r#"{"functions":{"source":"functions","runtime":"nodejs16"}}"#,
        "{}",
        vec![base()],
    );
    project.host_ip = Some(IpAddress::V4(0));
    let env = environment(&[("FIREBASE_EMU_HOST", "0.0.0.0")]);
    assert!(message(load(&cli, &env, project)).contains("not loopback"));

    let project = files(
        r#"{"functions":{"source":"functions"},"emulators":{"functions":{"port":70000}}}"#,
        "{}",
        vec![base()],
    );
    assert!(message(load(&cli, &none, project)).contains("port"));

    let project = files("{", "{}", vec![base()]);
    assert!(message(load(&cli, &none, project)).contains("malformed"));
}

#[test]
fn malformed_files_fail_the_start() {
    let none = environment(&[]);
    let cli = ConfigOverrides::none();
    let said = "EOF while parsing an object at line 1 column 1";
    assert_eq!(
        message(load(&cli, &none, files("{", "{}", vec![base()]))),
        format!("malformed /root/firebase.json: {said}")
    );
    assert_eq!(
        message(load(&cli, &none, files("{}", "{", vec![base()]))),
        format!("malformed /root/.firebaserc: {said}")
    );
    assert_eq!(
        message(load(&cli, &none, files("{}", "{}", vec![source("functions", "{")]))),
        format!("malformed /root/functions/package.json: {said}")
    );
    let mut functions = base();
    functions.runtime_config = file("/root/functions/.runtimeconfig.json", Some("{"));
    assert_eq!(
        message(load(&cli, &none, files("{}", "{}", vec![functions]))),
        format!("malformed /root/functions/.runtimeconfig.json: {said}")
    );
    let env = environment(&[("FIREBASE_EMU_RUNTIME_CONFIG", "{")]);
    assert_eq!(
        message(load(&cli, &env, files("{}", "{}", vec![base()]))),
        format!("malformed FIREBASE_EMU_RUNTIME_CONFIG: {said}")
    );
    let mut unreadable = files("{}", "{}", vec![base()]);
    unreadable.firebase.text = Err("permission denied".into());
    assert_eq!(message(load(&cli, &none, unreadable)), "permission denied");
    let mut absent = files("{}", "{}", vec![base()]);
    absent.firebase.text = Ok(None);
    absent.firebaserc.text = Ok(None);
    assert_eq!(load(&cli, &none, absent).ok().unwrap().project_id, "demo-rust-emu");
    assert_eq!(
        message(load(&cli, &none, files("{}", "{}", vec![]))),
        "invalid Functions source functions: not read"
    );
}

#[test]
fn files_of_json_are_read() {
    assert_eq!(parse_json_file("a.json", "[1]").unwrap(), json("[1]"));
    assert_eq!(
        parse_json_file("a.json", "").err().unwrap(),
        "malformed a.json: EOF while parsing a value at line 1 column 0"
    );
    assert_eq!(read_json_file(&file("a.json", None)).unwrap(), None);
    assert_eq!(read_json_file(&file("a.json", Some("7"))).unwrap(), Some(json("7")));
}

#[test]
fn configurations_are_refused_for_a_reason() {
    let none = environment(&[]);
    let cli = ConfigOverrides::none();
    let refused = |firebase: &str, sources: Vec<SourceFiles>| {
        message(load(&cli, &none, files(firebase, "{}", sources)))
    };
    assert_eq!(
        refused(r#"{"functions":[]}"#, vec![]),
        "firebase.json `functions` array must not be empty"
    );
    assert_eq!(
        refused(r#"{"functions":7}"#, vec![]),
        "firebase.json `functions` must be an object or array"
    );
    assert_eq!(
        refused(r#"{"functions":[7]}"#, vec![base()]),
        "each Functions configuration must be an object"
    );
    let mut absolute = base();
    absolute.is_absolute = true;
    assert_eq!(
        refused("{}", vec![absolute]),
        "Functions source must be relative to the Firebase project"
    );
    let mut missing = base();
    missing.resolved = Err("gone".into());
    assert_eq!(
        refused("{}", vec![missing]),
        "invalid Functions source functions: gone"
    );
    let mut bare = base();
    bare.resolved = Ok(ResolvedSource {
        display: "/root/functions".into(),
        components: vec!["/".into(), "root".into(), "functions".into()],
        has_package: false,
    });
    assert_eq!(
        refused("{}", vec![bare]),
        "Functions source has no package.json: /root/functions"
    );
    assert_eq!(
        refused(r#"{"functions":{"codebase":"a b"}}"#, vec![base()]),
        "invalid Functions codebase `a b`"
    );
    let mut first = base();
    first.runtime_config = file(".runtimeconfig.json", Some(r#"{"a":{"b":1}}"#));
    let mut second = base();
    second.runtime_config = file(".runtimeconfig.json", Some(r#"{"a":{"b":2}}"#));
    assert_eq!(
        refused(r#"{"functions":[{},{}]}"#, vec![first, second]),
        "conflicting runtime config at `a.b` across codebases"
    );
}

#[test]
fn dotenv_files_are_read() {
    let values = parse_dotenv(
        "# comment\n\nexport  A = 'x y' \r\nB=plain # note\nC=\"q\"\nA=again\n",
        "file",
    )
    .ok()
    .unwrap();
    assert_eq!(values.get("A").unwrap(), "again");
    assert_eq!(values.get("B").unwrap(), "plain");
    assert_eq!(values.get("C").unwrap(), "q");
    assert_eq!(parse_dotenv("A=1\nnope", "file").err().unwrap(), "malformed file line 2");
    assert_eq!(
        parse_dotenv("1A=1", "file").err().unwrap(),
        "invalid dotenv key in file line 1"
    );
}

#[test]
fn ports_are_read() {
    let env = environment(&[("A", "80"), ("B", "70000"), ("C", "x"), ("D", "")]);
    assert_eq!(env_port(&env, "A"), Ok(Some(80)));
    assert_eq!(env_port(&env, "Z"), Ok(None));
    assert_eq!(
        env_port(&env, "B").unwrap_err(),
        "invalid B: number too large to fit in target type"
    );
    assert_eq!(env_port(&env, "C").unwrap_err(), "invalid C: invalid digit found in string");
    assert_eq!(
        env_port(&env, "D").unwrap_err(),
        "invalid D: cannot parse integer from empty string"
    );
}

fn loopback(host: Option<&str>, ip: Option<IpAddress>) -> bool {
    match host {
        Some(h) => names_local_host(h, ip),
        None => false,
    }
}

#[test]
fn accepts_loopback_hosts_and_http2_authority() {
    for (value, host, ip) in [
        ("127.0.0.1:8080", "127.0.0.1", Some(IpAddress::V4(LOCALHOST))),
        ("127.9.8.7:42", "127.9.8.7", Some(IpAddress::V4(0x7f09_0807))),
        ("[::1]:9099", "::1", Some(IpAddress::V6(1))),
        ("LOCALHOST:5001", "LOCALHOST", None),
    ] {
        let found = request_host(Some(value), None);
        assert_eq!(found.as_deref(), Some(host));
        assert!(loopback(found.as_deref(), ip));
    }
    let found = request_host(None, Some("[::1]:8080"));
    assert_eq!(found.as_deref(), Some("::1"));
    assert!(loopback(found.as_deref(), Some(IpAddress::V6(1))));
}

#[test]
fn rejects_missing_external_and_malformed_hosts() {
    assert!(!loopback(request_host(None, None).as_deref(), None));
    for (value, host, ip) in [
        ("attacker.example:8080", "attacker.example", None),
        ("0.0.0.0:8080", "0.0.0.0", Some(IpAddress::V4(0))),
        ("[::]:8080", "::", Some(IpAddress::V6(0))),
        ("127.0.0.1.example", "127.0.0.1.example", None),
    ] {
        let found = request_host(Some(value), None);
        assert_eq!(found.as_deref(), Some(host));
        assert!(!loopback(found.as_deref(), ip));
    }
    assert_eq!(request_host(Some("a b"), None), None);
}

#[test]
fn accepts_only_loopback_browser_origins() {
    for (value, host, ip) in [
        ("http://127.0.0.1:3000", "127.0.0.1", Some(IpAddress::V4(LOCALHOST))),
        ("https://127.1.2.3:8443", "127.1.2.3", Some(IpAddress::V4(0x7f01_0203))),
        ("http://[::1]:5173", "::1", Some(IpAddress::V6(1))),
        ("http://LOCALHOST:4173", "LOCALHOST", None),
    ] {
        let found = origin_host(value);
        assert_eq!(found.as_deref(), Some(host));
        assert!(serves_request(Some("localhost"), None, true, found.as_deref(), ip));
    }
    assert!(serves_request(Some("localhost"), None, false, None, None));
    for (value, ip) in [
        ("null", None),
        ("https://attacker.example", None),
        ("http://0.0.0.0:3000", Some(IpAddress::V4(0))),
        ("file://localhost/tmp/app.html", None),
        ("http://localhost:3000/not-an-origin", None),
    ] {
        let found = origin_host(value);
        assert!(!serves_request(Some("localhost"), None, true, found.as_deref(), ip));
    }
}

#[test]
fn address_defaults_to_loopback() {
    let at = |port: u16| Endpoint { ip: IpAddress::V4(LOCALHOST), port };
    let found = address(&environment(&[]), "FIRESTORE_EMU_PORT", 8080, Ok(at(0).ip));
    assert_eq!(found, Ok(at(8080)));
    let outside = address(&environment(&[]), "FIRESTORE_EMU_PORT", 8080, Ok(IpAddress::V4(0)));
    assert_eq!(
        outside.unwrap_err(),
        "FIREBASE_EMU_HOST must be a loopback IP address"
    );
    assert_eq!(
        parse_loopback_host("localhost", false, local()),
        Ok(IpAddress::V4(LOCALHOST))
    );
    assert_eq!(
        parse_loopback_host("here", false, None).unwrap_err(),
        "emulator host `here` must be an IP address or localhost"
    );
    assert_eq!(endpoint_text(Endpoint { ip: IpAddress::V6(1), port: 7 }), "[::1]:7");
}

#[test]
fn persistence_flags_are_mutually_exclusive() {
    let mut command = CommandLine::none();
    command.data_dir = Some("state".into());
    command.in_memory = true;
    assert!(validate_command_line(&command).unwrap_err().contains("cannot be used together"));
}

fn arguments(list: &[&str]) -> Vec<Option<String>> {
    list.iter().map(|a| Some(a.to_string())).collect()
}

#[test]
fn command_lines_are_read() {
    match command_line(&arguments(&[
        "--project",
        "demo-a",
        "--ui-port",
        "0",
        "--no-functions",
        "--runtime-config",
        "{\"a\":1}",
    ])) {
        Ok(Invocation::Run(command)) => {
            assert_eq!(command.functions.project.as_deref(), Some("demo-a"));
            assert_eq!(command.ui_port, Some(0));
            assert!(command.no_functions);
            assert_eq!(command.functions.runtime_config, Some(json("{\"a\":1}")));
        }
        _ => panic!("not a run"),
    }
    assert!(matches!(command_line(&arguments(&["--help"])), Ok(Invocation::Help)));
    let refused = |args: Vec<Option<String>>| command_line(&args).err().unwrap();
    assert_eq!(refused(arguments(&["--host"])), "--host requires a value");
    assert_eq!(refused(arguments(&["--x"])), "unknown option `--x` (use --help)");
    assert_eq!(refused(vec![None]), "command-line options must be valid UTF-8");
    assert_eq!(
        refused(vec![Some("--host".into()), None]),
        "--host must be valid UTF-8"
    );
    assert_eq!(
        refused(arguments(&["--data-dir", "a", "--in-memory"])),
        "--data-dir and --in-memory cannot be used together"
    );
    assert!(refused(arguments(&["--runtime-config", "{"]))
        .starts_with("malformed --runtime-config JSON: EOF"));
    assert_eq!(
        default_project(None, &None, &environment(&[("GCLOUD_PROJECT", "p")])),
        "p"
    );
}

#[test]
fn databases_are_taken_over_with_care() {
    assert_eq!(migrate(0, 0, 0), Ok(SchemaPlan::Create));
    assert_eq!(migrate(1, APPLICATION_ID, 9), Ok(SchemaPlan::Upgrade));
    assert_eq!(migrate(2, APPLICATION_ID, 9), Ok(SchemaPlan::Keep));
    assert_eq!(migrate(3, APPLICATION_ID, 9), Err(SchemaError::Newer(3)));
    assert_eq!(migrate(0, 0, 1), Err(SchemaError::Foreign));
    assert_eq!(migrate(1, 5, 1), Err(SchemaError::Foreign));
    assert!(outbox_has_room(4000, 96));
    assert!(!outbox_has_room(4000, 97));
}
