//! The project, the hosts and the ports of the emulators: what the command
//! line says comes first, then the environment, then files, then defaults.
use crate::accounts::copy_text;
use crate::json::{as_text_spec, opt_json, pointer, pointer2, pointer3, Json, JsonView};
use crate::loopback::{loopback_host_spec, parse_loopback_host, IpAddress, LOCALHOST};
use crate::ordered::{lookup, OrderedMap};
use crate::text::{
    all_digits, cat, cat3, chars_of, opt_text, parse_unsigned, parse_unsigned_spec, starts_with,
};
use vstd::prelude::*;

verus! {

/// The variables of the environment.
pub type EnvironmentView = Seq<(Seq<char>, Seq<char>)>;

/// What the command line overrides.
pub struct ConfigOverrides {
    pub project: Option<String>,
    pub host: Option<String>,
    pub functions_port: Option<u16>,
    pub pubsub_port: Option<u16>,
    pub functions_source: Option<String>,
    pub functions_codebase: Option<String>,
    pub functions_runtime: Option<String>,
    pub runtime_config: Option<Json>,
}

/// What [`ConfigOverrides`] stand for.
#[verifier::ext_equal]
pub struct OverridesView {
    pub project: Option<Seq<char>>,
    pub host: Option<Seq<char>>,
    pub functions_port: Option<u16>,
    pub pubsub_port: Option<u16>,
    pub functions_source: Option<Seq<char>>,
    pub functions_codebase: Option<Seq<char>>,
    pub functions_runtime: Option<Seq<char>>,
    pub runtime_config: Option<JsonView>,
}

/// The view of a value that may be missing.
pub open spec fn owned_json(v: Option<Json>) -> Option<JsonView> {
    match v {
        Some(x) => Some(x@),
        None => None,
    }
}

impl View for ConfigOverrides {
    type V = OverridesView;

    open spec fn view(&self) -> OverridesView {
        OverridesView {
            project: opt_text(self.project),
            host: opt_text(self.host),
            functions_port: self.functions_port,
            pubsub_port: self.pubsub_port,
            functions_source: opt_text(self.functions_source),
            functions_codebase: opt_text(self.functions_codebase),
            functions_runtime: opt_text(self.functions_runtime),
            runtime_config: owned_json(self.runtime_config),
        }
    }
}

impl ConfigOverrides {
    /// No overrides.
    pub open spec fn none_spec() -> OverridesView {
        OverridesView {
            project: None,
            host: None,
            functions_port: None,
            pubsub_port: None,
            functions_source: None,
            functions_codebase: None,
            functions_runtime: None,
            runtime_config: None,
        }
    }

    pub fn none() -> (r: ConfigOverrides)
        ensures
            r@ == ConfigOverrides::none_spec(),
    {
        ConfigOverrides {
            project: None,
            host: None,
            functions_port: None,
            pubsub_port: None,
            functions_source: None,
            functions_codebase: None,
            functions_runtime: None,
            runtime_config: None,
        }
    }
}

/// The first of two texts that is there.
pub open spec fn first_of(a: Option<Seq<char>>, b: Option<Seq<char>>) -> Option<Seq<char>> {
    if a is Some {
        a
    } else {
        b
    }
}

pub(crate) fn env_text(environment: &OrderedMap<String>, key: &str) -> (r: Option<String>)
    ensures
        opt_text(r) == lookup(environment@, key@),
{
    match environment.get(key) {
        Some(value) => Some(value.clone()),
        None => None,
    }
}

pub(crate) fn either_text(a: Option<String>, b: Option<String>) -> (r: Option<String>)
    ensures
        opt_text(r) == first_of(opt_text(a), opt_text(b)),
{
    match a {
        Some(text) => Some(text),
        None => b,
    }
}

/// The text at the end of a path.
pub open spec fn text_of_pointer(v: Option<JsonView>) -> Option<Seq<char>> {
    match v {
        Some(inner) => as_text_spec(inner),
        None => None,
    }
}

pub(crate) fn json_text(v: Option<&Json>) -> (r: Option<String>)
    ensures
        opt_text(r) == text_of_pointer(opt_json(v)),
{
    match v {
        Some(inner) => match inner.as_text() {
            Some(text) => Some(text.to_owned()),
            None => None,
        },
        None => None,
    }
}

/// Whether a project is one for local work: its id begins with `demo-` and is
/// made of small letters, digits and hyphens.
pub open spec fn is_demo_project(project: Seq<char>) -> bool {
    "demo-"@.is_prefix_of(project) && forall|i: int|
        0 <= i < project.len() ==> is_project_char(#[trigger] project[i])
}

/// A small letter, a digit or a hyphen.
pub open spec fn is_project_char(c: char) -> bool {
    ('a' <= c && c <= 'z') || ('0' <= c && c <= '9') || c == '-'
}

/// Why a project is refused.
pub open spec fn project_refused(project: Seq<char>) -> Seq<char> {
    "Functions requires a local `demo-` project ID, got `"@ + project + "`"@
}

/// Checks that a project is one for local work.
pub fn validate_demo_project(project: &str) -> (r: Result<(), String>)
    ensures
        match r {
            Ok(_) => is_demo_project(project@),
            Err(e) => !is_demo_project(project@) && e@ == project_refused(project@),
        },
{
    let chars = chars_of(project);
    let mut good = starts_with(project, "demo-");
    let mut i: usize = 0;
    while i < chars.len()
        invariant
            i <= chars@.len(),
            chars@ == project@,
            good == ("demo-"@.is_prefix_of(project@) && forall|j: int|
                0 <= j < i ==> is_project_char(#[trigger] project@[j])),
        decreases chars.len() - i,
    {
        let c: char = chars[i];
        let fits = ('a' <= c && c <= 'z') || ('0' <= c && c <= '9') || c == '-';
        if !fits {
            assert(!is_project_char(project@[i as int]));
            good = false;
        }
        i += 1;
    }
    if good {
        Ok(())
    } else {
        Err(cat3("Functions requires a local `demo-` project ID, got `", project, "`"))
    }
}

/// The project that is asked for: by the command line, the environment or the
/// file of projects, else a default one.
pub open spec fn project_candidate(
    cli: Option<Seq<char>>,
    environment: EnvironmentView,
    firebaserc: JsonView,
) -> Seq<char> {
    let named = first_of(
        cli,
        first_of(
            lookup(environment, "FIREBASE_EMU_PROJECT"@),
            first_of(
                lookup(environment, "GCLOUD_PROJECT"@),
                first_of(
                    lookup(environment, "GOOGLE_CLOUD_PROJECT"@),
                    text_of_pointer(pointer(firebaserc, seq!["projects"@, "default"@])),
                ),
            ),
        ),
    );
    match named {
        Some(project) => project,
        None => "demo-rust-emu"@,
    }
}

/// The project that is used: the one that is asked for, or the one that it is
/// an alias of. It must be one for local work.
pub open spec fn project_spec(
    cli: Option<Seq<char>>,
    environment: EnvironmentView,
    firebaserc: JsonView,
) -> Result<Seq<char>, Seq<char>> {
    let candidate = project_candidate(cli, environment, firebaserc);
    let project = match text_of_pointer(pointer(firebaserc, seq!["projects"@, candidate])) {
        Some(target) => target,
        None => candidate,
    };
    if is_demo_project(project) {
        Ok(project)
    } else {
        Err(project_refused(project))
    }
}

/// The view of an outcome in text.
pub open spec fn text_result(r: Result<String, String>) -> Result<Seq<char>, Seq<char>> {
    match r {
        Ok(t) => Ok(t@),
        Err(e) => Err(e@),
    }
}

/// Selects the project.
pub fn select_project(
    cli: &Option<String>,
    environment: &OrderedMap<String>,
    firebaserc: &Json,
) -> (r: Result<String, String>)
    ensures
        text_result(r) == project_spec(opt_text(*cli), environment@, firebaserc@),
{
    let named = either_text(
        copy_text(cli),
        either_text(
            env_text(environment, "FIREBASE_EMU_PROJECT"),
            either_text(
                env_text(environment, "GCLOUD_PROJECT"),
                either_text(
                    env_text(environment, "GOOGLE_CLOUD_PROJECT"),
                    json_text(pointer2(firebaserc, "projects", "default")),
                ),
            ),
        ),
    );
    let candidate = match named {
        Some(project) => project,
        None => "demo-rust-emu".to_owned(),
    };
    let project = match json_text(pointer2(firebaserc, "projects", candidate.as_str())) {
        Some(target) => target,
        None => candidate,
    };
    match validate_demo_project(project.as_str()) {
        Ok(()) => Ok(project),
        Err(e) => Err(e),
    }
}

/// A configured host, and whether a file names it.
pub struct HostText {
    pub host: String,
    pub from_file: bool,
}

/// The host that is configured for a service: by the command line or the
/// environment for all, else by the file.
pub open spec fn host_text_spec(
    cli: Option<Seq<char>>,
    environment: EnvironmentView,
    firebase: JsonView,
    service: Seq<char>,
) -> Option<(Seq<char>, bool)> {
    match first_of(cli, lookup(environment, "FIREBASE_EMU_HOST"@)) {
        Some(host) => Some((host, false)),
        None => match text_of_pointer(pointer(firebase, seq!["emulators"@, service, "host"@])) {
            Some(host) => Some((host, true)),
            None => None,
        },
    }
}

/// The view of a configured host.
pub open spec fn host_view(host: Option<HostText>) -> Option<(Seq<char>, bool)> {
    match host {
        Some(h) => Some((h.host@, h.from_file)),
        None => None,
    }
}

/// Finds the host that is configured for a service.
pub fn host_text(
    cli: &Option<String>,
    environment: &OrderedMap<String>,
    firebase: &Json,
    service: &str,
) -> (r: Option<HostText>)
    ensures
        host_view(r) == host_text_spec(opt_text(*cli), environment@, firebase@, service@),
{
    match either_text(copy_text(cli), env_text(environment, "FIREBASE_EMU_HOST")) {
        Some(host) => Some(HostText { host, from_file: false }),
        None => match json_text(pointer3(firebase, "emulators", service, "host")) {
            Some(host) => Some(HostText { host, from_file: true }),
            None => None,
        },
    }
}

/// The address that a service listens on, given the configured host and the
/// address that it is; the machine itself where none is configured.
pub open spec fn host_spec(
    configured: Option<(Seq<char>, bool)>,
    parsed: Option<IpAddress>,
) -> Result<IpAddress, Seq<char>> {
    match configured {
        Some(h) => loopback_host_spec(h.0, h.1, parsed),
        None => Ok(IpAddress::V4(LOCALHOST)),
    }
}

fn resolved_host(configured: &Option<HostText>, parsed: Option<IpAddress>) -> (r: Result<
    IpAddress,
    String,
>)
    ensures
        match r {
            Ok(ip) => host_spec(host_view(*configured), parsed) == Ok::<_, Seq<char>>(ip),
            Err(e) => host_spec(host_view(*configured), parsed) == Err::<IpAddress, _>(e@),
        },
{
    match configured {
        Some(h) => parse_loopback_host(h.host.as_str(), h.from_file, parsed),
        None => Ok(IpAddress::V4(LOCALHOST)),
    }
}

/// Why a text is no port.
pub open spec fn port_error(raw: Seq<char>) -> Seq<char> {
    let digits = if raw.len() > 0 && raw[0] == '+' {
        raw.skip(1)
    } else {
        raw
    };
    if raw.len() == 0 {
        "cannot parse integer from empty string"@
    } else if all_digits(digits) {
        "number too large to fit in target type"@
    } else {
        "invalid digit found in string"@
    }
}

/// The port that a text names, or why it names none.
pub open spec fn port_of_text(raw: Seq<char>) -> Result<u16, Seq<char>> {
    match parse_unsigned_spec(raw, u16::MAX as nat) {
        Some(n) => Ok(n as u16),
        None => Err(port_error(raw)),
    }
}

fn digits_only(chars: &Vec<char>, from: usize) -> (r: bool)
    requires
        from <= chars@.len(),
    ensures
        r == all_digits(chars@.skip(from as int)),
{
    let ghost digits = chars@.skip(from as int);
    let mut i: usize = from;
    while i < chars.len()
        invariant
            from <= i <= chars@.len(),
            digits == chars@.skip(from as int),
            forall|j: int| 0 <= j < i - from ==> '0' <= #[trigger] digits[j] && digits[j] <= '9',
        decreases chars.len() - i,
    {
        let c: char = chars[i];
        if !('0' <= c && c <= '9') {
            assert(digits[i - from] == c);
            return false;
        }
        i += 1;
    }
    from < chars.len()
}

/// Reads a port.
pub fn parse_port(raw: &str) -> (r: Result<u16, String>)
    ensures
        match r {
            Ok(port) => port_of_text(raw@) == Ok::<_, Seq<char>>(port),
            Err(e) => port_of_text(raw@) == Err::<u16, _>(e@),
        },
{
    match parse_unsigned(raw, 65535) {
        Some(n) => Ok(n as u16),
        None => {
            let chars = chars_of(raw);
            if chars.len() == 0 {
                return Err("cannot parse integer from empty string".to_owned());
            }
            let from: usize = if chars[0] == '+' {
                1
            } else {
                0
            };
            assert(from == 0 ==> raw@.skip(0) =~= raw@);
            if !digits_only(&chars, from) {
                return Err("invalid digit found in string".to_owned());
            }
            Err("number too large to fit in target type".to_owned())
        },
    }
}

/// The port that a variable of the environment names, if it is set.
pub open spec fn env_port_spec(environment: EnvironmentView, key: Seq<char>) -> Result<
    Option<u16>,
    Seq<char>,
> {
    match lookup(environment, key) {
        None => Ok(None),
        Some(raw) => match port_of_text(raw) {
            Ok(port) => Ok(Some(port)),
            Err(e) => Err("invalid "@ + key + ": "@ + e),
        },
    }
}

/// The view of an outcome of numbers.
pub open spec fn number_result<T>(r: Result<T, String>) -> Result<T, Seq<char>> {
    match r {
        Ok(n) => Ok(n),
        Err(e) => Err(e@),
    }
}

/// Reads a port from the environment.
pub fn env_port(environment: &OrderedMap<String>, key: &str) -> (r: Result<Option<u16>, String>)
    ensures
        number_result(r) == env_port_spec(environment@, key@),
{
    match environment.get(key) {
        None => Ok(None),
        Some(raw) => match parse_port(raw.as_str()) {
            Ok(port) => Ok(Some(port)),
            Err(e) => {
                let mut message = cat3("invalid ", key, ": ");
                message.append(e.as_str());
                Err(message)
            },
        },
    }
}

/// The port that the file names for a service, if it names one; it must not be
/// zero.
pub open spec fn json_port_spec(firebase: JsonView, service: Seq<char>) -> Result<
    Option<u16>,
    Seq<char>,
> {
    match pointer(firebase, seq!["emulators"@, service, "port"@]) {
        None => Ok(None),
        Some(v) => match v {
            JsonView::Unsigned(n) => if 1 <= n <= 65535 {
                Ok(Some(n as u16))
            } else {
                Err(bad_json_port(service))
            },
            _ => Err(bad_json_port(service)),
        },
    }
}

/// Why the port of a service in the file is refused.
pub open spec fn bad_json_port(service: Seq<char>) -> Seq<char> {
    "firebase.json emulator `"@ + service + "` port must be an integer between 1 and 65535"@
}

/// Reads the port of a service from the file.
pub fn json_port(firebase: &Json, service: &str) -> (r: Result<Option<u16>, String>)
    ensures
        number_result(r) == json_port_spec(firebase@, service@),
{
    let named = match pointer3(firebase, "emulators", service, "port") {
        None => {
            return Ok(None);
        },
        Some(Json::Unsigned(n)) => Some(*n),
        Some(_) => None,
    };
    match named {
        Some(n) => if 1 <= n && n <= 65535 {
            Ok(Some(n as u16))
        } else {
            Err(
                cat3(
                    "firebase.json emulator `",
                    service,
                    "` port must be an integer between 1 and 65535",
                ),
            )
        },
        None => Err(
            cat3(
                "firebase.json emulator `",
                service,
                "` port must be an integer between 1 and 65535",
            ),
        ),
    }
}

/// The port of a service: that of the environment, else that of the file, else
/// the default.
pub open spec fn selected_port_spec(
    environment: EnvironmentView,
    firebase: JsonView,
    key: Seq<char>,
    service: Seq<char>,
    default: u16,
) -> Result<u16, Seq<char>> {
    match env_port_spec(environment, key) {
        Err(e) => Err(e),
        Ok(env) => match json_port_spec(firebase, service) {
            Err(e) => Err(e),
            Ok(file) => {
                let port = match env {
                    Some(p) => p,
                    None => match file {
                        Some(p) => p,
                        None => default,
                    },
                };
                if port == 0 {
                    Err(key + " must be between 1 and 65535"@)
                } else {
                    Ok(port)
                }
            },
        },
    }
}

/// Selects the port of a service.
pub fn selected_port(
    environment: &OrderedMap<String>,
    firebase: &Json,
    key: &str,
    service: &str,
    default: u16,
) -> (r: Result<u16, String>)
    ensures
        number_result(r) == selected_port_spec(environment@, firebase@, key@, service@, default),
{
    let env: Option<u16> = match env_port(environment, key) {
        Ok(port) => port,
        Err(e) => {
            return Err(e);
        },
    };
    let file: Option<u16> = match json_port(firebase, service) {
        Ok(port) => port,
        Err(e) => {
            return Err(e);
        },
    };
    let port: u16 = match env {
        Some(p) => p,
        None => match file {
            Some(p) => p,
            None => default,
        },
    };
    if port == 0 {
        Err(cat(key, " must be between 1 and 65535"))
    } else {
        Ok(port)
    }
}

/// An address and a port.
#[derive(Clone, Copy, PartialEq, Eq, Debug, Structural)]
pub struct Endpoint {
    pub ip: IpAddress,
    pub port: u16,
}

/// Where the emulators listen.
#[derive(Clone, Copy, PartialEq, Eq, Debug, Structural)]
pub struct EmulatorAddresses {
    pub functions: Endpoint,
    pub firestore: Endpoint,
    pub auth: Endpoint,
    pub storage: Endpoint,
    pub database: Endpoint,
    pub pubsub: Endpoint,
}

/// The port of the functions.
pub open spec fn functions_port_spec(
    cli: Option<u16>,
    environment: EnvironmentView,
    firebase: JsonView,
) -> Result<u16, Seq<char>> {
    match env_port_spec(environment, "FIREBASE_FUNCTIONS_EMU_PORT"@) {
        Err(e) => Err(e),
        Ok(env) => match json_port_spec(firebase, "functions"@) {
            Err(e) => Err(e),
            Ok(file) => {
                let port = match cli {
                    Some(p) => p,
                    None => match env {
                        Some(p) => p,
                        None => match file {
                            Some(p) => p,
                            None => 5001,
                        },
                    },
                };
                if port == 0 {
                    Err("Functions emulator port must be between 1 and 65535"@)
                } else {
                    Ok(port)
                }
            },
        },
    }
}

fn functions_port(cli: Option<u16>, environment: &OrderedMap<String>, firebase: &Json) -> (r: Result<
    u16,
    String,
>)
    ensures
        number_result(r) == functions_port_spec(cli, environment@, firebase@),
{
    let env: Option<u16> = match env_port(environment, "FIREBASE_FUNCTIONS_EMU_PORT") {
        Ok(port) => port,
        Err(e) => {
            return Err(e);
        },
    };
    let file: Option<u16> = match json_port(firebase, "functions") {
        Ok(port) => port,
        Err(e) => {
            return Err(e);
        },
    };
    let port: u16 = match cli {
        Some(p) => p,
        None => match env {
            Some(p) => p,
            None => match file {
                Some(p) => p,
                None => 5001,
            },
        },
    };
    if port == 0 {
        Err("Functions emulator port must be between 1 and 65535".to_owned())
    } else {
        Ok(port)
    }
}

/// The address of the message service, where the functions run: that of all
/// services where one is named for all, else its own, else that of the
/// functions.
pub open spec fn pubsub_host_spec(
    cli: Option<Seq<char>>,
    environment: EnvironmentView,
    firebase: JsonView,
    host: IpAddress,
    parsed: Option<IpAddress>,
) -> Result<IpAddress, Seq<char>> {
    if first_of(cli, lookup(environment, "FIREBASE_EMU_HOST"@)) is Some {
        Ok(host)
    } else {
        match text_of_pointer(pointer(firebase, seq!["emulators"@, "pubsub"@, "host"@])) {
            Some(text) => loopback_host_spec(text, true, parsed),
            None => Ok(host),
        }
    }
}

fn pubsub_host(
    cli: &Option<String>,
    environment: &OrderedMap<String>,
    firebase: &Json,
    host: IpAddress,
    parsed: Option<IpAddress>,
) -> (r: Result<IpAddress, String>)
    ensures
        number_result(r) == pubsub_host_spec(
            opt_text(*cli),
            environment@,
            firebase@,
            host,
            parsed,
        ),
{
    if either_text(copy_text(cli), env_text(environment, "FIREBASE_EMU_HOST")).is_some() {
        return Ok(host);
    }
    match json_text(pointer3(firebase, "emulators", "pubsub", "host")) {
        Some(text) => parse_loopback_host(text.as_str(), true, parsed),
        None => Ok(host),
    }
}

/// Where the emulators listen, given the addresses that the configured hosts
/// of the functions and of the message service are; or the first thing that
/// is wrong.
pub open spec fn addresses_spec(
    cli: OverridesView,
    environment: EnvironmentView,
    firebase: JsonView,
    host_ip: Option<IpAddress>,
    pubsub_ip: Option<IpAddress>,
) -> Result<EmulatorAddresses, Seq<char>> {
    match host_spec(host_text_spec(cli.host, environment, firebase, "functions"@), host_ip) {
        Err(e) => Err(e),
        Ok(ip) => match functions_port_spec(cli.functions_port, environment, firebase) {
            Err(e) => Err(e),
            Ok(functions) => match selected_port_spec(
                environment,
                firebase,
                "FIRESTORE_EMU_PORT"@,
                "firestore"@,
                8080,
            ) {
                Err(e) => Err(e),
                Ok(firestore) => match selected_port_spec(
                    environment,
                    firebase,
                    "FIREBASE_AUTH_EMU_PORT"@,
                    "auth"@,
                    9099,
                ) {
                    Err(e) => Err(e),
                    Ok(auth) => match selected_port_spec(
                        environment,
                        firebase,
                        "FIREBASE_STORAGE_EMU_PORT"@,
                        "storage"@,
                        9199,
                    ) {
                        Err(e) => Err(e),
                        Ok(storage) => match selected_port_spec(
                            environment,
                            firebase,
                            "FIREBASE_DATABASE_EMU_PORT"@,
                            "database"@,
                            9000,
                        ) {
                            Err(e) => Err(e),
                            Ok(database) => match pubsub_endpoint_spec(
                                cli,
                                environment,
                                firebase,
                                ip,
                                pubsub_ip,
                            ) {
                                Err(e) => Err(e),
                                Ok(pubsub) => Ok(
                                    EmulatorAddresses {
                                        functions: Endpoint { ip, port: functions },
                                        firestore: Endpoint { ip, port: firestore },
                                        auth: Endpoint { ip, port: auth },
                                        storage: Endpoint { ip, port: storage },
                                        database: Endpoint { ip, port: database },
                                        pubsub,
                                    },
                                ),
                            },
                        },
                    },
                },
            },
        },
    }
}

/// Where the message service listens, where the functions run.
pub open spec fn pubsub_endpoint_spec(
    cli: OverridesView,
    environment: EnvironmentView,
    firebase: JsonView,
    ip: IpAddress,
    pubsub_ip: Option<IpAddress>,
) -> Result<Endpoint, Seq<char>> {
    match pubsub_host_spec(cli.host, environment, firebase, ip, pubsub_ip) {
        Err(e) => Err(e),
        Ok(host) => match selected_port_spec(
            environment,
            firebase,
            "PUBSUB_EMULATOR_PORT"@,
            "pubsub"@,
            8085,
        ) {
            Err(e) => Err(e),
            Ok(port) => Ok(
                Endpoint {
                    ip: host,
                    port: match cli.pubsub_port {
                        Some(p) => p,
                        None => port,
                    },
                },
            ),
        },
    }
}

fn pubsub_endpoint(
    cli: &ConfigOverrides,
    environment: &OrderedMap<String>,
    firebase: &Json,
    ip: IpAddress,
    pubsub_ip: Option<IpAddress>,
) -> (r: Result<Endpoint, String>)
    ensures
        number_result(r) == pubsub_endpoint_spec(cli@, environment@, firebase@, ip, pubsub_ip),
{
    let host = match pubsub_host(&cli.host, environment, firebase, ip, pubsub_ip) {
        Ok(host) => host,
        Err(e) => {
            return Err(e);
        },
    };
    match selected_port(environment, firebase, "PUBSUB_EMULATOR_PORT", "pubsub", 8085) {
        Ok(port) => Ok(
            Endpoint {
                ip: host,
                port: match cli.pubsub_port {
                    Some(p) => p,
                    None => port,
                },
            },
        ),
        Err(e) => Err(e),
    }
}

/// Decides where the emulators listen.
pub fn load_addresses(
    cli: &ConfigOverrides,
    environment: &OrderedMap<String>,
    firebase: &Json,
    host_ip: Option<IpAddress>,
    pubsub_ip: Option<IpAddress>,
) -> (r: Result<EmulatorAddresses, String>)
    ensures
        number_result(r) == addresses_spec(cli@, environment@, firebase@, host_ip, pubsub_ip),
{
    let configured = host_text(&cli.host, environment, firebase, "functions");
    let ip = match resolved_host(&configured, host_ip) {
        Ok(ip) => ip,
        Err(e) => {
            return Err(e);
        },
    };
    let functions: u16 = match functions_port(cli.functions_port, environment, firebase) {
        Ok(port) => port,
        Err(e) => {
            return Err(e);
        },
    };
    let firestore: u16 = match selected_port(
        environment,
        firebase,
        "FIRESTORE_EMU_PORT",
        "firestore",
        8080,
    ) {
        Ok(port) => port,
        Err(e) => {
            return Err(e);
        },
    };
    let auth: u16 = match selected_port(
        environment,
        firebase,
        "FIREBASE_AUTH_EMU_PORT",
        "auth",
        9099,
    ) {
        Ok(port) => port,
        Err(e) => {
            return Err(e);
        },
    };
    let storage: u16 = match selected_port(
        environment,
        firebase,
        "FIREBASE_STORAGE_EMU_PORT",
        "storage",
        9199,
    ) {
        Ok(port) => port,
        Err(e) => {
            return Err(e);
        },
    };
    let database: u16 = match selected_port(
        environment,
        firebase,
        "FIREBASE_DATABASE_EMU_PORT",
        "database",
        9000,
    ) {
        Ok(port) => port,
        Err(e) => {
            return Err(e);
        },
    };
    match pubsub_endpoint(cli, environment, firebase, ip, pubsub_ip) {
        Ok(pubsub) => Ok(
            EmulatorAddresses {
                functions: Endpoint { ip, port: functions },
                firestore: Endpoint { ip, port: firestore },
                auth: Endpoint { ip, port: auth },
                storage: Endpoint { ip, port: storage },
                database: Endpoint { ip, port: database },
                pubsub,
            },
        ),
        Err(e) => Err(e),
    }
}

/// Every emulator listens on the machine itself and on a port of its own
/// choice, but for that of a message service whose port the command line sets
/// to zero.
pub proof fn addresses_are_local(
    cli: OverridesView,
    environment: EnvironmentView,
    firebase: JsonView,
    host_ip: Option<IpAddress>,
    pubsub_ip: Option<IpAddress>,
)
    ensures
        addresses_spec(cli, environment, firebase, host_ip, pubsub_ip) matches Ok(a) ==> {
            &&& a.functions.ip.is_loopback_spec() && a.functions.port != 0
            &&& a.firestore.ip.is_loopback_spec() && a.firestore.port != 0
            &&& a.auth.ip.is_loopback_spec() && a.auth.port != 0
            &&& a.storage.ip.is_loopback_spec() && a.storage.port != 0
            &&& a.database.ip.is_loopback_spec() && a.database.port != 0
            &&& a.pubsub.ip.is_loopback_spec()
            &&& cli.pubsub_port != Some(0u16) ==> a.pubsub.port != 0
        },
{
}

/// Where the message service listens without functions.
pub open spec fn pubsub_address_spec(
    cli: OverridesView,
    environment: EnvironmentView,
    firebase: JsonView,
    parsed: Option<IpAddress>,
) -> Result<Endpoint, Seq<char>> {
    match host_spec(host_text_spec(cli.host, environment, firebase, "pubsub"@), parsed) {
        Err(e) => Err(e),
        Ok(ip) => match selected_port_spec(
            environment,
            firebase,
            "PUBSUB_EMULATOR_PORT"@,
            "pubsub"@,
            8085,
        ) {
            Err(e) => Err(e),
            Ok(selected) => {
                let port = match cli.pubsub_port {
                    Some(p) => p,
                    None => selected,
                };
                if port == 0 {
                    Err("Pub/Sub emulator port must be between 1 and 65535"@)
                } else {
                    Ok(Endpoint { ip, port })
                }
            },
        },
    }
}

/// Decides where the message service listens without functions, given the
/// address that its configured host is.
pub fn load_pubsub_address(
    cli: &ConfigOverrides,
    environment: &OrderedMap<String>,
    firebase: &Json,
    parsed: Option<IpAddress>,
) -> (r: Result<Endpoint, String>)
    ensures
        number_result(r) == pubsub_address_spec(cli@, environment@, firebase@, parsed),
{
    let configured = host_text(&cli.host, environment, firebase, "pubsub");
    let ip = match resolved_host(&configured, parsed) {
        Ok(ip) => ip,
        Err(e) => {
            return Err(e);
        },
    };
    let selected: u16 = match selected_port(
        environment,
        firebase,
        "PUBSUB_EMULATOR_PORT",
        "pubsub",
        8085,
    ) {
        Ok(port) => port,
        Err(e) => {
            return Err(e);
        },
    };
    let port: u16 = match cli.pubsub_port {
        Some(p) => p,
        None => selected,
    };
    if port == 0 {
        Err("Pub/Sub emulator port must be between 1 and 65535".to_owned())
    } else {
        Ok(Endpoint { ip, port })
    }
}

/// The port of the console in the file; zero asks for any that is free.
pub open spec fn ui_port_spec(firebase: JsonView) -> Result<Option<u16>, Seq<char>> {
    match pointer(firebase, seq!["emulators"@, "ui"@, "port"@]) {
        None => Ok(None),
        Some(v) => match v {
            JsonView::Unsigned(n) => if n <= 65535 {
                Ok(Some(n as u16))
            } else {
                Err("firebase.json emulator `ui` port must be an integer between 0 and 65535"@)
            },
            _ => Err("firebase.json emulator `ui` port must be an integer between 0 and 65535"@),
        },
    }
}

fn ui_port(firebase: &Json) -> (r: Result<Option<u16>, String>)
    ensures
        number_result(r) == ui_port_spec(firebase@),
{
    match pointer3(firebase, "emulators", "ui", "port") {
        None => Ok(None),
        Some(v) => {
            if let Json::Unsigned(n) = v {
                if *n <= 65535 {
                    return Ok(Some(*n as u16));
                }
            }
            Err(
                "firebase.json emulator `ui` port must be an integer between 0 and 65535".to_owned(),
            )
        },
    }
}

/// Where the console listens.
pub open spec fn ui_address_spec(
    cli_port: Option<u16>,
    cli_host: Option<Seq<char>>,
    environment: EnvironmentView,
    firebase: JsonView,
    parsed: Option<IpAddress>,
) -> Result<Endpoint, Seq<char>> {
    match host_spec(host_text_spec(cli_host, environment, firebase, "ui"@), parsed) {
        Err(e) => Err(e),
        Ok(ip) => match ui_port_spec(firebase) {
            Err(e) => Err(e),
            Ok(file) => match env_port_spec(environment, "FIREBASE_UI_EMU_PORT"@) {
                Err(e) => Err(e),
                Ok(env) => Ok(
                    Endpoint {
                        ip,
                        port: match cli_port {
                            Some(p) => p,
                            None => match env {
                                Some(p) => p,
                                None => match file {
                                    Some(p) => p,
                                    None => 4000,
                                },
                            },
                        },
                    },
                ),
            },
        },
    }
}

/// Decides where the console listens, given the address that its configured
/// host is.
pub fn load_ui_address(
    cli_port: Option<u16>,
    cli_host: &Option<String>,
    environment: &OrderedMap<String>,
    firebase: &Json,
    parsed: Option<IpAddress>,
) -> (r: Result<Endpoint, String>)
    ensures
        number_result(r) == ui_address_spec(
            cli_port,
            opt_text(*cli_host),
            environment@,
            firebase@,
            parsed,
        ),
{
    let configured = host_text(cli_host, environment, firebase, "ui");
    let ip = match resolved_host(&configured, parsed) {
        Ok(ip) => ip,
        Err(e) => {
            return Err(e);
        },
    };
    let file: Option<u16> = match ui_port(firebase) {
        Ok(port) => port,
        Err(e) => {
            return Err(e);
        },
    };
    let env: Option<u16> = match env_port(environment, "FIREBASE_UI_EMU_PORT") {
        Ok(port) => port,
        Err(e) => {
            return Err(e);
        },
    };
    let port: u16 = match cli_port {
        Some(p) => p,
        None => match env {
            Some(p) => p,
            None => match file {
                Some(p) => p,
                None => 4000,
            },
        },
    };
    Ok(Endpoint { ip, port })
}

/// The host of the services without functions.
pub fn plain_host(environment: &OrderedMap<String>) -> (r: String)
    ensures
        r@ == match lookup(environment@, "FIREBASE_EMU_HOST"@) {
            Some(host) => host,
            None => "127.0.0.1"@,
        },
{
    match environment.get("FIREBASE_EMU_HOST") {
        Some(host) => host.clone(),
        None => "127.0.0.1".to_owned(),
    }
}

/// Where a service listens without functions, given its default port, the
/// address that the configured host is and what the address could not be read
/// for.
pub open spec fn plain_address_spec(
    environment: EnvironmentView,
    port_variable: Seq<char>,
    default_port: u16,
    parsed: Result<IpAddress, Seq<char>>,
) -> Result<Endpoint, Seq<char>> {
    match parsed {
        Err(e) => Err(e),
        Ok(ip) => if !ip.is_loopback_spec() {
            Err("FIREBASE_EMU_HOST must be a loopback IP address"@)
        } else {
            match lookup(environment, port_variable) {
                None => Ok(Endpoint { ip, port: default_port }),
                Some(raw) => match port_of_text(raw) {
                    Ok(port) => Ok(Endpoint { ip, port }),
                    Err(e) => Err(e),
                },
            }
        },
    }
}

/// Decides where a service listens without functions.
pub fn address(
    environment: &OrderedMap<String>,
    port_variable: &str,
    default_port: u16,
    parsed: Result<IpAddress, String>,
) -> (r: Result<Endpoint, String>)
    ensures
        number_result(r) == plain_address_spec(
            environment@,
            port_variable@,
            default_port,
            number_result(parsed),
        ),
{
    let ip = match parsed {
        Ok(ip) => ip,
        Err(e) => {
            return Err(e);
        },
    };
    if !ip.is_loopback() {
        return Err("FIREBASE_EMU_HOST must be a loopback IP address".to_owned());
    }
    match environment.get(port_variable) {
        None => Ok(Endpoint { ip, port: default_port }),
        Some(raw) => match parse_port(raw.as_str()) {
            Ok(port) => Ok(Endpoint { ip, port }),
            Err(e) => Err(e),
        },
    }
}

} // verus!
