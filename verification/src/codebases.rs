//! The codebases of functions, and the whole configuration of a project with
//! functions.
use crate::accounts::copy_text;
use crate::dotenv::{
    dotenv_spec, merge_objects, merge_spec, overlaid_values, overlay_values, overridden,
    override_values, parse_dotenv,
};
use crate::json::{
    as_text_spec, at, empty_object, items_view, json_array_view, json_error_text, json_object_view,
    json_of_text, member, members_view, object1, parse_json_or_error, pointer, pointer2,
    with_member, Json, JsonView, MembersView,
};
use crate::ordered::{lookup, OrderedMap};
use crate::settings::{
    either_text, env_text, first_of, json_text, owned_json, text_of_pointer, text_result,
    ConfigOverrides, EnvironmentView, OverridesView,
};
use crate::text::{
    cat, cat3, chars_of, decimal, decimal_spec, opt_text, same, split_spec, starts_with, texts,
};
use crate::web_values::single;
use vstd::prelude::*;

verus! {

/// A text as JSON, null where it is missing.
fn text_json(text: Option<String>) -> (r: Json)
    ensures
        r@ == crate::accounts::text_or_null(opt_text(text)),
{
    match text {
        Some(t) => Json::Text(t),
        None => Json::Null,
    }
}

/// What is set from outside for every codebase: by the command line, else by
/// the environment.
pub open spec fn override_of(
    cli: Option<Seq<char>>,
    environment: EnvironmentView,
    key: Seq<char>,
) -> Option<Seq<char>> {
    first_of(cli, lookup(environment, key))
}

/// The configurations of functions: one that is set from outside, else those
/// of the file, else one of the default directory.
pub open spec fn entries_spec(
    cli: OverridesView,
    environment: EnvironmentView,
    firebase: JsonView,
) -> Result<Seq<JsonView>, Seq<char>> {
    match override_of(cli.functions_source, environment, "FIREBASE_FUNCTIONS_SOURCE"@) {
        Some(source) => Ok(
            seq![
                with_member(
                    with_member(
                        object1("source"@, JsonView::Text(source)),
                        "codebase"@,
                        crate::accounts::text_or_null(
                            override_of(
                                cli.functions_codebase,
                                environment,
                                "FIREBASE_FUNCTIONS_CODEBASE"@,
                            ),
                        ),
                    ),
                    "runtime"@,
                    crate::accounts::text_or_null(
                        override_of(
                            cli.functions_runtime,
                            environment,
                            "FIREBASE_FUNCTIONS_RUNTIME"@,
                        ),
                    ),
                ),
            ],
        ),
        None => match member(firebase, "functions"@) {
            Some(JsonView::Array(items)) => if items.len() == 0 {
                Err("firebase.json `functions` array must not be empty"@)
            } else {
                Ok(items)
            },
            Some(JsonView::Object(members)) => Ok(seq![JsonView::Object(members)]),
            Some(_) => Err("firebase.json `functions` must be an object or array"@),
            None => Ok(seq![object1("source"@, JsonView::Text("functions"@))]),
        },
    }
}

/// The view of an outcome in values.
pub open spec fn items_result(r: Result<Vec<Json>, String>) -> Result<Seq<JsonView>, Seq<char>> {
    match r {
        Ok(items) => Ok(items_view(items@)),
        Err(e) => Err(e@),
    }
}

/// Finds the configurations of functions.
pub fn function_entries(cli: &ConfigOverrides, environment: &OrderedMap<String>, firebase: &Json)
    -> (r: Result<Vec<Json>, String>)
    ensures
        items_result(r) == entries_spec(cli@, environment@, firebase@),
        r is Ok ==> r->Ok_0@.len() > 0,
{
    let source = either_text(
        copy_text(&cli.functions_source),
        env_text(environment, "FIREBASE_FUNCTIONS_SOURCE"),
    );
    let codebase = either_text(
        copy_text(&cli.functions_codebase),
        env_text(environment, "FIREBASE_FUNCTIONS_CODEBASE"),
    );
    let runtime = either_text(
        copy_text(&cli.functions_runtime),
        env_text(environment, "FIREBASE_FUNCTIONS_RUNTIME"),
    );
    let mut one: Vec<Json> = Vec::new();
    if let Some(path) = source {
        let entry = single("source", Json::Text(path)).with("codebase", text_json(codebase)).with(
            "runtime",
            text_json(runtime),
        );
        one.push(entry);
        assert(items_view(one@) =~= seq![entry@]);
        return Ok(one);
    }
    match firebase.get("functions") {
        None => {
            let entry = single("source", Json::of_text("functions"));
            one.push(entry);
            assert(items_view(one@) =~= seq![entry@]);
            Ok(one)
        },
        Some(configured) => match configured {
            Json::Array(items) => {
                proof {
                    json_array_view(*items);
                }
                if items.len() == 0 {
                    Err("firebase.json `functions` array must not be empty".to_owned())
                } else {
                    Ok(crate::accounts::copy_items(items))
                }
            },
            Json::Object(members) => {
                proof {
                    json_object_view(*members);
                }
                let entry = configured.duplicate();
                one.push(entry);
                assert(items_view(one@) =~= seq![entry@]);
                Ok(one)
            },
            _ => Err("firebase.json `functions` must be an object or array".to_owned()),
        },
    }
}

/// A directory of functions as it was found: its path in full, the parts of
/// the path, and whether it holds the file of a package.
pub struct ResolvedSource {
    pub display: String,
    pub components: Vec<String>,
    pub has_package: bool,
}

/// What a [`ResolvedSource`] stands for.
#[verifier::ext_equal]
pub struct ResolvedView {
    pub display: Seq<char>,
    pub components: Seq<Seq<char>>,
    pub has_package: bool,
}

impl View for ResolvedSource {
    type V = ResolvedView;

    open spec fn view(&self) -> ResolvedView {
        ResolvedView {
            display: self.display@,
            components: texts(self.components@),
            has_package: self.has_package,
        }
    }
}

/// The view of an outcome of looking for a directory.
pub open spec fn resolved_result(r: Result<ResolvedSource, String>) -> Result<
    ResolvedView,
    Seq<char>,
> {
    match r {
        Ok(found) => Ok(found@),
        Err(e) => Err(e@),
    }
}

/// Why a directory of functions is refused, if it is: it must be named
/// relative to the project, be found, lie within the project and hold the file
/// of a package.
pub open spec fn source_refused(
    root: Seq<Seq<char>>,
    source: Seq<char>,
    is_absolute: bool,
    resolved: Result<ResolvedView, Seq<char>>,
) -> Option<Seq<char>> {
    if is_absolute {
        Some("Functions source must be relative to the Firebase project"@)
    } else {
        match resolved {
            Err(e) => Some("invalid Functions source "@ + source + ": "@ + e),
            Ok(found) => if !root.is_prefix_of(found.components) {
                Some("Functions source escapes project root: "@ + source)
            } else if !found.has_package {
                Some("Functions source has no package.json: "@ + found.display)
            } else {
                None
            },
        }
    }
}

fn is_within(root: &Vec<String>, components: &Vec<String>) -> (r: bool)
    ensures
        r == texts(root@).is_prefix_of(texts(components@)),
{
    let ghost a = texts(root@);
    let ghost b = texts(components@);
    if root.len() > components.len() {
        return false;
    }
    let mut i: usize = 0;
    while i < root.len()
        invariant
            i <= root@.len() <= components@.len(),
            a == texts(root@),
            b == texts(components@),
            forall|j: int| 0 <= j < i ==> a[j] == b[j],
        decreases root.len() - i,
    {
        assert(a[i as int] == root@[i as int]@ && b[i as int] == components@[i as int]@);
        if !same(root[i].as_str(), components[i].as_str()) {
            assert(b.take(a.len() as int)[i as int] == b[i as int]);
            return false;
        }
        i += 1;
    }
    assert(b.take(a.len() as int) =~= a);
    true
}

/// Checks a directory of functions.
pub fn confined_source(
    root: &Vec<String>,
    source: &str,
    is_absolute: bool,
    resolved: &Result<ResolvedSource, String>,
) -> (r: Result<(), String>)
    ensures
        match r {
            Ok(_) => source_refused(
                texts(root@),
                source@,
                is_absolute,
                resolved_result(*resolved),
            ) is None,
            Err(e) => source_refused(
                texts(root@),
                source@,
                is_absolute,
                resolved_result(*resolved),
            ) == Some(e@),
        },
{
    if is_absolute {
        return Err("Functions source must be relative to the Firebase project".to_owned());
    }
    match resolved {
        Err(e) => {
            let mut message = cat3("invalid Functions source ", source, ": ");
            message.append(e.as_str());
            Err(message)
        },
        Ok(found) => if !is_within(root, &found.components) {
            Err(cat("Functions source escapes project root: ", source))
        } else if !found.has_package {
            Err(cat("Functions source has no package.json: ", found.display.as_str()))
        } else {
            Ok(())
        },
    }
}

/// A directory of functions that is accepted lies within the project.
pub proof fn sources_stay_inside(
    root: Seq<Seq<char>>,
    source: Seq<char>,
    is_absolute: bool,
    resolved: Result<ResolvedView, Seq<char>>,
)
    ensures
        source_refused(root, source, is_absolute, resolved) is None ==> !is_absolute
            && resolved is Ok && root.is_prefix_of(resolved->Ok_0.components),
{
}

/// Whether a text can name a codebase: letters, digits, hyphens and
/// underscores of ASCII.
pub open spec fn is_codebase(name: Seq<char>) -> bool {
    name.len() > 0 && forall|i: int|
        0 <= i < name.len() ==> is_codebase_char(#[trigger] name[i])
}

/// A letter, a digit, a hyphen or an underscore of ASCII.
pub open spec fn is_codebase_char(c: char) -> bool {
    ('a' <= c && c <= 'z') || ('A' <= c && c <= 'Z') || ('0' <= c && c <= '9') || c == '-' || c
        == '_'
}

/// Checks the name of a codebase.
pub fn validate_codebase(codebase: &str) -> (r: Result<(), String>)
    ensures
        match r {
            Ok(_) => is_codebase(codebase@),
            Err(e) => !is_codebase(codebase@) && e@ == "invalid Functions codebase `"@ + codebase@
                + "`"@,
        },
{
    let chars = chars_of(codebase);
    let mut good = chars.len() > 0;
    let mut i: usize = 0;
    while i < chars.len()
        invariant
            i <= chars@.len(),
            chars@ == codebase@,
            good == (codebase@.len() > 0 && forall|j: int|
                0 <= j < i ==> is_codebase_char(#[trigger] codebase@[j])),
        decreases chars.len() - i,
    {
        let c: char = chars[i];
        let fits = ('a' <= c && c <= 'z') || ('A' <= c && c <= 'Z') || ('0' <= c && c <= '9') || c
            == '-' || c == '_';
        if !fits {
            assert(!is_codebase_char(codebase@[i as int]));
            good = false;
        }
        i += 1;
    }
    if good {
        Ok(())
    } else {
        Err(cat3("invalid Functions codebase `", codebase, "`"))
    }
}

/// A text without blanks and the letter v.
pub open spec fn compact_spec(s: Seq<char>) -> Seq<char>
    decreases s.len(),
{
    if s.len() == 0 {
        Seq::empty()
    } else {
        let before = compact_spec(s.drop_last());
        if s.last() == ' ' || s.last() == 'v' {
            before
        } else {
            before.push(s.last())
        }
    }
}

fn compact(s: &str) -> (r: String)
    ensures
        r@ == compact_spec(s@),
{
    let chars = chars_of(s);
    let mut out = String::new();
    let mut i: usize = 0;
    assert(s@.take(0) =~= Seq::empty());
    assert(out@ =~= Seq::empty());
    while i < chars.len()
        invariant
            i <= chars@.len(),
            chars@ == s@,
            out@ == compact_spec(s@.take(i as int)),
        decreases chars.len() - i,
    {
        assert(s@.take(i + 1).drop_last() =~= s@.take(i as int));
        assert(s@.take(i + 1).last() == s@[i as int]);
        let c: char = chars[i];
        if c != ' ' && c != 'v' {
            out.push(c);
        }
        i += 1;
    }
    assert(s@.take(i as int) =~= s@);
    out
}

/// Whether a text asks for a major version of Node: the version itself, any of
/// its releases, the name of the runtime, or the range up to the next.
pub open spec fn asks_for_major(
    compact: Seq<char>,
    major: Seq<char>,
    releases: Seq<char>,
    runtime: Seq<char>,
    range: Seq<char>,
) -> bool {
    compact == major || compact == releases || compact == runtime || range.is_prefix_of(compact)
}

/// The runtime that a text asks for.
pub open spec fn runtime_of(raw: Seq<char>) -> Result<Seq<char>, Seq<char>> {
    let c = compact_spec(raw);
    if asks_for_major(c, "18"@, "18.x"@, "nodejs18"@, ">=18<19"@) {
        Ok("nodejs18"@)
    } else if asks_for_major(c, "20"@, "20.x"@, "nodejs20"@, ">=20<21"@) {
        Ok("nodejs20"@)
    } else if asks_for_major(c, "22"@, "22.x"@, "nodejs22"@, ">=22<23"@) {
        Ok("nodejs22"@)
    } else {
        Err("unsupported Functions Node runtime `"@ + raw + "`; expected 18, 20, or 22"@)
    }
}

fn asks_for(c: &str, major: &str, releases: &str, runtime: &str, range: &str) -> (r: bool)
    ensures
        r == asks_for_major(c@, major@, releases@, runtime@, range@),
{
    same(c, major) || same(c, releases) || same(c, runtime) || starts_with(c, range)
}

/// The runtime of a codebase: the one that is configured, else the one of its
/// package, else the default.
pub open spec fn runtime_spec(configured: Option<Seq<char>>, package: JsonView) -> Result<
    Seq<char>,
    Seq<char>,
> {
    runtime_of(
        match first_of(configured, text_of_pointer(pointer(package, seq!["engines"@, "node"@]))) {
            Some(raw) => raw,
            None => "20"@,
        },
    )
}

/// Resolves the runtime of a codebase.
pub fn resolve_runtime(configured: Option<String>, package: &Json) -> (r: Result<String, String>)
    ensures
        text_result(r) == runtime_spec(opt_text(configured), package@),
{
    let raw = match either_text(configured, json_text(pointer2(package, "engines", "node"))) {
        Some(raw) => raw,
        None => "20".to_owned(),
    };
    let c = compact(raw.as_str());
    if asks_for(c.as_str(), "18", "18.x", "nodejs18", ">=18<19") {
        Ok("nodejs18".to_owned())
    } else if asks_for(c.as_str(), "20", "20.x", "nodejs20", ">=20<21") {
        Ok("nodejs20".to_owned())
    } else if asks_for(c.as_str(), "22", "22.x", "nodejs22", ">=22<23") {
        Ok("nodejs22".to_owned())
    } else {
        Err(
            cat3(
                "unsupported Functions Node runtime `",
                raw.as_str(),
                "`; expected 18, 20, or 22",
            ),
        )
    }
}

/// A file of text: its path, and its text where it is there, or why it could
/// not be read.
pub struct TextFile {
    pub path: String,
    pub text: Result<Option<String>, String>,
}

/// What a [`TextFile`] stands for.
pub type TextFileView = (Seq<char>, Result<Option<Seq<char>>, Seq<char>>);

impl View for TextFile {
    type V = TextFileView;

    open spec fn view(&self) -> TextFileView {
        (
            self.path@,
            match self.text {
                Ok(text) => Ok(opt_text(text)),
                Err(e) => Err(e@),
            },
        )
    }
}

/// Reads the text of a file of JSON.
pub fn parse_json_file(path: &str, raw: &str) -> (r: Result<Json, String>)
    ensures
        match r {
            Ok(v) => json_of_text(raw@) == Some(v@),
            Err(e) => json_of_text(raw@) is None && e@ == "malformed "@ + path@ + ": "@
                + json_error_text(raw@),
        },
{
    match parse_json_or_error(raw) {
        Ok(v) => Ok(v),
        Err(e) => {
            let mut message = cat3("malformed ", path, ": ");
            message.append(e.as_str());
            Err(message)
        },
    }
}

/// What a file of JSON holds, where it is there; or why it could not be read,
/// or what is wrong with its text.
pub open spec fn json_file_spec(file: TextFileView) -> Result<Option<JsonView>, Seq<char>> {
    match file.1 {
        Err(e) => Err(e),
        Ok(None) => Ok(None),
        Ok(Some(raw)) => match json_of_text(raw) {
            Some(v) => Ok(Some(v)),
            None => Err("malformed "@ + file.0 + ": "@ + json_error_text(raw)),
        },
    }
}

/// Reads a file of JSON, where it is there.
pub fn read_json_file(file: &TextFile) -> (r: Result<Option<Json>, String>)
    ensures
        file_view(r) == json_file_spec(file@),
{
    match &file.text {
        Err(e) => Err(e.clone()),
        Ok(None) => Ok(None),
        Ok(Some(raw)) => match parse_json_file(file.path.as_str(), raw.as_str()) {
            Ok(v) => Ok(Some(v)),
            Err(e) => Err(e),
        },
    }
}

/// The configuration that a file of JSON holds: an empty object where there is
/// no file.
pub open spec fn config_file_spec(file: TextFileView) -> Result<JsonView, Seq<char>> {
    match json_file_spec(file) {
        Err(e) => Err(e),
        Ok(None) => Ok(empty_object()),
        Ok(Some(v)) => Ok(v),
    }
}

/// Reads the configuration that a file of JSON holds.
pub fn read_config_file(file: &TextFile) -> (r: Result<Json, String>)
    ensures
        (match r {
            Ok(v) => Ok(v@),
            Err(e) => Err(e@),
        }) == config_file_spec(file@),
{
    match read_json_file(file) {
        Err(e) => Err(e),
        Ok(None) => Ok(Json::object()),
        Ok(Some(v)) => Ok(v),
    }
}

/// What was read of a directory of functions: the directory itself, the file
/// of its package, the file of its configuration and its files of variables.
pub struct SourceFiles {
    pub is_absolute: bool,
    pub resolved: Result<ResolvedSource, String>,
    pub package: TextFile,
    pub runtime_config: TextFile,
    pub dotenv: Vec<(String, Result<Option<String>, String>)>,
}

/// What [`SourceFiles`] stand for.
#[verifier::ext_equal]
pub struct SourceView {
    pub is_absolute: bool,
    pub resolved: Result<ResolvedView, Seq<char>>,
    pub package: TextFileView,
    pub runtime_config: TextFileView,
    pub dotenv: Seq<(Seq<char>, Result<Option<Seq<char>>, Seq<char>>)>,
}

impl View for SourceFiles {
    type V = SourceView;

    open spec fn view(&self) -> SourceView {
        SourceView {
            is_absolute: self.is_absolute,
            resolved: resolved_result(self.resolved),
            package: self.package@,
            runtime_config: self.runtime_config@,
            dotenv: dotenv_view(self.dotenv@),
        }
    }
}

/// The view of what was read of several directories.
pub open spec fn source_files_view(sources: Seq<SourceFiles>) -> Seq<SourceView> {
    sources.map_values(|s: SourceFiles| s@)
}

/// What was read of a directory of functions, with its files of JSON parsed.
pub open spec fn parsed_source_spec(files: SourceView) -> FilesView {
    FilesView {
        is_absolute: files.is_absolute,
        resolved: files.resolved,
        package: json_file_spec(files.package),
        runtime_config: json_file_spec(files.runtime_config),
        dotenv: files.dotenv,
    }
}

/// Parses the files of JSON of a directory of functions.
pub fn parse_source(files: SourceFiles) -> (r: ParsedSource)
    ensures
        r@ == parsed_source_spec(files@),
{
    let package = read_json_file(&files.package);
    let runtime_config = read_json_file(&files.runtime_config);
    ParsedSource {
        is_absolute: files.is_absolute,
        resolved: files.resolved,
        package,
        runtime_config,
        dotenv: files.dotenv,
    }
}

/// Parses the files of JSON of several directories of functions.
pub fn parse_sources(files: Vec<SourceFiles>) -> (r: Vec<ParsedSource>)
    ensures
        sources_view(r@) == source_files_view(files@).map_values(
            |s: SourceView| parsed_source_spec(s),
        ),
{
    let ghost all = files@;
    let mut out: Vec<ParsedSource> = Vec::new();
    for file in it: files
        invariant
            it.seq() == all,
            out@.len() == it.index(),
            forall|j: int|
                0 <= j < it.index() ==> (#[trigger] out@[j])@ == parsed_source_spec(all[j]@),
    {
        out.push(parse_source(file));
    }
    assert(sources_view(out@) =~= source_files_view(all).map_values(
        |s: SourceView| parsed_source_spec(s),
    ));
    out
}

/// What was read of a directory of functions, with its files of JSON parsed.
/// Each file is there, is not there, or could not be read.
pub struct ParsedSource {
    pub is_absolute: bool,
    pub resolved: Result<ResolvedSource, String>,
    pub package: Result<Option<Json>, String>,
    pub runtime_config: Result<Option<Json>, String>,
    pub dotenv: Vec<(String, Result<Option<String>, String>)>,
}

/// What a [`ParsedSource`] stands for.
#[verifier::ext_equal]
pub struct FilesView {
    pub is_absolute: bool,
    pub resolved: Result<ResolvedView, Seq<char>>,
    pub package: Result<Option<JsonView>, Seq<char>>,
    pub runtime_config: Result<Option<JsonView>, Seq<char>>,
    pub dotenv: Seq<(Seq<char>, Result<Option<Seq<char>>, Seq<char>>)>,
}

/// The view of a file of JSON.
pub open spec fn file_view(r: Result<Option<Json>, String>) -> Result<Option<JsonView>, Seq<char>> {
    match r {
        Ok(v) => Ok(owned_json(v)),
        Err(e) => Err(e@),
    }
}

/// The view of files of variables.
pub open spec fn dotenv_view(files: Seq<(String, Result<Option<String>, String>)>) -> Seq<
    (Seq<char>, Result<Option<Seq<char>>, Seq<char>>),
> {
    files.map_values(
        |f: (String, Result<Option<String>, String>)|
            (
                f.0@,
                match f.1 {
                    Ok(text) => Ok(opt_text(text)),
                    Err(e) => Err(e@),
                },
            ),
    )
}

impl View for ParsedSource {
    type V = FilesView;

    open spec fn view(&self) -> FilesView {
        FilesView {
            is_absolute: self.is_absolute,
            resolved: resolved_result(self.resolved),
            package: file_view(self.package),
            runtime_config: file_view(self.runtime_config),
            dotenv: dotenv_view(self.dotenv@),
        }
    }
}

/// The view of what was read of several directories.
pub open spec fn sources_view(sources: Seq<ParsedSource>) -> Seq<FilesView> {
    sources.map_values(|s: ParsedSource| s@)
}

/// A codebase of functions.
#[derive(PartialEq, Eq, Debug)]
pub struct FunctionCodebase {
    pub source: String,
    pub codebase: String,
    pub runtime: String,
}

/// What a [`FunctionCodebase`] stands for.
#[verifier::ext_equal]
pub struct CodebaseView {
    pub source: Seq<char>,
    pub codebase: Seq<char>,
    pub runtime: Seq<char>,
}

impl View for FunctionCodebase {
    type V = CodebaseView;

    open spec fn view(&self) -> CodebaseView {
        CodebaseView {
            source: self.source@,
            codebase: self.codebase@,
            runtime: self.runtime@,
        }
    }
}

/// The view of several codebases.
pub open spec fn codebases_view(codebases: Seq<FunctionCodebase>) -> Seq<CodebaseView> {
    codebases.map_values(|c: FunctionCodebase| c@)
}

/// The name of a codebase: the one that is set from outside, else the
/// configured one, else one by its place.
pub open spec fn codebase_name(
    set: Option<Seq<char>>,
    entry: JsonView,
    index: nat,
    count: nat,
) -> Seq<char> {
    match first_of(set, as_text_spec(at(entry, "codebase"@))) {
        Some(name) => name,
        None => if count == 1 {
            "default"@
        } else {
            "codebase-"@ + decimal_spec(index)
        },
    }
}

/// The directory that an entry configures.
pub open spec fn entry_source_spec(entry: JsonView) -> Result<Seq<char>, Seq<char>> {
    if !(entry is Object) {
        Err("each Functions configuration must be an object"@)
    } else {
        Ok(
            match as_text_spec(at(entry, "source"@)) {
                Some(source) => source,
                None => "functions"@,
            },
        )
    }
}

/// Finds the directory that an entry configures.
pub fn entry_source(entry: &Json) -> (r: Result<String, String>)
    ensures
        text_result(r) == entry_source_spec(entry@),
{
    match entry {
        Json::Object(_) => match json_text(entry.get("source")) {
            Some(source) => Ok(source),
            None => Ok("functions".to_owned()),
        },
        _ => Err("each Functions configuration must be an object".to_owned()),
    }
}

/// Whether a codebase of a name is among some.
pub open spec fn is_known(codebases: Seq<CodebaseView>, name: Seq<char>) -> bool {
    exists|i: int| 0 <= i < codebases.len() && (#[trigger] codebases[i]).codebase == name
}

/// One codebase, or what is wrong with it.
pub open spec fn codebase_spec(
    root: Seq<Seq<char>>,
    entry: JsonView,
    files: FilesView,
    index: nat,
    count: nat,
    set_name: Option<Seq<char>>,
    set_runtime: Option<Seq<char>>,
    before: Seq<CodebaseView>,
) -> Result<CodebaseView, Seq<char>> {
    let name = codebase_name(set_name, entry, index, count);
    match entry_source_spec(entry) {
        Err(e) => Err(e),
        Ok(source) => match source_refused(root, source, files.is_absolute, files.resolved) {
            Some(e) => Err(e),
            None => if !is_codebase(name) {
                Err("invalid Functions codebase `"@ + name + "`"@)
            } else if is_known(before, name) {
                Err("duplicate Functions codebase `"@ + name + "`"@)
            } else {
                match files.package {
                    Err(e) => Err(e),
                    Ok(package) => match runtime_spec(
                        first_of(set_runtime, as_text_spec(at(entry, "runtime"@))),
                        match package {
                            Some(p) => p,
                            None => empty_object(),
                        },
                    ) {
                        Err(e) => Err(e),
                        Ok(runtime) => Ok(
                            CodebaseView {
                                source: files.resolved->Ok_0.display,
                                codebase: name,
                                runtime,
                            },
                        ),
                    },
                }
            },
        },
    }
}

/// What stands for a directory that was not read.
pub open spec fn unread() -> FilesView {
    FilesView {
        is_absolute: false,
        resolved: Err("not read"@),
        package: Ok(None),
        runtime_config: Ok(None),
        dotenv: Seq::empty(),
    }
}

/// What was read of a directory, where it was.
pub open spec fn source_at(files: Seq<FilesView>, i: int) -> FilesView {
    if 0 <= i < files.len() {
        files[i]
    } else {
        unread()
    }
}

/// The codebases of the first `n` entries, or the first thing that is wrong.
pub open spec fn codebases_spec(
    root: Seq<Seq<char>>,
    entries: Seq<JsonView>,
    files: Seq<FilesView>,
    n: nat,
    set_name: Option<Seq<char>>,
    set_runtime: Option<Seq<char>>,
) -> Result<Seq<CodebaseView>, Seq<char>>
    decreases n,
{
    if n == 0 || n > entries.len() {
        Ok(Seq::empty())
    } else {
        match codebases_spec(root, entries, files, (n - 1) as nat, set_name, set_runtime) {
            Err(e) => Err(e),
            Ok(before) => match codebase_spec(
                root,
                entries[n - 1],
                source_at(files, n - 1),
                (n - 1) as nat,
                entries.len(),
                set_name,
                set_runtime,
                before,
            ) {
                Err(e) => Err(e),
                Ok(codebase) => Ok(before.push(codebase)),
            },
        }
    }
}

proof fn codebases_stuck(
    root: Seq<Seq<char>>,
    entries: Seq<JsonView>,
    files: Seq<FilesView>,
    n: nat,
    m: nat,
    set_name: Option<Seq<char>>,
    set_runtime: Option<Seq<char>>,
)
    requires
        n <= m <= entries.len(),
        codebases_spec(root, entries, files, n, set_name, set_runtime) is Err,
    ensures
        codebases_spec(root, entries, files, m, set_name, set_runtime) == codebases_spec(
            root,
            entries,
            files,
            n,
            set_name,
            set_runtime,
        ),
    decreases m - n,
{
    if n < m {
        codebases_stuck(root, entries, files, n, (m - 1) as nat, set_name, set_runtime);
    }
}

/// No codebases are read where the package of one of them cannot be.
pub proof fn malformed_package_refused(
    root: Seq<Seq<char>>,
    entries: Seq<JsonView>,
    files: Seq<FilesView>,
    i: int,
    n: nat,
    set_name: Option<Seq<char>>,
    set_runtime: Option<Seq<char>>,
)
    requires
        0 <= i < n <= entries.len(),
        source_at(files, i).package is Err,
    ensures
        codebases_spec(root, entries, files, n, set_name, set_runtime) is Err,
    decreases n,
{
    if i < n - 1 {
        malformed_package_refused(
            root,
            entries,
            files,
            i,
            (n - 1) as nat,
            set_name,
            set_runtime,
        );
    }
}

/// The names of the codebases of a project are all different.
pub proof fn codebases_differ(
    root: Seq<Seq<char>>,
    entries: Seq<JsonView>,
    files: Seq<FilesView>,
    n: nat,
    set_name: Option<Seq<char>>,
    set_runtime: Option<Seq<char>>,
)
    ensures
        codebases_spec(root, entries, files, n, set_name, set_runtime) matches Ok(list) ==> forall|
            i: int,
            j: int,
        |
            0 <= i < j < list.len() ==> (#[trigger] list[i]).codebase != (
            #[trigger] list[j]).codebase,
    decreases n,
{
    if n > 0 && n <= entries.len() {
        codebases_differ(root, entries, files, (n - 1) as nat, set_name, set_runtime);
        if codebases_spec(root, entries, files, n, set_name, set_runtime) is Ok {
            let before = codebases_spec(
                root,
                entries,
                files,
                (n - 1) as nat,
                set_name,
                set_runtime,
            )->Ok_0;
            let list = codebases_spec(root, entries, files, n, set_name, set_runtime)->Ok_0;
            assert forall|i: int, j: int| 0 <= i < j < list.len() implies (
            #[trigger] list[i]).codebase != (#[trigger] list[j]).codebase by {
                assert(list[i] == before[i]);
                if j < before.len() {
                    assert(list[j] == before[j]);
                }
            }
        }
    }
}

fn known(codebases: &Vec<FunctionCodebase>, name: &str) -> (r: bool)
    ensures
        r == is_known(codebases_view(codebases@), name@),
{
    let ghost all = codebases_view(codebases@);
    let mut i: usize = 0;
    while i < codebases.len()
        invariant
            i <= codebases@.len(),
            all == codebases_view(codebases@),
            forall|j: int| 0 <= j < i ==> (#[trigger] all[j]).codebase != name@,
        decreases codebases.len() - i,
    {
        assert(all[i as int] == codebases@[i as int]@);
        if same(codebases[i].codebase.as_str(), name) {
            assert(all[i as int].codebase == name@);
            return true;
        }
        i += 1;
    }
    false
}

fn load_codebase(
    root: &Vec<String>,
    entry: &Json,
    files: &ParsedSource,
    index: usize,
    count: usize,
    set_name: &Option<String>,
    set_runtime: &Option<String>,
    before: &Vec<FunctionCodebase>,
) -> (r: Result<FunctionCodebase, String>)
    ensures
        (match r {
            Ok(c) => Ok(c@),
            Err(e) => Err(e@),
        }) == codebase_spec(
            texts(root@),
            entry@,
            files@,
            index as nat,
            count as nat,
            opt_text(*set_name),
            opt_text(*set_runtime),
            codebases_view(before@),
        ),
{
    let source = match entry_source(entry) {
        Ok(source) => source,
        Err(e) => {
            return Err(e);
        },
    };
    match confined_source(root, source.as_str(), files.is_absolute, &files.resolved) {
        Ok(()) => {},
        Err(e) => {
            return Err(e);
        },
    }
    let name = match either_text(copy_text(set_name), json_text(entry.get("codebase"))) {
        Some(name) => name,
        None => if count == 1 {
            "default".to_owned()
        } else {
            cat("codebase-", decimal(index as u64).as_str())
        },
    };
    match validate_codebase(name.as_str()) {
        Ok(()) => {},
        Err(e) => {
            return Err(e);
        },
    }
    if known(before, name.as_str()) {
        return Err(cat3("duplicate Functions codebase `", name.as_str(), "`"));
    }
    let configured = either_text(copy_text(set_runtime), json_text(entry.get("runtime")));
    let outcome = match &files.package {
        Err(e) => Err(e.clone()),
        Ok(Some(package)) => resolve_runtime(configured, package),
        Ok(None) => resolve_runtime(configured, &Json::object()),
    };
    match outcome {
        Err(e) => Err(e),
        Ok(runtime) => match &files.resolved {
            Ok(found) => Ok(
                FunctionCodebase { source: found.display.clone(), codebase: name, runtime },
            ),
            Err(e) => Err(e.clone()),
        },
    }
}

/// Reads the codebases of a project from their configurations and what was
/// read of their directories. A directory that was not read is refused.
pub fn load_codebases(
    root: &Vec<String>,
    entries: &Vec<Json>,
    files: &Vec<ParsedSource>,
    set_name: &Option<String>,
    set_runtime: &Option<String>,
) -> (r: Result<Vec<FunctionCodebase>, String>)
    ensures
        (match r {
            Ok(list) => Ok(codebases_view(list@)),
            Err(e) => Err(e@),
        }) == codebases_spec(
            texts(root@),
            items_view(entries@),
            sources_view(files@),
            entries@.len(),
            opt_text(*set_name),
            opt_text(*set_runtime),
        ),
{
    let ghost all = items_view(entries@);
    let ghost read = sources_view(files@);
    let missing = ParsedSource {
        is_absolute: false,
        resolved: Err("not read".to_owned()),
        package: Ok(None),
        runtime_config: Ok(None),
        dotenv: Vec::new(),
    };
    assert(missing@ =~= unread());
    let mut list: Vec<FunctionCodebase> = Vec::new();
    assert(codebases_view(list@) =~= Seq::empty());
    let mut i: usize = 0;
    while i < entries.len()
        invariant
            i <= entries@.len(),
            all == items_view(entries@),
            missing@ == unread(),
            read == sources_view(files@),
            codebases_spec(
                texts(root@),
                all,
                read,
                i as nat,
                opt_text(*set_name),
                opt_text(*set_runtime),
            ) == Ok::<_, Seq<char>>(codebases_view(list@)),
        decreases entries.len() - i,
    {
        assert(all[i as int] == entries@[i as int]@);
        let found: &ParsedSource = if i < files.len() {
            &files[i]
        } else {
            &missing
        };
        assert(found@ == source_at(read, i as int));
        match load_codebase(
            root,
            &entries[i],
            found,
            i,
            entries.len(),
            set_name,
            set_runtime,
            &list,
        ) {
            Ok(codebase) => {
                let ghost before = codebases_view(list@);
                list.push(codebase);
                assert(codebases_view(list@) =~= before.push(codebase@));
            },
            Err(e) => {
                proof {
                    codebases_stuck(
                        texts(root@),
                        all,
                        read,
                        (i + 1) as nat,
                        all.len(),
                        opt_text(*set_name),
                        opt_text(*set_runtime),
                    );
                }
                return Err(e);
            },
        }
        i += 1;
    }
    Ok(list)
}

/// An object, or what is wrong with what should be one.
pub open spec fn object_spec(value: JsonView, label: Seq<char>) -> Result<MembersView, Seq<char>> {
    match value {
        JsonView::Object(members) => Ok(members),
        _ => Err(label + " must be a JSON object"@),
    }
}

/// The configurations of the first `n` codebases merged, or the first thing
/// that is wrong.
pub open spec fn runtime_files_spec(files: Seq<FilesView>, n: nat) -> Result<MembersView, Seq<char>>
    decreases n,
{
    if n == 0 || n > files.len() {
        Ok(Seq::empty())
    } else {
        match runtime_files_spec(files, (n - 1) as nat) {
            Err(e) => Err(e),
            Ok(before) => match files[n - 1].runtime_config {
                Err(e) => Err(e),
                Ok(None) => Ok(before),
                Ok(Some(value)) => match object_spec(value, ".runtimeconfig.json"@) {
                    Err(e) => Err(e),
                    Ok(members) => merge_spec(before, members, 0, Seq::empty()),
                },
            },
        }
    }
}

proof fn runtime_files_stuck(files: Seq<FilesView>, n: nat, m: nat)
    requires
        n <= m <= files.len(),
        runtime_files_spec(files, n) is Err,
    ensures
        runtime_files_spec(files, m) == runtime_files_spec(files, n),
    decreases m - n,
{
    if n < m {
        runtime_files_stuck(files, n, (m - 1) as nat);
    }
}

/// No configurations are merged where one of them cannot be read.
pub proof fn malformed_runtime_config_refused(files: Seq<FilesView>, i: int, n: nat)
    requires
        0 <= i < n <= files.len(),
        files[i].runtime_config is Err,
    ensures
        runtime_files_spec(files, n) is Err,
    decreases n,
{
    if i < n - 1 {
        malformed_runtime_config_refused(files, i, (n - 1) as nat);
    }
}

/// Merges the configurations of the codebases.
pub fn merge_runtime_configs(files: &Vec<ParsedSource>) -> (r: Result<Vec<(String, Json)>, String>)
    ensures
        crate::dotenv::members_result(r) == runtime_files_spec(
            sources_view(files@),
            files@.len(),
        ),
{
    let ghost all = sources_view(files@);
    let mut merged: Vec<(String, Json)> = Vec::new();
    assert(members_view(merged@) =~= Seq::empty());
    let mut i: usize = 0;
    while i < files.len()
        invariant
            i <= files@.len(),
            all == sources_view(files@),
            runtime_files_spec(all, i as nat) == Ok::<_, Seq<char>>(members_view(merged@)),
        decreases files.len() - i,
    {
        assert(all[i as int] == files@[i as int]@);
        let outcome = match &files[i].runtime_config {
            Err(e) => Err(e.clone()),
            Ok(None) => Ok(merged),
            Ok(Some(value)) => match value {
                Json::Object(members) => {
                    proof {
                        json_object_view(*members);
                    }
                    let none = String::new();
                    assert(none@ =~= Seq::empty());
                    merge_objects(merged, members, none.as_str())
                },
                _ => Err(".runtimeconfig.json must be a JSON object".to_owned()),
            },
        };
        proof {
            reveal_strlit(".runtimeconfig.json");
            reveal_strlit(" must be a JSON object");
            reveal_strlit(".runtimeconfig.json must be a JSON object");
            assert(".runtimeconfig.json"@ + " must be a JSON object"@
                =~= ".runtimeconfig.json must be a JSON object"@);
        }
        match outcome {
            Ok(members) => {
                merged = members;
            },
            Err(e) => {
                proof {
                    runtime_files_stuck(all, (i + 1) as nat, all.len());
                }
                return Err(e);
            },
        }
        i += 1;
    }
    Ok(merged)
}

/// The configuration that functions see, given what the variable of the
/// environment was parsed to: that of the command line, else that of the
/// environment, else that of the files.
pub open spec fn runtime_config_spec(
    cli: Option<JsonView>,
    parsed: Option<Result<JsonView, Seq<char>>>,
    files: Seq<FilesView>,
) -> Result<MembersView, Seq<char>> {
    match cli {
        Some(value) => object_spec(value, "command-line runtime config"@),
        None => match parsed {
            Some(Ok(value)) => object_spec(value, "FIREBASE_EMU_RUNTIME_CONFIG"@),
            Some(Err(e)) => Err("malformed FIREBASE_EMU_RUNTIME_CONFIG: "@ + e),
            None => runtime_files_spec(files, files.len()),
        },
    }
}

/// The view of what a text was parsed to.
pub open spec fn parsed_result(parsed: Option<Result<Json, String>>) -> Option<
    Result<JsonView, Seq<char>>,
> {
    match parsed {
        Some(Ok(v)) => Some(Ok(v@)),
        Some(Err(e)) => Some(Err(e@)),
        None => None,
    }
}

fn members_of(value: &Json, label: &str) -> (r: Result<Vec<(String, Json)>, String>)
    ensures
        crate::dotenv::members_result(r) == object_spec(value@, label@),
{
    match value {
        Json::Object(members) => {
            proof {
                json_object_view(*members);
            }
            let copy = value.duplicate();
            match copy {
                Json::Object(taken) => {
                    proof {
                        json_object_view(taken);
                    }
                    Ok(taken)
                },
                _ => Ok(Vec::new()),
            }
        },
        _ => Err(cat(label, " must be a JSON object")),
    }
}

/// Chooses the configuration that functions see.
pub fn select_runtime_config(
    cli: &Option<Json>,
    parsed: Option<Result<Json, String>>,
    files: &Vec<ParsedSource>,
) -> (r: Result<Vec<(String, Json)>, String>)
    ensures
        crate::dotenv::members_result(r) == runtime_config_spec(
            owned_json(*cli),
            parsed_result(parsed),
            sources_view(files@),
        ),
{
    match cli {
        Some(value) => members_of(value, "command-line runtime config"),
        None => match parsed {
            Some(Ok(value)) => members_of(&value, "FIREBASE_EMU_RUNTIME_CONFIG"),
            Some(Err(e)) => Err(cat("malformed FIREBASE_EMU_RUNTIME_CONFIG: ", e.as_str())),
            None => merge_runtime_configs(files),
        },
    }
}

/// The variables of the first `n` files of a codebase put over others.
pub open spec fn dotenv_files_spec(
    values: Seq<(Seq<char>, Seq<char>)>,
    files: Seq<(Seq<char>, Result<Option<Seq<char>>, Seq<char>>)>,
    n: nat,
) -> Result<Seq<(Seq<char>, Seq<char>)>, Seq<char>>
    decreases n,
{
    if n == 0 || n > files.len() {
        Ok(values)
    } else {
        match dotenv_files_spec(values, files, (n - 1) as nat) {
            Err(e) => Err(e),
            Ok(before) => match files[n - 1].1 {
                Err(e) => Err(e),
                Ok(None) => Ok(before),
                Ok(Some(text)) => {
                    let lines = split_spec(text, '\n');
                    match dotenv_spec(lines, lines.len(), files[n - 1].0) {
                        Err(e) => Err(e),
                        Ok(more) => Ok(overlaid_values(before, more, more.len())),
                    }
                },
            },
        }
    }
}

/// The variables of the first `n` codebases, each put over those before it.
pub open spec fn local_values_spec(files: Seq<FilesView>, n: nat) -> Result<
    Seq<(Seq<char>, Seq<char>)>,
    Seq<char>,
>
    decreases n,
{
    if n == 0 || n > files.len() {
        Ok(Seq::empty())
    } else {
        match local_values_spec(files, (n - 1) as nat) {
            Err(e) => Err(e),
            Ok(before) => dotenv_files_spec(before, files[n - 1].dotenv, files[n - 1].dotenv.len()),
        }
    }
}

proof fn dotenv_files_stuck(
    values: Seq<(Seq<char>, Seq<char>)>,
    files: Seq<(Seq<char>, Result<Option<Seq<char>>, Seq<char>>)>,
    n: nat,
    m: nat,
)
    requires
        n <= m <= files.len(),
        dotenv_files_spec(values, files, n) is Err,
    ensures
        dotenv_files_spec(values, files, m) == dotenv_files_spec(values, files, n),
    decreases m - n,
{
    if n < m {
        dotenv_files_stuck(values, files, n, (m - 1) as nat);
    }
}

proof fn local_values_stuck(files: Seq<FilesView>, n: nat, m: nat)
    requires
        n <= m <= files.len(),
        local_values_spec(files, n) is Err,
    ensures
        local_values_spec(files, m) == local_values_spec(files, n),
    decreases m - n,
{
    if n < m {
        local_values_stuck(files, n, (m - 1) as nat);
    }
}

/// The view of an outcome in variables.
pub open spec fn values_result(r: Result<OrderedMap<String>, String>) -> Result<
    Seq<(Seq<char>, Seq<char>)>,
    Seq<char>,
> {
    match r {
        Ok(values) => Ok(values@),
        Err(e) => Err(e@),
    }
}

fn add_dotenv(
    known: OrderedMap<String>,
    files: &Vec<(String, Result<Option<String>, String>)>,
) -> (r: Result<OrderedMap<String>, String>)
    ensures
        values_result(r) == dotenv_files_spec(known@, dotenv_view(files@), files@.len()),
{
    let ghost all = dotenv_view(files@);
    let ghost start = known@;
    let mut values = known;
    let mut i: usize = 0;
    while i < files.len()
        invariant
            i <= files@.len(),
            all == dotenv_view(files@),
            start == known@,
            dotenv_files_spec(start, all, i as nat) == Ok::<_, Seq<char>>(values@),
        decreases files.len() - i,
    {
        assert(all[i as int].0 == files@[i as int].0@);
        match &files[i].1 {
            Err(e) => {
                proof {
                    dotenv_files_stuck(start, all, (i + 1) as nat, all.len());
                }
                return Err(e.clone());
            },
            Ok(None) => {},
            Ok(Some(text)) => match parse_dotenv(text.as_str(), files[i].0.as_str()) {
                Ok(more) => {
                    overlay_values(&mut values, &more);
                },
                Err(e) => {
                    proof {
                        dotenv_files_stuck(start, all, (i + 1) as nat, all.len());
                    }
                    return Err(e);
                },
            },
        }
        i += 1;
    }
    Ok(values)
}

/// The files of variables that are read in the directory of a codebase, each
/// put over those before it. A file that is not for local use is none of them.
pub fn dotenv_names(project: &str) -> (r: Vec<String>)
    ensures
        texts(r@) == seq![".env."@ + project@, ".env.local"@],
        !texts(r@).contains(".env"@),
{
    let mut names: Vec<String> = Vec::new();
    names.push(cat(".env.", project));
    names.push(".env.local".to_owned());
    proof {
        reveal_strlit(".env");
        reveal_strlit(".env.");
        reveal_strlit(".env.local");
        assert(texts(names@) =~= seq![".env."@ + project@, ".env.local"@]);
        assert(texts(names@)[0].len() >= 5 && texts(names@)[1].len() == 10);
    }
    names
}

/// Reads the variables of the codebases, with the values that the environment
/// sets for them.
pub fn load_local_dotenv(files: &Vec<ParsedSource>, environment: &OrderedMap<String>) -> (r: Result<
    OrderedMap<String>,
    String,
>)
    ensures
        values_result(r) == match local_values_spec(sources_view(files@), files@.len()) {
            Ok(values) => Ok(overridden(values, environment@)),
            Err(e) => Err(e),
        },
{
    let ghost all = sources_view(files@);
    let mut values: OrderedMap<String> = OrderedMap::new();
    let mut i: usize = 0;
    while i < files.len()
        invariant
            i <= files@.len(),
            all == sources_view(files@),
            local_values_spec(all, i as nat) == Ok::<_, Seq<char>>(values@),
        decreases files.len() - i,
    {
        assert(all[i as int] == files@[i as int]@);
        match add_dotenv(values, &files[i].dotenv) {
            Ok(more) => {
                values = more;
            },
            Err(e) => {
                proof {
                    local_values_stuck(all, (i + 1) as nat, all.len());
                }
                return Err(e);
            },
        }
        i += 1;
    }
    override_values(&mut values, environment);
    Ok(values)
}

} // verus!
