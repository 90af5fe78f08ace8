//! Files of variables, and the merging of configuration objects.
use crate::buckets::find_text;
use crate::json::{
    json_equal, json_equal_reflexive, json_equal_spec, json_object_view, members_view, Json,
    JsonView, MembersView,
};
use crate::multipart::{find_spec, is_white, skip_back, skip_front, trim, trim_spec, white};
use crate::ordered::{
    keys_sorted, lookup, lookup_after_put, lookup_found, lower_bound, lower_bound_properties, put,
    put_sorted, OrderedMap,
};
use crate::text::{
    after_prefix, cat3, chars_of, decimal, decimal_spec, is_blank, split, split_once,
    split_of_joined, split_once_spec, split_spec, strip_prefix, text_of, texts,
};
use vstd::prelude::*;

verus! {

/// What a line of a file of variables says.
pub enum LineView {
    /// Nothing: it is empty or a comment.
    Blank,
    /// Something that is no assignment.
    Malformed,
    /// An assignment to something that is no name of a variable.
    BadKey,
    /// That a variable has a value.
    Assign(Seq<char>, Seq<char>),
}

/// Whether a text is the name of a variable: letters, digits and underscores
/// of ASCII, with no digit in front.
pub open spec fn is_variable(key: Seq<char>) -> bool {
    &&& key.len() > 0
    &&& !('0' <= key[0] && key[0] <= '9')
    &&& forall|i: int| 0 <= i < key.len() ==> is_variable_char(#[trigger] key[i])
}

/// A letter, a digit or an underscore of ASCII.
pub open spec fn is_variable_char(c: char) -> bool {
    ('a' <= c && c <= 'z') || ('A' <= c && c <= 'Z') || ('0' <= c && c <= '9') || c == '_'
}

/// Whether a value stands between two quotation marks of a kind.
pub open spec fn is_quoted(value: Seq<char>, mark: char) -> bool {
    value.len() >= 2 && value[0] == mark && value.last() == mark
}

/// A value: what stands between its quotation marks, or what stands before a
/// comment.
pub open spec fn value_spec(raw: Seq<char>) -> Seq<char> {
    let value = trim_spec(raw);
    if is_quoted(value, '"') || is_quoted(value, '\'') {
        value.subrange(1, value.len() - 1)
    } else {
        match find_spec(value, " #"@, 0) {
            Some(k) => skip_back(value.take(k), white()),
            None => skip_back(value, white()),
        }
    }
}

/// What an assignment says.
pub open spec fn assignment_spec(line: Seq<char>) -> LineView {
    match split_once_spec(line, '=') {
        None => LineView::Malformed,
        Some(pair) => if is_variable(trim_spec(pair.0)) {
            LineView::Assign(trim_spec(pair.0), value_spec(pair.1))
        } else {
            LineView::BadKey
        },
    }
}

/// What a line of a file of variables says. A word of the shell may stand in
/// front of an assignment.
pub open spec fn line_spec(original: Seq<char>) -> LineView {
    let line = trim_spec(original);
    if line.len() == 0 || line[0] == '#' {
        LineView::Blank
    } else {
        match after_prefix(line, "export "@) {
            Some(rest) => assignment_spec(skip_front(rest, white())),
            None => assignment_spec(line),
        }
    }
}

/// The variables of the first `n` lines of a file, or what is wrong with the
/// first line that says none.
pub open spec fn dotenv_spec(lines: Seq<Seq<char>>, n: nat, path: Seq<char>) -> Result<
    Seq<(Seq<char>, Seq<char>)>,
    Seq<char>,
>
    decreases n,
{
    if n == 0 || n > lines.len() {
        Ok(Seq::empty())
    } else {
        match dotenv_spec(lines, (n - 1) as nat, path) {
            Err(e) => Err(e),
            Ok(before) => match line_spec(lines[n - 1]) {
                LineView::Blank => Ok(before),
                LineView::Malformed => Err("malformed "@ + path + " line "@ + decimal_spec(n)),
                LineView::BadKey => Err(
                    "invalid dotenv key in "@ + path + " line "@ + decimal_spec(n),
                ),
                LineView::Assign(key, value) => Ok(put(before, key, value)),
            },
        }
    }
}

proof fn dotenv_stuck(lines: Seq<Seq<char>>, n: nat, m: nat, path: Seq<char>)
    requires
        n <= m <= lines.len(),
        dotenv_spec(lines, n, path) is Err,
    ensures
        dotenv_spec(lines, m, path) == dotenv_spec(lines, n, path),
    decreases m - n,
{
    if n < m {
        dotenv_stuck(lines, n, (m - 1) as nat, path);
    }
}

/// A line of a file of variables, as it was read.
pub enum Line {
    Blank,
    Malformed,
    BadKey,
    Assign(String, String),
}

impl View for Line {
    type V = LineView;

    open spec fn view(&self) -> LineView {
        match self {
            Line::Blank => LineView::Blank,
            Line::Malformed => LineView::Malformed,
            Line::BadKey => LineView::BadKey,
            Line::Assign(key, value) => LineView::Assign(key@, value@),
        }
    }
}

fn names_variable(key: &str) -> (r: bool)
    ensures
        r == is_variable(key@),
{
    let chars = chars_of(key);
    if chars.len() == 0 || ('0' <= chars[0] && chars[0] <= '9') {
        return false;
    }
    let mut i: usize = 0;
    while i < chars.len()
        invariant
            i <= chars@.len(),
            chars@ == key@,
            forall|j: int| 0 <= j < i ==> is_variable_char(#[trigger] key@[j]),
        decreases chars.len() - i,
    {
        let c: char = chars[i];
        let fits = ('a' <= c && c <= 'z') || ('A' <= c && c <= 'Z') || ('0' <= c && c <= '9') || c
            == '_';
        if !fits {
            assert(!is_variable_char(key@[i as int]));
            return false;
        }
        i += 1;
    }
    true
}

fn trim_back(s: &str) -> (r: String)
    ensures
        r@ == skip_back(s@, white()),
{
    let chars = chars_of(s);
    let mut to: usize = chars.len();
    assert(chars@.take(to as int) =~= chars@);
    while to > 0 && is_white(chars[to - 1])
        invariant
            to <= chars@.len(),
            chars@ == s@,
            skip_back(s@, white()) == skip_back(s@.take(to as int), white()),
        decreases to,
    {
        assert(s@.take(to as int).last() == s@[to - 1]);
        assert(s@.take(to as int).drop_last() =~= s@.take(to - 1));
        to -= 1;
    }
    proof {
        if to > 0 {
            assert(s@.take(to as int).last() == s@[to - 1]);
        }
        assert(s@.subrange(0, to as int) =~= s@.take(to as int));
    }
    text_of(chars.as_slice(), 0, to)
}

fn trim_start(s: &str) -> (r: String)
    ensures
        r@ == skip_front(s@, white()),
{
    let chars = chars_of(s);
    let mut from: usize = 0;
    assert(chars@.skip(0) =~= chars@);
    while from < chars.len() && is_white(chars[from])
        invariant
            from <= chars@.len(),
            chars@ == s@,
            skip_front(s@, white()) == skip_front(s@.skip(from as int), white()),
        decreases chars.len() - from,
    {
        assert(s@.skip(from as int)[0] == s@[from as int]);
        assert(s@.skip(from as int).drop_first() =~= s@.skip(from + 1));
        from += 1;
    }
    proof {
        if from < s@.len() {
            assert(s@.skip(from as int)[0] == s@[from as int]);
        }
        assert(s@.subrange(from as int, s@.len() as int) =~= s@.skip(from as int));
    }
    text_of(chars.as_slice(), from, chars.len())
}

fn read_value(raw: &str) -> (r: String)
    ensures
        r@ == value_spec(raw@),
{
    let value = trim(raw);
    let chars = chars_of(value.as_str());
    if chars.len() >= 2 {
        let first: char = chars[0];
        let last: char = chars[chars.len() - 1];
        if first == last && (first == '"' || first == '\'') {
            return text_of(chars.as_slice(), 1, chars.len() - 1);
        }
    }
    match find_text(value.as_str(), " #") {
        Some(k) => {
            let front = text_of(chars.as_slice(), 0, k);
            assert(front@ =~= value@.take(k as int));
            trim_back(front.as_str())
        },
        None => trim_back(value.as_str()),
    }
}

fn read_assignment(line: &str) -> (r: Line)
    ensures
        r@ == assignment_spec(line@),
{
    match split_once(line, '=') {
        None => Line::Malformed,
        Some((key, value)) => {
            let name = trim(key.as_str());
            if names_variable(name.as_str()) {
                Line::Assign(name, read_value(value.as_str()))
            } else {
                Line::BadKey
            }
        },
    }
}

fn read_line(original: &str) -> (r: Line)
    ensures
        r@ == line_spec(original@),
{
    let line = trim(original);
    let chars = chars_of(line.as_str());
    if chars.len() == 0 || chars[0] == '#' {
        return Line::Blank;
    }
    match strip_prefix(line.as_str(), "export ") {
        Some(rest) => read_assignment(trim_start(rest.as_str()).as_str()),
        None => read_assignment(line.as_str()),
    }
}

/// The variables of a file, or what is wrong with it.
pub open spec fn file_variables(raw: Seq<char>, path: Seq<char>) -> Result<
    Seq<(Seq<char>, Seq<char>)>,
    Seq<char>,
> {
    let lines = split_spec(raw, '\n');
    dotenv_spec(lines, lines.len(), path)
}

/// Reads a file of variables. Of two assignments to a variable the later
/// stays. The path stands in messages.
pub fn parse_dotenv(raw: &str, path: &str) -> (r: Result<OrderedMap<String>, String>)
    ensures
        (match r {
            Ok(values) => Ok(values@),
            Err(e) => Err(e@),
        }) == file_variables(raw@, path@),
{
    let lines = split(raw, '\n');
    let ghost all = texts(lines@);
    let mut values: OrderedMap<String> = OrderedMap::new();
    let mut i: usize = 0;
    while i < lines.len()
        invariant
            i <= lines@.len(),
            all == texts(lines@),
            all == split_spec(raw@, '\n'),
            dotenv_spec(all, i as nat, path@) == Ok::<_, Seq<char>>(values@),
        decreases lines.len() - i,
    {
        assert(all[i as int] == lines@[i as int]@);
        let n: u64 = i as u64 + 1;
        match read_line(lines[i].as_str()) {
            Line::Blank => {},
            Line::Malformed => {
                let mut message = cat3("malformed ", path, " line ");
                message.append(decimal(n).as_str());
                proof {
                    dotenv_stuck(all, n as nat, all.len(), path@);
                }
                return Err(message);
            },
            Line::BadKey => {
                let mut message = cat3("invalid dotenv key in ", path, " line ");
                message.append(decimal(n).as_str());
                proof {
                    dotenv_stuck(all, n as nat, all.len(), path@);
                }
                return Err(message);
            },
            Line::Assign(key, value) => {
                values.insert(key.as_str(), value);
            },
        }
        i += 1;
    }
    Ok(values)
}

proof fn variables_of_prefix(a: Seq<Seq<char>>, b: Seq<Seq<char>>, n: nat, path: Seq<char>)
    requires
        n <= a.len(),
        n <= b.len(),
        forall|i: int| 0 <= i < n ==> #[trigger] a[i] == b[i],
    ensures
        dotenv_spec(a, n, path) == dotenv_spec(b, n, path),
    decreases n,
{
    if n > 0 {
        variables_of_prefix(a, b, (n - 1) as nat, path);
        assert(a[n - 1] == b[n - 1]);
    }
}

/// The variables of a file are sorted by their names, which are names of
/// variables.
pub proof fn variables_have_names(lines: Seq<Seq<char>>, n: nat, path: Seq<char>)
    ensures
        dotenv_spec(lines, n, path) matches Ok(values) ==> keys_sorted(values) && forall|i: int|
            0 <= i < values.len() ==> is_variable((#[trigger] values[i]).0),
    decreases n,
{
    if 0 < n <= lines.len() {
        variables_have_names(lines, (n - 1) as nat, path);
        if let (Ok(before), LineView::Assign(key, value)) = (
            dotenv_spec(lines, (n - 1) as nat, path),
            line_spec(lines[n - 1]),
        ) {
            put_sorted(before, key, value);
            lower_bound_properties(before, key);
            let after = put(before, key, value);
            let b = lower_bound(before, key);
            assert forall|i: int| 0 <= i < after.len() implies is_variable(
                (#[trigger] after[i]).0,
            ) by {
                if i != b {
                    let k = if after.len() == before.len() || i < b { i } else { i - 1 };
                    assert(after[i] == before[k]);
                }
            }
        }
    }
}

/// Whether variables are those of one file with those of another put over
/// them.
pub open spec fn is_overridden_by(
    values: Seq<(Seq<char>, Seq<char>)>,
    first: Seq<(Seq<char>, Seq<char>)>,
    second: Seq<(Seq<char>, Seq<char>)>,
) -> bool {
    forall|key: Seq<char>| #[trigger]
        lookup(values, key) == match lookup(second, key) {
            Some(value) => Some(value),
            None => lookup(first, key),
        }
}

proof fn variables_of_both(
    first: Seq<Seq<char>>,
    second: Seq<Seq<char>>,
    n: nat,
    path: Seq<char>,
)
    requires
        n <= second.len(),
    ensures
        match (
            dotenv_spec(first, first.len(), path),
            dotenv_spec(second, n, path),
        ) {
            (Ok(a), Ok(b)) => dotenv_spec(
                first + second,
                first.len() + n,
                path,
            ) matches Ok(both) && keys_sorted(both) && is_overridden_by(both, a, b),
            _ => dotenv_spec(first + second, first.len() + n, path) is Err,
        },
    decreases n,
{
    let all = first + second;
    if n == 0 {
        variables_of_prefix(all, first, first.len(), path);
        variables_have_names(first, first.len(), path);
        if let Ok(a) = dotenv_spec(first, first.len(), path) {
            let none: Seq<(Seq<char>, Seq<char>)> = Seq::empty();
            assert forall|key: Seq<char>| #[trigger] lookup(a, key) == match lookup(none, key) {
                Some(value) => Some(value),
                None => lookup(a, key),
            } by {
                lookup_found(none, key);
            }
        }
    } else {
        let m = (n - 1) as nat;
        variables_of_both(first, second, m, path);
        assert(all[(first.len() + m) as int] == second[m as int]);
        if let (Ok(a), Ok(b)) = (
            dotenv_spec(first, first.len(), path),
            dotenv_spec(second, m, path),
        ) {
            let both = dotenv_spec(all, first.len() + m, path)->Ok_0;
            if let LineView::Assign(key, value) = line_spec(second[m as int]) {
                variables_have_names(second, m, path);
                put_sorted(both, key, value);
                assert forall|other: Seq<char>| #[trigger]
                    lookup(put(both, key, value), other) == match lookup(
                    put(b, key, value),
                    other,
                ) {
                    Some(v) => Some(v),
                    None => lookup(a, other),
                } by {
                    lookup_after_put(both, key, value, other);
                    lookup_after_put(b, key, value, other);
                    assert(lookup(both, other) == match lookup(b, other) {
                        Some(v) => Some(v),
                        None => lookup(a, other),
                    });
                }
            }
        }
    }
}

/// Two files of variables joined by the end of a line are read where each of
/// them is, and give the variables of the first with those of the second put
/// over them; and every variable that a file gives has the name of one.
pub proof fn joined_files_override(a: Seq<char>, b: Seq<char>, path: Seq<char>)
    ensures
        match (file_variables(a, path), file_variables(b, path)) {
            (Ok(first), Ok(second)) => file_variables(a.push('\n') + b, path) matches Ok(both)
                && is_overridden_by(both, first, second),
            _ => file_variables(a.push('\n') + b, path) is Err,
        },
        file_variables(a, path) matches Ok(values) ==> forall|i: int|
            0 <= i < values.len() ==> is_variable((#[trigger] values[i]).0),
{
    split_of_joined(a, b, '\n');
    let first = split_spec(a, '\n');
    let second = split_spec(b, '\n');
    variables_of_both(first, second, second.len(), path);
    variables_have_names(first, first.len(), path);
}

/// The first `n` of some variables put over others.
pub open spec fn overlaid_values(
    values: Seq<(Seq<char>, Seq<char>)>,
    more: Seq<(Seq<char>, Seq<char>)>,
    n: nat,
) -> Seq<(Seq<char>, Seq<char>)>
    decreases n,
{
    if n == 0 || n > more.len() {
        values
    } else {
        put(overlaid_values(values, more, (n - 1) as nat), more[n - 1].0, more[n - 1].1)
    }
}

/// Puts variables over others.
pub fn overlay_values(values: &mut OrderedMap<String>, more: &OrderedMap<String>)
    ensures
        final(values)@ == overlaid_values(old(values)@, more@, more@.len()),
{
    let ghost start = values@;
    let mut i: usize = 0;
    while i < more.len()
        invariant
            i <= more@.len(),
            start == old(values)@,
            values@ == overlaid_values(start, more@, i as nat),
        decreases more@.len() - i,
    {
        values.insert(more.key_at(i), more.value_at(i).clone());
        i += 1;
    }
}

/// The variables with the values of the environment, where it sets them. No
/// other variable of the environment is taken.
pub open spec fn overridden(
    values: Seq<(Seq<char>, Seq<char>)>,
    environment: Seq<(Seq<char>, Seq<char>)>,
) -> Seq<(Seq<char>, Seq<char>)> {
    Seq::new(
        values.len(),
        |i: int|
            (
                values[i].0,
                match lookup(environment, values[i].0) {
                    Some(value) => value,
                    None => values[i].1,
                },
            ),
    )
}

/// Gives variables the values that the environment sets.
pub fn override_values(values: &mut OrderedMap<String>, environment: &OrderedMap<String>)
    ensures
        final(values)@ == overridden(old(values)@, environment@),
{
    let ghost start = values@;
    let mut i: usize = 0;
    while i < values.len()
        invariant
            i <= values@.len(),
            start == old(values)@,
            values@.len() == start.len(),
            forall|j: int| 0 <= j < start.len() ==> (#[trigger] values@[j]).0 == start[j].0,
            forall|j: int| i <= j < start.len() ==> (#[trigger] values@[j]) == start[j],
            forall|j: int|
                0 <= j < i ==> (#[trigger] values@[j]) == overridden(start, environment@)[j],
        decreases values@.len() - i,
    {
        let ghost before = values@;
        let set = match environment.get(values.key_at(i)) {
            Some(value) => Some(value.clone()),
            None => None,
        };
        assert(before[i as int] == start[i as int]);
        if let Some(value) = set {
            values.set_value_at(i, value);
        }
        assert forall|j: int| 0 <= j <= i implies (#[trigger] values@[j]) == overridden(
            start,
            environment@,
        )[j] by {
            if j < i {
                assert(values@[j] == before[j]);
            }
        }
        i += 1;
    }
    assert(values@ =~= overridden(start, environment@));
}

/// No variable of the environment reaches the result but those that files
/// name.
pub proof fn environment_does_not_leak(
    values: Seq<(Seq<char>, Seq<char>)>,
    environment: Seq<(Seq<char>, Seq<char>)>,
    i: int,
)
    requires
        0 <= i < values.len(),
    ensures
        overridden(values, environment).len() == values.len(),
        overridden(values, environment)[i].0 == values[i].0,
        lookup(environment, values[i].0) is None ==> overridden(values, environment)[i]
            == values[i],
{
}

/// Where a member stands among objects within objects.
pub open spec fn member_path(prefix: Seq<char>, key: Seq<char>) -> Seq<char> {
    if prefix.len() == 0 {
        key
    } else {
        prefix + "."@ + key
    }
}

/// The members of an object with those from `i` on of another merged in:
/// objects are merged, and other values must be the same in both; or where
/// they are not.
pub open spec fn merge_spec(
    target: MembersView,
    source: MembersView,
    i: nat,
    prefix: Seq<char>,
) -> Result<MembersView, Seq<char>>
    decreases source, source.len() - i,
{
    if i >= source.len() {
        Ok(target)
    } else {
        let (key, value) = source[i as int];
        let path = member_path(prefix, key);
        match lookup(target, key) {
            None => merge_spec(put(target, key, value), source, i + 1, prefix),
            Some(existing) => match (existing, value) {
                (JsonView::Object(known), JsonView::Object(incoming)) => match merge_spec(
                    known,
                    incoming,
                    0,
                    path,
                ) {
                    Err(e) => Err(e),
                    Ok(merged) => merge_spec(
                        put(target, key, JsonView::Object(merged)),
                        source,
                        i + 1,
                        prefix,
                    ),
                },
                _ => if json_equal_spec(existing, value) {
                    merge_spec(target, source, i + 1, prefix)
                } else {
                    Err("conflicting runtime config at `"@ + path + "` across codebases"@)
                },
            },
        }
    }
}

fn path_of(prefix: &str, key: &str) -> (r: String)
    ensures
        r@ == member_path(prefix@, key@),
{
    if is_blank(prefix) {
        key.to_owned()
    } else {
        cat3(prefix, ".", key)
    }
}

/// The view of an outcome in members.
pub open spec fn members_result(r: Result<Vec<(String, Json)>, String>) -> Result<
    MembersView,
    Seq<char>,
> {
    match r {
        Ok(members) => Ok(members_view(members@)),
        Err(e) => Err(e@),
    }
}

fn take_object(v: Json) -> (r: Vec<(String, Json)>)
    requires
        v@ is Object,
    ensures
        members_view(r@) == v@->Object_0,
{
    match v {
        Json::Object(members) => {
            proof {
                json_object_view(members);
            }
            members
        },
        _ => Vec::new(),
    }
}

/// Merges the members of an object into those of another.
pub fn merge_objects(target: Vec<(String, Json)>, source: &Vec<(String, Json)>, prefix: &str) -> (r:
    Result<Vec<(String, Json)>, String>)
    ensures
        members_result(r) == merge_spec(members_view(target@), members_view(source@), 0, prefix@),
    decreases source,
{
    let ghost all = members_view(source@);
    let ghost goal = merge_spec(members_view(target@), all, 0, prefix@);
    proof {
        json_object_view(target);
    }
    let mut merged = Json::Object(target);
    let mut i: usize = 0;
    while i < source.len()
        invariant
            i <= source@.len(),
            all == members_view(source@),
            merged@ is Object,
            goal == merge_spec(members_view(target@), all, 0, prefix@),
            goal == merge_spec(merged@->Object_0, all, i as nat, prefix@),
        decreases source.len() - i,
    {
        assert(decreases_to!(*source => source@[i as int]));
        assert(all[i as int] == (source@[i as int].0@, source@[i as int].1@));
        let key = source[i].0.as_str();
        let value = &source[i].1;
        let known = match merged.get(key) {
            Some(existing) => Some(existing.duplicate()),
            None => None,
        };
        match known {
            None => {
                merged = merged.with(key, value.duplicate());
            },
            Some(existing) => {
                let both = match (&existing, value) {
                    (Json::Object(_), Json::Object(_)) => true,
                    _ => false,
                };
                if both {
                    let path = path_of(prefix, key);
                    if let Json::Object(incoming) = value {
                        proof {
                            json_object_view(*incoming);
                            assert(decreases_to!(*value => *incoming));
                        }
                        match merge_objects(take_object(existing), incoming, path.as_str()) {
                            Ok(members) => {
                                proof {
                                    json_object_view(members);
                                }
                                merged = merged.with(key, Json::Object(members));
                            },
                            Err(e) => {
                                return Err(e);
                            },
                        }
                    }
                } else if !json_equal(&existing, value) {
                    let path = path_of(prefix, key);
                    return Err(
                        cat3(
                            "conflicting runtime config at `",
                            path.as_str(),
                            "` across codebases",
                        ),
                    );
                }
            },
        }
        i += 1;
    }
    Ok(take_object(merged))
}

/// Whether a value is kept as it was, or is an object that has been merged
/// with another.
pub open spec fn kept_or_merged(before: JsonView, after: JsonView) -> bool {
    before == after || (before is Object && after is Object)
}

/// Merging keeps every member that was there.
pub proof fn merging_keeps_members(
    target: MembersView,
    source: MembersView,
    i: nat,
    prefix: Seq<char>,
    key: Seq<char>,
)
    requires
        keys_sorted(target),
        merge_spec(target, source, i, prefix) is Ok,
    ensures
        keys_sorted(merge_spec(target, source, i, prefix)->Ok_0),
        lookup(target, key) matches Some(before) ==> {
            &&& lookup(merge_spec(target, source, i, prefix)->Ok_0, key) is Some
            &&& kept_or_merged(
                before,
                lookup(merge_spec(target, source, i, prefix)->Ok_0, key)->0,
            )
        },
    decreases source.len() - i,
{
    if i < source.len() {
        let (name, value) = source[i as int];
        match lookup(target, name) {
            None => {
                put_sorted(target, name, value);
                lookup_after_put(target, name, value, key);
                merging_keeps_members(put(target, name, value), source, i + 1, prefix, key);
            },
            Some(existing) => match (existing, value) {
                (JsonView::Object(known), JsonView::Object(incoming)) => {
                    let merged = merge_spec(known, incoming, 0, member_path(prefix, name))->Ok_0;
                    let inner = JsonView::Object(merged);
                    put_sorted(target, name, inner);
                    lookup_after_put(target, name, inner, key);
                    merging_keeps_members(put(target, name, inner), source, i + 1, prefix, key);
                },
                _ => {
                    merging_keeps_members(target, source, i + 1, prefix, key);
                },
            },
        }
    }
}

/// Merging takes every member of the other object: with the same value, or as
/// objects that have been merged.
pub proof fn merging_takes_members(
    target: MembersView,
    source: MembersView,
    i: nat,
    prefix: Seq<char>,
    j: int,
)
    requires
        keys_sorted(target),
        merge_spec(target, source, i, prefix) is Ok,
        i <= j < source.len(),
    ensures
        lookup(merge_spec(target, source, i, prefix)->Ok_0, source[j].0) matches Some(after) && (
        json_equal_spec(after, source[j].1) || (after is Object && source[j].1 is Object)),
    decreases source.len() - i,
{
    let (name, value) = source[i as int];
    match lookup(target, name) {
        None => {
            put_sorted(target, name, value);
            let next = put(target, name, value);
            if i == j {
                lookup_after_put(target, name, value, name);
                merging_keeps_members(next, source, i + 1, prefix, name);
                json_equal_reflexive(value);
            } else {
                merging_takes_members(next, source, i + 1, prefix, j);
            }
        },
        Some(existing) => match (existing, value) {
            (JsonView::Object(known), JsonView::Object(incoming)) => {
                let merged = merge_spec(known, incoming, 0, member_path(prefix, name))->Ok_0;
                let inner = JsonView::Object(merged);
                put_sorted(target, name, inner);
                let next = put(target, name, inner);
                if i == j {
                    lookup_after_put(target, name, inner, name);
                    merging_keeps_members(next, source, i + 1, prefix, name);
                } else {
                    merging_takes_members(next, source, i + 1, prefix, j);
                }
            },
            _ => {
                if i == j {
                    merging_keeps_members(target, source, i + 1, prefix, name);
                } else {
                    merging_takes_members(target, source, i + 1, prefix, j);
                }
            },
        },
    }
}

} // verus!
