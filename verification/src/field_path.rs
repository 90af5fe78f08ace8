//! Field paths: names separated by dots, where a name may stand in backquotes.
use crate::status::{invalid, Status, StatusView};
use crate::text::{chars_of, texts};
use vstd::prelude::*;

verus! {

/// How far a field path has been read: the names that are complete, the
/// characters of the one that is not, and whether the next character stands
/// inside backquotes or behind a backslash.
#[verifier::ext_equal]
pub struct PathState {
    pub parts: Seq<Seq<char>>,
    pub part: Seq<char>,
    pub quoted: bool,
    pub escape: bool,
}

/// Reads one more character; nothing when a dot ends an empty name.
pub open spec fn path_step(state: PathState, c: char) -> Option<PathState> {
    if state.escape {
        Some(PathState { part: state.part.push(c), escape: false, ..state })
    } else if c == '\\' && state.quoted {
        Some(PathState { escape: true, ..state })
    } else if c == '`' {
        Some(PathState { quoted: !state.quoted, ..state })
    } else if c == '.' && !state.quoted {
        if state.part.len() == 0 {
            None
        } else {
            Some(PathState { parts: state.parts.push(state.part), part: Seq::empty(), ..state })
        }
    } else {
        Some(PathState { part: state.part.push(c), ..state })
    }
}

/// Reads a whole text.
pub open spec fn path_scan(s: Seq<char>) -> Option<PathState>
    decreases s.len(),
{
    if s.len() == 0 {
        Some(
            PathState { parts: Seq::empty(), part: Seq::empty(), quoted: false, escape: false },
        )
    } else {
        match path_scan(s.drop_last()) {
            Some(state) => path_step(state, s.last()),
            None => None,
        }
    }
}

/// The names of a field path.
pub open spec fn field_path_spec(path: Seq<char>) -> Result<Seq<Seq<char>>, StatusView> {
    match path_scan(path) {
        None => Err(invalid("empty field path"@)),
        Some(state) => if state.quoted || state.escape || state.part.len() == 0 {
            Err(invalid("invalid field path"@))
        } else {
            Ok(state.parts.push(state.part))
        },
    }
}

proof fn path_scan_stuck(s: Seq<char>, i: int)
    requires
        0 <= i <= s.len(),
        path_scan(s.take(i)) is None,
    ensures
        path_scan(s) is None,
    decreases s.len() - i,
{
    if i < s.len() {
        assert(s.take(i + 1).drop_last() =~= s.take(i));
        path_scan_stuck(s, i + 1);
    } else {
        assert(s.take(i) =~= s);
    }
}

/// The view of a list of names or of the error that stands for it.
pub open spec fn parts_result(r: Result<Vec<String>, Status>) -> Result<
    Seq<Seq<char>>,
    StatusView,
> {
    match r {
        Ok(parts) => Ok(texts(parts@)),
        Err(e) => Err(e@),
    }
}

/// Splits a field path into its names.
pub fn field_path(path: &str) -> (r: Result<Vec<String>, Status>)
    ensures
        parts_result(r) == field_path_spec(path@),
        r matches Ok(parts) ==> parts@.len() > 0,
{
    let chars = chars_of(path);
    let mut parts: Vec<String> = Vec::new();
    let mut part: String = String::new();
    let mut quoted = false;
    let mut escape = false;
    let mut i: usize = 0;
    assert(texts(parts@) =~= Seq::empty());
    while i < chars.len()
        invariant
            i <= chars.len(),
            chars@ == path@,
            path_scan(path@.take(i as int)) == Some(
                PathState { parts: texts(parts@), part: part@, quoted, escape },
            ),
        decreases chars.len() - i,
    {
        let c = chars[i];
        assert(path@.take(i + 1).drop_last() =~= path@.take(i as int));
        if escape {
            part.push(c);
            escape = false;
        } else if c == '\\' && quoted {
            escape = true;
        } else if c == '`' {
            quoted = !quoted;
        } else if c == '.' && !quoted {
            if chars_of(part.as_str()).len() == 0 {
                proof {
                    path_scan_stuck(path@, i + 1);
                }
                return Err(Status::invalid_argument("empty field path"));
            }
            let ghost before = texts(parts@).push(part@);
            parts.push(part);
            part = String::new();
            assert(texts(parts@) =~= before);
            assert(part@ =~= Seq::<char>::empty());
        } else {
            part.push(c);
        }
        i += 1;
    }
    assert(path@.take(i as int) =~= path@);
    if quoted || escape || chars_of(part.as_str()).len() == 0 {
        return Err(Status::invalid_argument("invalid field path"));
    }
    let ghost all = texts(parts@).push(part@);
    parts.push(part);
    assert(texts(parts@) =~= all);
    Ok(parts)
}

/// The characters of a name with a backslash before each backslash and
/// backquote.
pub open spec fn escaped(name: Seq<char>) -> Seq<char>
    decreases name.len(),
{
    if name.len() == 0 {
        Seq::empty()
    } else if name.last() == '\\' || name.last() == '`' {
        escaped(name.drop_last()).push('\\').push(name.last())
    } else {
        escaped(name.drop_last()).push(name.last())
    }
}

/// A name in backquotes.
pub open spec fn quoted_field_path_spec(name: Seq<char>) -> Seq<char> {
    (seq!['`'] + escaped(name)).push('`')
}

/// Writes a name as a field path of one name.
pub fn quoted_field_path(field_name: &str) -> (r: String)
    ensures
        r@ == quoted_field_path_spec(field_name@),
{
    let chars = chars_of(field_name);
    let mut out = String::new();
    out.push('`');
    let mut i: usize = 0;
    assert(out@ =~= seq!['`'] + escaped(field_name@.take(0)));
    while i < chars.len()
        invariant
            i <= chars.len(),
            chars@ == field_name@,
            out@ == seq!['`'] + escaped(field_name@.take(i as int)),
        decreases chars.len() - i,
    {
        let c = chars[i];
        assert(field_name@.take(i + 1).drop_last() =~= field_name@.take(i as int));
        if c == '\\' || c == '`' {
            out.push('\\');
        }
        out.push(c);
        assert(out@ =~= seq!['`'] + escaped(field_name@.take(i + 1)));
        i += 1;
    }
    assert(field_name@.take(i as int) =~= field_name@);
    out.push('`');
    out
}

proof fn scan_of_escaped(name: Seq<char>)
    ensures
        path_scan(seq!['`'] + escaped(name)) == Some(
            PathState { parts: Seq::empty(), part: name, quoted: true, escape: false },
        ),
    decreases name.len(),
{
    let open = seq!['`'];
    if name.len() == 0 {
        assert(open + escaped(name) =~= open);
        assert(open.drop_last() =~= Seq::empty());
        assert(path_scan(open.drop_last()) is Some);
        assert(name =~= Seq::empty());
    } else {
        let rest = name.drop_last();
        let c = name.last();
        scan_of_escaped(rest);
        let inner = open + escaped(rest);
        assert(rest.push(c) =~= name);
        if c == '\\' || c == '`' {
            let mid = inner.push('\\');
            let all = mid.push(c);
            assert(open + escaped(name) =~= all);
            assert(all.drop_last() =~= mid);
            assert(mid.drop_last() =~= inner);
            assert(path_scan(mid) == Some(
                PathState { parts: Seq::empty(), part: rest, quoted: true, escape: true },
            ));
        } else {
            let all = inner.push(c);
            assert(open + escaped(name) =~= all);
            assert(all.drop_last() =~= inner);
        }
    }
}

/// Reading a quoted name gives back that name, whatever characters it has.
pub proof fn quoted_name_reads_back(name: Seq<char>)
    requires
        name.len() > 0,
    ensures
        field_path_spec(quoted_field_path_spec(name)) == Ok::<Seq<Seq<char>>, StatusView>(
            seq![name],
        ),
{
    scan_of_escaped(name);
    let all = quoted_field_path_spec(name);
    assert(all.drop_last() =~= seq!['`'] + escaped(name));
    assert(Seq::<Seq<char>>::empty().push(name) =~= seq![name]);
}

} // verus!
