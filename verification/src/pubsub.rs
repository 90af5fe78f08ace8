//! Pub/Sub: names, settings, pages and messages.
use crate::encoding::{
    text_of_utf8, url_base64_bytes, url_base64_decode, url_base64_encode, url_base64_text,
};
use crate::ordered::Duplicate;
use crate::status::{invalid, status_view, unit_result, Code, Status, StatusView};
use crate::text::{
    cat3, chars_of, is_blank, less, same, split, split_spec, text_less, texts,
};
use crate::value::{copy_bytes, Timestamp};
use vstd::prelude::*;
use vstd::utf8::{decode_utf8, encode_utf8, valid_utf8};

verus! {

/// Whether a character is an ASCII letter.
pub open spec fn is_letter(c: char) -> bool {
    ('a' <= c && c <= 'z') || ('A' <= c && c <= 'Z')
}

/// Whether a character is an ASCII digit.
pub open spec fn is_digit(c: char) -> bool {
    '0' <= c && c <= '9'
}

/// Whether a character may stand in the id of a topic or a subscription.
pub open spec fn is_id_char(c: char) -> bool {
    is_letter(c) || is_digit(c) || c == '-' || c == '_' || c == '.' || c == '~' || c == '+' || c
        == '%'
}

/// Whether a text begins with `goog`, in capitals or small letters.
pub open spec fn begins_with_goog(s: Seq<char>) -> bool {
    s.len() >= 4 && (s[0] == 'g' || s[0] == 'G') && (s[1] == 'o' || s[1] == 'O') && (s[2] == 'o'
        || s[2] == 'O') && (s[3] == 'g' || s[3] == 'G')
}

/// Whether a text is the id of a topic or a subscription: 3 to 255 characters
/// of the allowed ones, a letter first, and not `goog` at the beginning.
pub open spec fn valid_id_spec(id: Seq<char>) -> bool {
    3 <= id.len() <= 255 && (forall|i: int| 0 <= i < id.len() ==> is_id_char(#[trigger] id[i]))
        && is_letter(id[0]) && !begins_with_goog(id)
}

fn letter(c: char) -> (r: bool)
    ensures
        r == is_letter(c),
{
    ('a' <= c && c <= 'z') || ('A' <= c && c <= 'Z')
}

fn id_char(c: char) -> (r: bool)
    ensures
        r == is_id_char(c),
{
    letter(c) || ('0' <= c && c <= '9') || c == '-' || c == '_' || c == '.' || c == '~' || c == '+'
        || c == '%'
}

/// Whether a text is the id of a topic or a subscription.
pub fn valid_id(id: &str) -> (r: bool)
    ensures
        r == valid_id_spec(id@),
{
    let chars = chars_of(id);
    if chars.len() < 3 || chars.len() > 255 {
        return false;
    }
    let mut i: usize = 0;
    while i < chars.len()
        invariant
            i <= chars.len(),
            chars@ == id@,
            forall|j: int| 0 <= j < i ==> is_id_char(#[trigger] chars@[j]),
        decreases chars.len() - i,
    {
        if !id_char(chars[i]) {
            return false;
        }
        i += 1;
    }
    let goog = chars.len() >= 4 && (chars[0] == 'g' || chars[0] == 'G') && (chars[1] == 'o'
        || chars[1] == 'O') && (chars[2] == 'o' || chars[2] == 'O') && (chars[3] == 'g' || chars[3]
        == 'G');
    letter(chars[0]) && !goog
}

/// The project and the id of a name that reads `projects/{project}/{kind}/{id}`.
pub open spec fn parse_resource_spec(value: Seq<char>, kind: Seq<char>) -> Result<
    (Seq<char>, Seq<char>),
    StatusView,
> {
    let parts = split_spec(value, '/');
    if parts.len() == 4 && parts[0] == "projects"@ && parts[1].len() > 0 && parts[2] == kind
        && valid_id_spec(parts[3]) {
        Ok((parts[1], parts[3]))
    } else {
        Err(invalid("expected projects/{project}/"@ + kind + "/{id}"@))
    }
}

/// Splits a name that reads `projects/{project}/{kind}/{id}`.
pub fn parse_resource(value: &str, kind: &str) -> (r: Result<(String, String), Status>)
    ensures
        match r {
            Ok(pair) => parse_resource_spec(value@, kind@) == Ok::<_, StatusView>(
                (pair.0@, pair.1@),
            ),
            Err(e) => parse_resource_spec(value@, kind@) == Err::<(Seq<char>, Seq<char>), _>(e@),
        },
{
    let parts = split(value, '/');
    assert(texts(parts@).len() == parts@.len());
    if parts.len() != 4 || !same(parts[0].as_str(), "projects") || is_blank(parts[1].as_str())
        || !same(parts[2].as_str(), kind) || !valid_id(parts[3].as_str()) {
        return Err(
            Status::invalid_argument(
                cat3("expected projects/{project}/", kind, "/{id}").as_str(),
            ),
        );
    }
    Ok((parts[1].clone(), parts[3].clone()))
}

/// The project of a name that reads `projects/{project}`.
pub open spec fn parse_project_spec(value: Seq<char>) -> Result<Seq<char>, StatusView> {
    let parts = split_spec(value, '/');
    if parts.len() == 2 && parts[0] == "projects"@ && parts[1].len() > 0 {
        Ok(parts[1])
    } else {
        Err(invalid("expected projects/{project}"@))
    }
}

/// Splits a name that reads `projects/{project}`.
pub fn parse_project(value: &str) -> (r: Result<String, Status>)
    ensures
        crate::status::result_view(r) == parse_project_spec(value@),
{
    let parts = split(value, '/');
    assert(texts(parts@).len() == parts@.len());
    if parts.len() != 2 || !same(parts[0].as_str(), "projects") || is_blank(parts[1].as_str()) {
        return Err(Status::invalid_argument("expected projects/{project}"));
    }
    Ok(parts[1].clone())
}

/// The largest page.
pub const MAX_PAGE_SIZE: i32 = 1000;

/// The page size when none is given.
pub const DEFAULT_PAGE_SIZE: i32 = 100;

/// How many values a page holds.
pub open spec fn page_limit(page_size: i32) -> int {
    if page_size == 0 {
        DEFAULT_PAGE_SIZE as int
    } else if page_size < MAX_PAGE_SIZE {
        page_size as int
    } else {
        MAX_PAGE_SIZE as int
    }
}

/// The name behind which a page begins, given what its token decodes to.
pub open spec fn token_name(token: Seq<char>, decoded: Option<Seq<u8>>) -> Result<
    Option<Seq<char>>,
    StatusView,
> {
    if token.len() == 0 {
        Ok(None)
    } else {
        match decoded {
            Some(bytes) => if valid_utf8(bytes) {
                Ok(Some(decode_utf8(bytes)))
            } else {
                Err(invalid("invalid page_token"@))
            },
            None => Err(invalid("invalid page_token"@)),
        }
    }
}

/// The size of a page and the name behind which it begins.
pub open spec fn page_bounds_spec(
    page_size: i32,
    token: Seq<char>,
    decoded: Option<Seq<u8>>,
) -> Result<(int, Option<Seq<char>>), StatusView> {
    if page_size < 0 {
        Err(invalid("page_size must not be negative"@))
    } else {
        match token_name(token, decoded) {
            Err(e) => Err(e),
            Ok(after) => Ok((page_limit(page_size), after)),
        }
    }
}

/// The view of page bounds or of the error that stands for them.
pub open spec fn bounds_result(r: Result<(usize, Option<String>), Status>) -> Result<
    (int, Option<Seq<char>>),
    StatusView,
> {
    match r {
        Ok(pair) => Ok(
            (
                pair.0 as int,
                match pair.1 {
                    Some(name) => Some(name@),
                    None => None,
                },
            ),
        ),
        Err(e) => Err(e@),
    }
}

/// The bounds of a page whose token decodes to `decoded`.
pub fn decoded_page_bounds(page_size: i32, token: &str, decoded: Option<Vec<u8>>) -> (r: Result<
    (usize, Option<String>),
    Status,
>)
    ensures
        bounds_result(r) == page_bounds_spec(
            page_size,
            token@,
            match decoded {
                Some(bytes) => Some(bytes@),
                None => None,
            },
        ),
{
    if page_size < 0 {
        return Err(Status::invalid_argument("page_size must not be negative"));
    }
    let size: usize = if page_size == 0 {
        DEFAULT_PAGE_SIZE as usize
    } else if page_size < MAX_PAGE_SIZE {
        page_size as usize
    } else {
        MAX_PAGE_SIZE as usize
    };
    if is_blank(token) {
        return Ok((size, None));
    }
    match decoded {
        Some(bytes) => match text_of_utf8(bytes) {
            Some(name) => Ok((size, Some(name))),
            None => Err(Status::invalid_argument("invalid page_token")),
        },
        None => Err(Status::invalid_argument("invalid page_token")),
    }
}

/// The bounds of a page.
pub fn page_bounds(page_size: i32, token: &str) -> (r: Result<(usize, Option<String>), Status>)
    ensures
        bounds_result(r) == page_bounds_spec(page_size, token@, url_base64_bytes(token@)),
{
    let decoded = url_base64_decode(token);
    decoded_page_bounds(page_size, token, decoded)
}

/// What is listed by name.
pub trait Named: View + Sized {
    spec fn name_spec(v: Self::V) -> Seq<char>;

    fn name(&self) -> (r: &str)
        ensures
            r@ == Self::name_spec(self@),
    ;
}

impl Named for String {
    open spec fn name_spec(v: Seq<char>) -> Seq<char> {
        v
    }

    fn name(&self) -> (r: &str) {
        self.as_str()
    }
}

/// The views of a list.
pub open spec fn views<T: View>(values: Seq<T>) -> Seq<T::V> {
    values.map_values(|v: T| v@)
}

/// The list with one more value, behind those whose names do not come after
/// its name.
pub open spec fn insert_named<T: Named>(sorted: Seq<T::V>, value: T::V) -> Seq<T::V>
    decreases sorted.len(),
{
    if sorted.len() == 0 || !text_less(T::name_spec(value), T::name_spec(sorted.last())) {
        sorted.push(value)
    } else {
        insert_named::<T>(sorted.drop_last(), value).push(sorted.last())
    }
}

/// The list in the order of the names.
pub open spec fn sort_named<T: Named>(values: Seq<T::V>) -> Seq<T::V>
    decreases values.len(),
{
    if values.len() == 0 {
        values
    } else {
        insert_named::<T>(sort_named::<T>(values.drop_last()), values.last())
    }
}

/// The values whose names come after `after`.
pub open spec fn names_after<T: Named>(values: Seq<T::V>, after: Seq<char>) -> Seq<T::V>
    decreases values.len(),
{
    if values.len() == 0 {
        values
    } else if text_less(after, T::name_spec(values.last())) {
        names_after::<T>(values.drop_last(), after).push(values.last())
    } else {
        names_after::<T>(values.drop_last(), after)
    }
}

/// One page of a list, and the name that the next one begins behind.
pub open spec fn page_spec<T: Named>(
    values: Seq<T::V>,
    size: int,
    after: Option<Seq<char>>,
) -> (Seq<T::V>, Option<Seq<char>>) {
    let sorted = sort_named::<T>(values);
    let rest = match after {
        Some(name) => names_after::<T>(sorted, name),
        None => sorted,
    };
    if rest.len() > size {
        let page = rest.take(size);
        (page, Some(T::name_spec(page.last())))
    } else {
        (rest, None)
    }
}

proof fn insert_named_split<T: Named>(sorted: Seq<T::V>, value: T::V, pos: int)
    requires
        0 <= pos <= sorted.len(),
        forall|k: int|
            pos <= k < sorted.len() ==> text_less(
                T::name_spec(value),
                T::name_spec(#[trigger] sorted[k]),
            ),
        pos > 0 ==> !text_less(T::name_spec(value), T::name_spec(sorted[pos - 1])),
    ensures
        insert_named::<T>(sorted, value) == sorted.insert(pos, value),
    decreases sorted.len(),
{
    if pos == sorted.len() {
        assert(sorted.insert(pos, value) =~= sorted.push(value));
        if sorted.len() > 0 {
            assert(sorted.last() == sorted[pos - 1]);
        }
    } else {
        let init = sorted.drop_last();
        assert(sorted.last() == sorted[sorted.len() - 1]);
        assert forall|k: int| pos <= k < init.len() implies text_less(
            T::name_spec(value),
            T::name_spec(#[trigger] init[k]),
        ) by {
            assert(init[k] == sorted[k]);
        }
        insert_named_split::<T>(init, value, pos);
        assert(init.insert(pos, value).push(sorted.last()) =~= sorted.insert(pos, value));
    }
}

fn sort_by_name<T: Named>(values: Vec<T>) -> (r: Vec<T>)
    ensures
        views(r@) == sort_named::<T>(views(values@)),
{
    let ghost all = views(values@);
    let mut out: Vec<T> = Vec::new();
    assert(views(out@) =~= Seq::<T::V>::empty());
    assert(all.take(0) =~= Seq::<T::V>::empty());
    for value in it: values
        invariant
            it.seq() == values@,
            all == views(values@),
            views(out@) == sort_named::<T>(all.take(it.index() as int)),
    {
        let ghost i = it.index() as int;
        let ghost sorted = views(out@);
        assert(all.take(i + 1).drop_last() =~= all.take(i));
        assert(all.take(i + 1).last() == value@);
        let mut pos: usize = out.len();
        while pos > 0 && less(value.name(), out[pos - 1].name())
            invariant
                pos <= out.len(),
                sorted == views(out@),
                forall|k: int|
                    pos <= k < sorted.len() ==> text_less(
                        T::name_spec(value@),
                        T::name_spec(#[trigger] sorted[k]),
                    ),
            decreases pos,
        {
            assert(sorted[pos - 1] == out@[pos - 1]@);
            pos -= 1;
        }
        proof {
            if pos > 0 {
                assert(sorted[pos - 1] == out@[pos - 1]@);
            }
            insert_named_split::<T>(sorted, value@, pos as int);
        }
        out.insert(pos, value);
        assert(views(out@) =~= sorted.insert(pos as int, value@));
    }
    assert(all.take(all.len() as int) =~= all);
    out
}

fn drop_until<T: Named>(values: Vec<T>, after: &str) -> (r: Vec<T>)
    ensures
        views(r@) == names_after::<T>(views(values@), after@),
{
    let ghost all = views(values@);
    let mut out: Vec<T> = Vec::new();
    assert(views(out@) =~= Seq::<T::V>::empty());
    assert(all.take(0) =~= Seq::<T::V>::empty());
    for value in it: values
        invariant
            it.seq() == values@,
            all == views(values@),
            views(out@) == names_after::<T>(all.take(it.index() as int), after@),
    {
        let ghost i = it.index() as int;
        let ghost before = views(out@);
        assert(all.take(i + 1).drop_last() =~= all.take(i));
        assert(all.take(i + 1).last() == value@);
        if less(after, value.name()) {
            out.push(value);
            assert(views(out@) =~= before.push(value@));
        }
    }
    assert(all.take(all.len() as int) =~= all);
    out
}

/// Cuts one page out of a list.
pub fn page_of<T: Named>(values: Vec<T>, size: usize, after: Option<String>) -> (r: (
    Vec<T>,
    Option<String>,
))
    requires
        size > 0,
    ensures
        (views(r.0@), crate::text::opt_text(r.1)) == page_spec::<T>(
            views(values@),
            size as int,
            crate::text::opt_text(after),
        ),
{
    let sorted = sort_by_name(values);
    let mut rest = match after {
        Some(name) => drop_until(sorted, name.as_str()),
        None => sorted,
    };
    if rest.len() > size {
        let ghost all = views(rest@);
        rest.truncate(size);
        assert(views(rest@) =~= all.take(size as int));
        let last = rest[rest.len() - 1].name().to_owned();
        assert(views(rest@).last() == rest@[rest@.len() - 1]@);
        (rest, Some(last))
    } else {
        (rest, None)
    }
}

/// Whether every value of a list has a name.
pub open spec fn names_filled<T: Named>(values: Seq<T::V>) -> bool {
    forall|i: int| 0 <= i < values.len() ==> T::name_spec(#[trigger] values[i]).len() > 0
}

proof fn inserted_names_filled<T: Named>(sorted: Seq<T::V>, value: T::V)
    requires
        names_filled::<T>(sorted),
        T::name_spec(value).len() > 0,
    ensures
        names_filled::<T>(insert_named::<T>(sorted, value)),
    decreases sorted.len(),
{
    if sorted.len() > 0 {
        let init = sorted.drop_last();
        assert(T::name_spec(sorted[sorted.len() - 1]).len() > 0);
        assert forall|i: int| 0 <= i < init.len() implies T::name_spec(
            #[trigger] init[i],
        ).len() > 0 by {
            assert(init[i] == sorted[i]);
        }
        inserted_names_filled::<T>(init, value);
    }
}

proof fn sorted_names_filled<T: Named>(values: Seq<T::V>)
    requires
        names_filled::<T>(values),
    ensures
        names_filled::<T>(sort_named::<T>(values)),
    decreases values.len(),
{
    if values.len() > 0 {
        let init = values.drop_last();
        assert(T::name_spec(values[values.len() - 1]).len() > 0);
        assert forall|i: int| 0 <= i < init.len() implies T::name_spec(
            #[trigger] init[i],
        ).len() > 0 by {
            assert(init[i] == values[i]);
        }
        sorted_names_filled::<T>(init);
        inserted_names_filled::<T>(sort_named::<T>(init), values.last());
    }
}

proof fn later_names_filled<T: Named>(values: Seq<T::V>, after: Seq<char>)
    requires
        names_filled::<T>(values),
    ensures
        names_filled::<T>(names_after::<T>(values, after)),
    decreases values.len(),
{
    if values.len() > 0 {
        let init = values.drop_last();
        assert(T::name_spec(values[values.len() - 1]).len() > 0);
        assert forall|i: int| 0 <= i < init.len() implies T::name_spec(
            #[trigger] init[i],
        ).len() > 0 by {
            assert(init[i] == values[i]);
        }
        later_names_filled::<T>(init, after);
    }
}

proof fn next_name_filled<T: Named>(values: Seq<T::V>, size: int, after: Option<Seq<char>>)
    requires
        names_filled::<T>(values),
        size > 0,
    ensures
        page_spec::<T>(values, size, after).1 matches Some(name) ==> name.len() > 0,
{
    sorted_names_filled::<T>(values);
    let sorted = sort_named::<T>(values);
    if let Some(name) = after {
        later_names_filled::<T>(sorted, name);
    }
    let rest = match after {
        Some(name) => names_after::<T>(sorted, name),
        None => sorted,
    };
    if rest.len() > size {
        assert(rest.take(size).last() == rest[size - 1]);
        assert(T::name_spec(rest[size - 1]).len() > 0);
    }
}

/// Cuts the page out of a list that a request asks for, with the token of the
/// next one. Where the values have names, the token is empty exactly for the
/// last page.
pub fn paginate<T: Named>(values: Vec<T>, page_size: i32, token: &str) -> (r: Result<
    (Vec<T>, String),
    Status,
>)
    ensures
        match page_bounds_spec(page_size, token@, url_base64_bytes(token@)) {
            Err(e) => r is Err && r->Err_0@ == e,
            Ok(bounds) => {
                let page = page_spec::<T>(views(values@), bounds.0, bounds.1);
                &&& r is Ok
                &&& views(r->Ok_0.0@) == page.0
                &&& r->Ok_0.1@ == match page.1 {
                    Some(name) => url_base64_text(encode_utf8(name)),
                    None => Seq::empty(),
                }
                &&& page.1 matches Some(name) ==> url_base64_bytes(r->Ok_0.1@) == Some(
                    encode_utf8(name),
                )
                &&& names_filled::<T>(views(values@)) ==> (r->Ok_0.1@.len() == 0 <==> page.1
                    is None)
            },
        },
{
    match page_bounds(page_size, token) {
        Err(e) => Err(e),
        Ok((size, after)) => {
            proof {
                if names_filled::<T>(views(values@)) {
                    next_name_filled::<T>(
                        views(values@),
                        size as int,
                        crate::text::opt_text(after),
                    );
                }
            }
            let (page, next) = page_of(values, size, after);
            let ghost follows = crate::text::opt_text(next);
            let token = match next {
                Some(name) => url_base64_encode(name.as_str().as_bytes()),
                None => String::new(),
            };
            assert(next is None ==> token@ =~= Seq::empty());
            proof {
                if follows is Some && follows->0.len() > 0 {
                    assert(encode_utf8(follows->0).len() > 0);
                }
            }
            Ok((page, token))
        },
    }
}

/// A labelled list of texts.
pub open spec fn pairs_view(pairs: Seq<(String, String)>) -> Seq<(Seq<char>, Seq<char>)> {
    pairs.map_values(|p: (String, String)| (p.0@, p.1@))
}

pub(crate) fn copy_pairs(pairs: &Vec<(String, String)>) -> (r: Vec<(String, String)>)
    ensures
        pairs_view(r@) == pairs_view(pairs@),
{
    let mut out: Vec<(String, String)> = Vec::new();
    let mut i: usize = 0;
    while i < pairs.len()
        invariant
            i <= pairs.len(),
            out@.len() == i,
            forall|j: int|
                0 <= j < i ==> (#[trigger] out@[j]).0@ == pairs@[j].0@ && out@[j].1@ == pairs@[j].1@,
        decreases pairs.len() - i,
    {
        let key = pairs[i].0.clone();
        let value = pairs[i].1.clone();
        out.push((key, value));
        i += 1;
    }
    assert(pairs_view(out@) =~= pairs_view(pairs@));
    out
}

/// Which settings a topic asks for that are not supported.
#[derive(Clone, Copy, PartialEq, Eq, Debug, Structural)]
pub struct TopicOptions {
    pub storage_policy: bool,
    pub kms_key: bool,
    pub schema: bool,
    pub retention: bool,
    pub ingestion: bool,
}

impl TopicOptions {
    pub open spec fn none_spec() -> TopicOptions {
        TopicOptions {
            storage_policy: false,
            kms_key: false,
            schema: false,
            retention: false,
            ingestion: false,
        }
    }

    /// No such setting.
    pub fn none() -> (r: TopicOptions)
        ensures
            r == TopicOptions::none_spec(),
    {
        TopicOptions {
            storage_policy: false,
            kms_key: false,
            schema: false,
            retention: false,
            ingestion: false,
        }
    }
}

/// A topic.
#[derive(PartialEq, Eq, Debug)]
pub struct Topic {
    pub name: String,
    pub labels: Vec<(String, String)>,
    pub state: i32,
    pub options: TopicOptions,
}

/// What a [`Topic`] stands for.
#[verifier::ext_equal]
pub struct TopicView {
    pub name: Seq<char>,
    pub labels: Seq<(Seq<char>, Seq<char>)>,
    pub state: i32,
    pub options: TopicOptions,
}

impl View for Topic {
    type V = TopicView;

    open spec fn view(&self) -> TopicView {
        TopicView {
            name: self.name@,
            labels: pairs_view(self.labels@),
            state: self.state,
            options: self.options,
        }
    }
}

impl Duplicate for Topic {
    fn duplicate(&self) -> (r: Self) {
        Topic {
            name: self.name.clone(),
            labels: copy_pairs(&self.labels),
            state: self.state,
            options: self.options,
        }
    }
}

impl Named for Topic {
    open spec fn name_spec(v: TopicView) -> Seq<char> {
        v.name
    }

    fn name(&self) -> (r: &str) {
        self.name.as_str()
    }
}

pub open spec fn topic_supported_spec(topic: TopicView) -> Result<(), StatusView> {
    if topic.options == TopicOptions::none_spec() {
        Ok(())
    } else {
        Err(
            status_view(
                Code::Unimplemented,
                "topic storage policies, KMS, schemas, ingestion, and configurable retention are unsupported"@,
            ),
        )
    }
}

/// Refuses a topic with a setting that is not supported.
pub fn topic_supported(topic: &Topic) -> (r: Result<(), Status>)
    ensures
        unit_result(r) == topic_supported_spec(topic@),
{
    let options = topic.options;
    if options.storage_policy || options.kms_key || options.schema || options.retention
        || options.ingestion {
        return Err(
            Status::new(
                Code::Unimplemented,
                "topic storage policies, KMS, schemas, ingestion, and configurable retention are unsupported",
            ),
        );
    }
    Ok(())
}

/// Which settings a subscription asks for that are not supported.
#[derive(Clone, Copy, PartialEq, Eq, Debug, Structural)]
pub struct SubscriptionOptions {
    pub push: bool,
    pub bigquery: bool,
    pub cloud_storage: bool,
    pub message_ordering: bool,
    pub retain_acked_messages: bool,
    pub message_retention: bool,
    pub expiration_policy: bool,
    pub filter: bool,
    pub dead_letter_policy: bool,
    pub retry_policy: bool,
    pub exactly_once_delivery: bool,
    pub topic_message_retention: bool,
    pub analytics_hub: bool,
}

impl SubscriptionOptions {
    pub open spec fn none_spec() -> SubscriptionOptions {
        SubscriptionOptions {
            push: false,
            bigquery: false,
            cloud_storage: false,
            message_ordering: false,
            retain_acked_messages: false,
            message_retention: false,
            expiration_policy: false,
            filter: false,
            dead_letter_policy: false,
            retry_policy: false,
            exactly_once_delivery: false,
            topic_message_retention: false,
            analytics_hub: false,
        }
    }

    /// No such setting.
    pub fn none() -> (r: SubscriptionOptions)
        ensures
            r == SubscriptionOptions::none_spec(),
    {
        SubscriptionOptions {
            push: false,
            bigquery: false,
            cloud_storage: false,
            message_ordering: false,
            retain_acked_messages: false,
            message_retention: false,
            expiration_policy: false,
            filter: false,
            dead_letter_policy: false,
            retry_policy: false,
            exactly_once_delivery: false,
            topic_message_retention: false,
            analytics_hub: false,
        }
    }
}

/// A subscription to a topic.
#[derive(PartialEq, Eq, Debug)]
pub struct Subscription {
    pub name: String,
    pub topic: String,
    pub ack_deadline_seconds: i32,
    pub labels: Vec<(String, String)>,
    pub state: i32,
    pub options: SubscriptionOptions,
}

/// What a [`Subscription`] stands for.
#[verifier::ext_equal]
pub struct SubscriptionView {
    pub name: Seq<char>,
    pub topic: Seq<char>,
    pub ack_deadline_seconds: i32,
    pub labels: Seq<(Seq<char>, Seq<char>)>,
    pub state: i32,
    pub options: SubscriptionOptions,
}

impl View for Subscription {
    type V = SubscriptionView;

    open spec fn view(&self) -> SubscriptionView {
        SubscriptionView {
            name: self.name@,
            topic: self.topic@,
            ack_deadline_seconds: self.ack_deadline_seconds,
            labels: pairs_view(self.labels@),
            state: self.state,
            options: self.options,
        }
    }
}

impl Duplicate for Subscription {
    fn duplicate(&self) -> (r: Self) {
        Subscription {
            name: self.name.clone(),
            topic: self.topic.clone(),
            ack_deadline_seconds: self.ack_deadline_seconds,
            labels: copy_pairs(&self.labels),
            state: self.state,
            options: self.options,
        }
    }
}

impl Named for Subscription {
    open spec fn name_spec(v: SubscriptionView) -> Seq<char> {
        v.name
    }

    fn name(&self) -> (r: &str) {
        self.name.as_str()
    }
}

/// The deadline of a subscription that gives none.
pub const DEFAULT_ACK_DEADLINE: i32 = 10;

/// A subscription with its deadline filled in, or why it is refused.
pub open spec fn normalize_subscription_spec(subscription: SubscriptionView) -> Result<
    SubscriptionView,
    StatusView,
> {
    let options = subscription.options;
    if options.push {
        Err(
            status_view(
                Code::Unimplemented,
                "push subscriptions are unsupported; use a pull subscription"@,
            ),
        )
    } else if options.bigquery || options.cloud_storage {
        Err(
            status_view(
                Code::Unimplemented,
                "BigQuery and Cloud Storage subscriptions are unsupported"@,
            ),
        )
    } else if options != SubscriptionOptions::none_spec() {
        Err(
            status_view(
                Code::Unimplemented,
                "ordering, filters, snapshots/retention, dead-letter/retry policies, and exactly-once delivery are unsupported"@,
            ),
        )
    } else if subscription.ack_deadline_seconds == 0 {
        Ok(SubscriptionView { ack_deadline_seconds: DEFAULT_ACK_DEADLINE, ..subscription })
    } else if 10 <= subscription.ack_deadline_seconds <= 600 {
        Ok(subscription)
    } else {
        Err(invalid("ack_deadline_seconds must be zero or between 10 and 600"@))
    }
}

/// Fills in the deadline of a subscription, or refuses it.
pub fn normalize_subscription(subscription: Subscription) -> (r: Result<Subscription, Status>)
    ensures
        crate::status::result_view(r) == normalize_subscription_spec(subscription@),
{
    let options = subscription.options;
    if options.push {
        return Err(
            Status::new(
                Code::Unimplemented,
                "push subscriptions are unsupported; use a pull subscription",
            ),
        );
    }
    if options.bigquery || options.cloud_storage {
        return Err(
            Status::new(
                Code::Unimplemented,
                "BigQuery and Cloud Storage subscriptions are unsupported",
            ),
        );
    }
    if options.message_ordering || options.retain_acked_messages || options.message_retention
        || options.expiration_policy || options.filter || options.dead_letter_policy
        || options.retry_policy || options.exactly_once_delivery
        || options.topic_message_retention || options.analytics_hub {
        return Err(
            Status::new(
                Code::Unimplemented,
                "ordering, filters, snapshots/retention, dead-letter/retry policies, and exactly-once delivery are unsupported",
            ),
        );
    }
    let mut subscription = subscription;
    if subscription.ack_deadline_seconds == 0 {
        subscription.ack_deadline_seconds = DEFAULT_ACK_DEADLINE;
    } else if subscription.ack_deadline_seconds < 10 || subscription.ack_deadline_seconds > 600 {
        return Err(
            Status::invalid_argument("ack_deadline_seconds must be zero or between 10 and 600"),
        );
    }
    Ok(subscription)
}

/// A message.
#[derive(PartialEq, Eq, Debug)]
pub struct PubsubMessage {
    pub data: Vec<u8>,
    pub attributes: Vec<(String, String)>,
    pub message_id: String,
    pub publish_time: Option<Timestamp>,
    pub ordering_key: String,
}

/// What a [`PubsubMessage`] stands for.
#[verifier::ext_equal]
pub struct MessageView {
    pub data: Seq<u8>,
    pub attributes: Seq<(Seq<char>, Seq<char>)>,
    pub message_id: Seq<char>,
    pub publish_time: Option<Timestamp>,
    pub ordering_key: Seq<char>,
}

impl View for PubsubMessage {
    type V = MessageView;

    open spec fn view(&self) -> MessageView {
        MessageView {
            data: self.data@,
            attributes: pairs_view(self.attributes@),
            message_id: self.message_id@,
            publish_time: self.publish_time,
            ordering_key: self.ordering_key@,
        }
    }
}

impl Duplicate for PubsubMessage {
    fn duplicate(&self) -> (r: Self) {
        PubsubMessage {
            data: copy_bytes(&self.data),
            attributes: copy_pairs(&self.attributes),
            message_id: self.message_id.clone(),
            publish_time: self.publish_time,
            ordering_key: self.ordering_key.clone(),
        }
    }
}

/// How many bytes a number takes on the wire: one for each seven bits.
pub open spec fn varint_len(value: nat) -> nat
    decreases value,
{
    if value < 128 {
        1
    } else {
        1 + varint_len(value / 128)
    }
}

/// `prost::encoding::encoded_len_varint` counts the groups of seven bits that
/// a number takes, at least one.
pub assume_specification[ prost::encoding::encoded_len_varint ](value: u64) -> (r: usize)
    ensures
        r == varint_len(value as nat),
        1 <= r <= 10,
;

/// The bytes of a field whose key takes one byte and whose content takes
/// `len`; none when the content is empty.
pub open spec fn field_len(len: nat) -> nat {
    if len == 0 {
        0
    } else {
        1 + varint_len(len) + len
    }
}

/// The bytes of an entry of the attributes.
pub open spec fn attribute_len(attribute: (Seq<char>, Seq<char>)) -> nat {
    let len = field_len(encode_utf8(attribute.0).len()) + field_len(
        encode_utf8(attribute.1).len(),
    );
    1 + varint_len(len) + len
}

/// The bytes of all attributes.
pub open spec fn attributes_len(attributes: Seq<(Seq<char>, Seq<char>)>) -> nat
    decreases attributes.len(),
{
    if attributes.len() == 0 {
        0
    } else {
        attributes_len(attributes.drop_last()) + attribute_len(attributes.last())
    }
}

/// The bytes of a signed number; none when it is zero.
pub open spec fn signed_len(value: int) -> nat {
    if value == 0 {
        0
    } else if value > 0 {
        1 + varint_len(value as nat)
    } else {
        11
    }
}

/// The bytes of a point in time.
pub open spec fn time_len(time: Option<Timestamp>) -> nat {
    match time {
        None => 0,
        Some(t) => {
            let len = signed_len(t.seconds as int) + signed_len(t.nanos as int);
            1 + varint_len(len) + len
        },
    }
}

/// The bytes of a message on the wire.
pub open spec fn message_len(message: MessageView) -> nat {
    field_len(message.data.len()) + attributes_len(message.attributes) + field_len(
        encode_utf8(message.message_id).len(),
    ) + time_len(message.publish_time) + field_len(encode_utf8(message.ordering_key).len())
}

/// A number of bytes as the machine counts it.
pub open spec fn clamp_len(len: nat) -> u64 {
    if len <= u64::MAX {
        len as u64
    } else {
        u64::MAX
    }
}

fn plus(a: u64, b: u64) -> (r: u64)
    ensures
        r == clamp_len((a + b) as nat),
{
    if a <= u64::MAX - b {
        a + b
    } else {
        u64::MAX
    }
}

fn field_bytes(len: usize) -> (r: u64)
    ensures
        r == clamp_len(field_len(len as nat)),
{
    if len == 0 {
        return 0;
    }
    plus(1 + prost::encoding::encoded_len_varint(len as u64) as u64, len as u64)
}

proof fn varint_len_small(value: nat)
    requires
        value < 128,
    ensures
        varint_len(value) == 1,
{
}

fn text_bytes(text: &str) -> (r: usize)
    ensures
        r == encode_utf8(text@).len(),
{
    text.as_bytes().len()
}

fn attribute_bytes(attribute: &(String, String)) -> (r: u64)
    ensures
        r == clamp_len(attribute_len((attribute.0@, attribute.1@))),
{
    let len = plus(
        field_bytes(text_bytes(attribute.0.as_str())),
        field_bytes(text_bytes(attribute.1.as_str())),
    );
    plus(1 + prost::encoding::encoded_len_varint(len) as u64, len)
}

fn signed_bytes(value: i64) -> (r: u64)
    ensures
        r == signed_len(value as int),
        r <= 11,
{
    if value == 0 {
        0
    } else if value > 0 {
        1 + prost::encoding::encoded_len_varint(value as u64) as u64
    } else {
        11
    }
}

/// How many bytes a message takes on the wire.
pub fn encoded_len(message: &PubsubMessage) -> (r: u64)
    ensures
        r == clamp_len(message_len(message@)),
{
    let ghost all = pairs_view(message.attributes@);
    let mut attributes: u64 = 0;
    let mut i: usize = 0;
    assert(all.take(0) =~= Seq::empty());
    while i < message.attributes.len()
        invariant
            i <= message.attributes@.len(),
            all == pairs_view(message.attributes@),
            attributes == clamp_len(attributes_len(all.take(i as int))),
        decreases message.attributes@.len() - i,
    {
        assert(all.take(i + 1).drop_last() =~= all.take(i as int));
        assert(all.take(i + 1).last() == (
            message.attributes@[i as int].0@,
            message.attributes@[i as int].1@,
        ));
        attributes = plus(attributes, attribute_bytes(&message.attributes[i]));
        i += 1;
    }
    assert(all.take(i as int) =~= all);
    let time: u64 = match message.publish_time {
        None => 0,
        Some(t) => {
            let len = signed_bytes(t.seconds) + signed_bytes(t.nanos as i64);
            proof {
                varint_len_small(len as nat);
            }
            2 + len
        },
    };
    let data = field_bytes(message.data.len());
    let id = field_bytes(text_bytes(message.message_id.as_str()));
    let key = field_bytes(text_bytes(message.ordering_key.as_str()));
    plus(plus(plus(plus(data, attributes), id), time), key)
}

} // verus!
