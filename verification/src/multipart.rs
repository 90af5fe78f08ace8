//! Uploads in two parts, and the texts of requests around them.
use crate::encoding::text_of_utf8;
use crate::text::{
    after_prefix, cat, chars_of, opt_text, split, split_once, split_once_spec, split_spec,
    strip_prefix, text_of, texts,
};
use vstd::prelude::*;
use vstd::utf8::{decode_utf8, encode_utf8, valid_utf8};

verus! {

/// Whether `needle` stands in `hay` at `i`.
pub open spec fn stands_at<T>(hay: Seq<T>, needle: Seq<T>, i: int) -> bool {
    0 <= i && i + needle.len() <= hay.len() && hay.subrange(i, i + needle.len()) == needle
}

/// The first place from `i` on where `needle` stands in `hay`.
pub open spec fn find_spec<T>(hay: Seq<T>, needle: Seq<T>, i: int) -> Option<int>
    decreases hay.len() + 1 - i,
{
    if i < 0 || i + needle.len() > hay.len() {
        None
    } else if stands_at(hay, needle, i) {
        Some(i)
    } else {
        find_spec(hay, needle, i + 1)
    }
}

/// What is found stands there, and nowhere before.
pub proof fn found_is_first<T>(hay: Seq<T>, needle: Seq<T>, i: int)
    requires
        0 <= i,
    ensures
        match find_spec(hay, needle, i) {
            Some(k) => i <= k && stands_at(hay, needle, k) && forall|j: int|
                i <= j < k ==> !#[trigger] stands_at(hay, needle, j),
            None => forall|j: int| i <= j ==> !#[trigger] stands_at(hay, needle, j),
        },
    decreases hay.len() + 1 - i,
{
    if i + needle.len() <= hay.len() && !stands_at(hay, needle, i) {
        found_is_first(hay, needle, i + 1);
    }
}

fn bytes_stand_at(hay: &[u8], needle: &[u8], i: usize) -> (r: bool)
    requires
        i + needle@.len() <= hay@.len(),
    ensures
        r == stands_at(hay@, needle@, i as int),
{
    let total: usize = hay.len();
    let mut k: usize = 0;
    while k < needle.len()
        invariant
            k <= needle@.len(),
            i + needle@.len() <= total,
            total == hay@.len(),
            forall|j: int| 0 <= j < k ==> hay@[i + j] == needle@[j],
        decreases needle.len() - k,
    {
        if hay[i + k] != needle[k] {
            assert(hay@.subrange(i as int, i + needle@.len())[k as int] != needle@[k as int]);
            return false;
        }
        k += 1;
    }
    assert(hay@.subrange(i as int, i + needle@.len()) =~= needle@);
    true
}

fn find_from(hay: &[u8], needle: &[u8], from: usize) -> (r: Option<usize>)
    requires
        from <= hay@.len(),
    ensures
        match r {
            Some(k) => find_spec(hay@, needle@, from as int) == Some(k as int) && from <= k && k
                + needle@.len() <= hay@.len(),
            None => find_spec(hay@, needle@, from as int) is None,
        },
{
    let mut i: usize = from;
    while i <= hay.len() && needle.len() <= hay.len() - i
        invariant
            from <= i,
            i <= hay@.len() + 1,
            hay@.len() < usize::MAX || i <= hay@.len(),
            find_spec(hay@, needle@, from as int) == find_spec(hay@, needle@, i as int),
        decreases hay@.len() + 1 - i,
    {
        if bytes_stand_at(hay, needle, i) {
            return Some(i);
        }
        if i == hay.len() {
            assert(find_spec(hay@, needle@, i + 1) is None);
            return None;
        }
        i += 1;
    }
    None
}

/// Where `needle` first stands in `haystack`.
pub fn find_bytes(haystack: &[u8], needle: &[u8]) -> (r: Option<usize>)
    ensures
        match r {
            Some(k) => find_spec(haystack@, needle@, 0) == Some(k as int),
            None => find_spec(haystack@, needle@, 0) is None,
        },
{
    find_from(haystack, needle, 0)
}

/// Whether a character is white space.
pub open spec fn is_white_spec(c: char) -> bool {
    let n = c as u32;
    ||| 0x9 <= n <= 0xd
    ||| n == 0x20
    ||| n == 0x85
    ||| n == 0xa0
    ||| n == 0x1680
    ||| 0x2000 <= n <= 0x200a
    ||| n == 0x2028
    ||| n == 0x2029
    ||| n == 0x202f
    ||| n == 0x205f
    ||| n == 0x3000
}

pub fn is_white(c: char) -> (r: bool)
    ensures
        r == is_white_spec(c),
{
    let n: u32 = c as u32;
    (0x9 <= n && n <= 0xd) || n == 0x20 || n == 0x85 || n == 0xa0 || n == 0x1680 || (0x2000 <= n && n
        <= 0x200a) || n == 0x2028 || n == 0x2029 || n == 0x202f || n == 0x205f || n == 0x3000
}

/// A text without the characters of a kind at its front.
pub open spec fn skip_front(s: Seq<char>, unwanted: spec_fn(char) -> bool) -> Seq<char>
    decreases s.len(),
{
    if s.len() > 0 && unwanted(s[0]) {
        skip_front(s.drop_first(), unwanted)
    } else {
        s
    }
}

/// A text without the characters of a kind at its back.
pub open spec fn skip_back(s: Seq<char>, unwanted: spec_fn(char) -> bool) -> Seq<char>
    decreases s.len(),
{
    if s.len() > 0 && unwanted(s.last()) {
        skip_back(s.drop_last(), unwanted)
    } else {
        s
    }
}

/// The characters equal to `c`.
pub open spec fn just(c: char) -> spec_fn(char) -> bool {
    |x: char| x == c
}

/// The white space characters.
pub open spec fn white() -> spec_fn(char) -> bool {
    |x: char| is_white_spec(x)
}

/// A text without the white space around it.
pub open spec fn trim_spec(s: Seq<char>) -> Seq<char> {
    skip_back(skip_front(s, white()), white())
}

/// A text without the `c`s around it.
pub open spec fn trim_matches_spec(s: Seq<char>, c: char) -> Seq<char> {
    skip_back(skip_front(s, just(c)), just(c))
}

fn trim_flagged(
    chars: &Vec<char>,
    flags: &Vec<bool>,
    Ghost(unwanted): Ghost<spec_fn(char) -> bool>,
) -> (r: String)
    requires
        flags@.len() == chars@.len(),
        forall|i: int| 0 <= i < chars@.len() ==> flags@[i] == unwanted(#[trigger] chars@[i]),
    ensures
        r@ == skip_back(skip_front(chars@, unwanted), unwanted),
{
    let mut from: usize = 0;
    let ghost front = skip_front(chars@, unwanted);
    assert(chars@.skip(0) =~= chars@);
    while from < chars.len() && flags[from]
        invariant
            from <= chars@.len(),
            flags@.len() == chars@.len(),
            forall|i: int| 0 <= i < chars@.len() ==> flags@[i] == unwanted(#[trigger] chars@[i]),
            front == skip_front(chars@.skip(from as int), unwanted),
        decreases chars.len() - from,
    {
        assert(chars@.skip(from as int)[0] == chars@[from as int]);
        assert(chars@.skip(from as int).drop_first() =~= chars@.skip(from + 1));
        from += 1;
    }
    proof {
        if from < chars@.len() {
            assert(chars@.skip(from as int)[0] == chars@[from as int]);
        }
    }
    assert(front == chars@.skip(from as int));
    let mut to: usize = chars.len();
    assert(chars@.subrange(from as int, to as int) =~= front);
    while to > from && flags[to - 1]
        invariant
            from <= to <= chars@.len(),
            flags@.len() == chars@.len(),
            forall|i: int| 0 <= i < chars@.len() ==> flags@[i] == unwanted(#[trigger] chars@[i]),
            skip_back(front, unwanted) == skip_back(
                chars@.subrange(from as int, to as int),
                unwanted,
            ),
        decreases to,
    {
        let ghost now = chars@.subrange(from as int, to as int);
        assert(now.last() == chars@[to - 1]);
        assert(now.drop_last() =~= chars@.subrange(from as int, to - 1));
        to -= 1;
    }
    proof {
        if to > from {
            assert(chars@.subrange(from as int, to as int).last() == chars@[to - 1]);
        }
    }
    text_of(chars.as_slice(), from, to)
}

/// Removes the white space around a text.
pub fn trim(s: &str) -> (r: String)
    ensures
        r@ == trim_spec(s@),
{
    let chars = chars_of(s);
    let mut flags: Vec<bool> = Vec::new();
    let mut i: usize = 0;
    while i < chars.len()
        invariant
            i <= chars@.len(),
            flags@.len() == i,
            forall|j: int| 0 <= j < i ==> flags@[j] == is_white_spec(#[trigger] chars@[j]),
        decreases chars.len() - i,
    {
        flags.push(is_white(chars[i]));
        i += 1;
    }
    trim_flagged(&chars, &flags, Ghost(white()))
}

/// Removes every `c` around a text.
pub fn trim_matches(s: &str, c: char) -> (r: String)
    ensures
        r@ == trim_matches_spec(s@, c),
{
    let chars = chars_of(s);
    let mut flags: Vec<bool> = Vec::new();
    let mut i: usize = 0;
    while i < chars.len()
        invariant
            i <= chars@.len(),
            flags@.len() == i,
            forall|j: int| 0 <= j < i ==> flags@[j] == (#[trigger] chars@[j] == c),
        decreases chars.len() - i,
    {
        flags.push(chars[i] == c);
        i += 1;
    }
    trim_flagged(&chars, &flags, Ghost(just(c)))
}

/// Removes every `c` at the front of a text.
pub fn trim_front(s: &str, c: char) -> (r: String)
    ensures
        r@ == skip_front(s@, just(c)),
{
    let chars = chars_of(s);
    let mut from: usize = 0;
    assert(chars@.skip(0) =~= chars@);
    while from < chars.len() && chars[from] == c
        invariant
            from <= chars@.len(),
            chars@ == s@,
            skip_front(s@, just(c)) == skip_front(s@.skip(from as int), just(c)),
        decreases chars.len() - from,
    {
        assert(s@.skip(from as int)[0] == s@[from as int]);
        assert(s@.skip(from as int).drop_first() =~= s@.skip(from + 1));
        from += 1;
    }
    proof {
        if from < s@.len() {
            assert(s@.skip(from as int)[0] == s@[from as int]);
        }
        assert(s@.subrange(from as int, s@.len() as int) =~= s@.skip(from as int));
    }
    text_of(chars.as_slice(), from, chars.len())
}

/// A character with a small letter in place of a capital of ASCII.
pub open spec fn lower_spec(c: char) -> char {
    if 'A' <= c && c <= 'Z' {
        ((c as u8) + 32u8) as char
    } else {
        c
    }
}

fn lower(c: char) -> (r: char)
    ensures
        r == lower_spec(c),
{
    if 'A' <= c && c <= 'Z' {
        ((c as u8) + 32u8) as char
    } else {
        c
    }
}

/// Whether two texts are the same but for the case of letters of ASCII.
pub open spec fn same_but_case(a: Seq<char>, b: Seq<char>) -> bool {
    a.len() == b.len() && forall|i: int|
        0 <= i < a.len() ==> lower_spec(#[trigger] a[i]) == lower_spec(b[i])
}

pub fn eq_ignore_case(a: &str, b: &str) -> (r: bool)
    ensures
        r == same_but_case(a@, b@),
{
    let x = chars_of(a);
    let y = chars_of(b);
    if x.len() != y.len() {
        return false;
    }
    let mut i: usize = 0;
    while i < x.len()
        invariant
            i <= x@.len(),
            x@.len() == y@.len(),
            x@ == a@,
            y@ == b@,
            forall|j: int| 0 <= j < i ==> lower_spec(#[trigger] a@[j]) == lower_spec(b@[j]),
        decreases x.len() - i,
    {
        if lower(x[i]) != lower(y[i]) {
            assert(lower_spec(a@[i as int]) != lower_spec(b@[i as int]));
            return false;
        }
        i += 1;
    }
    true
}

/// The type in the first of the lines from `i` on that names one.
pub open spec fn content_type_from(lines: Seq<Seq<char>>, i: int) -> Option<Seq<char>>
    decreases lines.len() - i,
{
    if i < 0 || i >= lines.len() {
        None
    } else {
        match split_once_spec(lines[i], ':') {
            Some(pair) => if same_but_case(pair.0, "content-type"@) {
                Some(trim_spec(pair.1))
            } else {
                content_type_from(lines, i + 1)
            },
            None => content_type_from(lines, i + 1),
        }
    }
}

/// The content type that the headers of a part name. A carriage return at the
/// end of a line is white space.
pub fn part_content_type(headers: &str) -> (r: Option<String>)
    ensures
        opt_text(r) == content_type_from(split_spec(headers@, '\n'), 0),
{
    let lines = split(headers, '\n');
    let ghost all = texts(lines@);
    let mut i: usize = 0;
    while i < lines.len()
        invariant
            i <= lines@.len(),
            all == texts(lines@),
            all == split_spec(headers@, '\n'),
            content_type_from(all, 0) == content_type_from(all, i as int),
        decreases lines.len() - i,
    {
        assert(all[i as int] == lines@[i as int]@);
        if let Some((name, value)) = split_once(lines[i].as_str(), ':') {
            if eq_ignore_case(name.as_str(), "content-type") {
                return Some(trim(value.as_str()));
            }
        }
        i += 1;
    }
    None
}

/// The boundary that the first of the parts from `i` on names.
pub open spec fn boundary_from(parts: Seq<Seq<char>>, i: int) -> Option<Seq<char>>
    decreases parts.len() - i,
{
    if i < 0 || i >= parts.len() {
        None
    } else {
        match after_prefix(trim_spec(parts[i]), "boundary="@) {
            Some(value) => Some(trim_matches_spec(value, '"')),
            None => boundary_from(parts, i + 1),
        }
    }
}

/// The boundary of a multipart content type; none where it is empty.
pub open spec fn boundary_spec(content_type: Seq<char>) -> Option<Seq<char>> {
    match boundary_from(split_spec(content_type, ';'), 0) {
        Some(value) => if value.len() > 0 {
            Some(value)
        } else {
            None
        },
        None => None,
    }
}

/// Finds the boundary of a multipart content type.
pub fn boundary(content_type: &str) -> (r: Option<String>)
    ensures
        opt_text(r) == boundary_spec(content_type@),
{
    let parts = split(content_type, ';');
    let ghost all = texts(parts@);
    let mut i: usize = 0;
    while i < parts.len()
        invariant
            i <= parts@.len(),
            all == texts(parts@),
            all == split_spec(content_type@, ';'),
            boundary_from(all, 0) == boundary_from(all, i as int),
        decreases parts.len() - i,
    {
        assert(all[i as int] == parts@[i as int]@);
        if let Some(value) = strip_prefix(trim(parts[i].as_str()).as_str(), "boundary=") {
            let bare = trim_matches(value.as_str(), '"');
            return if crate::text::is_blank(bare.as_str()) {
                None
            } else {
                Some(bare)
            };
        }
        i += 1;
    }
    None
}

/// Two hyphens.
pub open spec fn hyphens() -> Seq<u8> {
    seq![0x2d, 0x2d]
}

/// The end of a line.
pub open spec fn line_end() -> Seq<u8> {
    seq![0x0d, 0x0a]
}

/// The end of the headers of a part.
pub open spec fn headers_end() -> Seq<u8> {
    seq![0x0d, 0x0a, 0x0d, 0x0a]
}

/// Where the headers of the part behind the marker at `cursor` begin.
pub open spec fn part_start(body: Seq<u8>, marker: Seq<u8>, cursor: int) -> int {
    let after = cursor + marker.len();
    if stands_at(body, line_end(), after) {
        after + 2
    } else {
        after
    }
}

/// The parts behind the marker at `cursor`, each with its headers and its
/// content, up to a marker that two hyphens follow; or what is wrong. Each
/// marker stands behind the one before it.
pub open spec fn parts_spec(body: Seq<u8>, marker: Seq<u8>, cursor: int) -> Result<
    Seq<(Seq<char>, Seq<u8>)>,
    Seq<char>,
>
    decreases body.len() - cursor,
{
    if stands_at(body, hyphens(), cursor + marker.len()) {
        Ok(Seq::empty())
    } else {
        let start = part_start(body, marker, cursor);
        match find_spec(body, headers_end(), start) {
            None => Err("multipart part headers are incomplete"@),
            Some(end) => if !valid_utf8(body.subrange(start, end)) {
                Err("multipart part headers are not UTF-8"@)
            } else {
                match find_spec(body, line_end() + marker, end + 4) {
                    None => Err("multipart closing boundary is missing"@),
                    Some(close) => if close + 2 <= cursor || close + 2 > body.len() {
                        Ok(Seq::empty())
                    } else {
                        match parts_spec(body, marker, close + 2) {
                            Err(e) => Err(e),
                            Ok(rest) => Ok(
                                seq![
                                    (
                                        decode_utf8(body.subrange(start, end)),
                                        body.subrange(end + 4, close),
                                    ),
                                ] + rest,
                            ),
                        }
                    },
                }
            },
        }
    }
}

/// An upload in two parts: its metadata, its content and the type of the
/// content.
#[derive(PartialEq, Eq, Debug)]
pub struct Multipart {
    pub metadata: Vec<u8>,
    pub media: Vec<u8>,
    pub media_type: Option<String>,
}

/// What a [`Multipart`] stands for.
#[verifier::ext_equal]
pub struct MultipartView {
    pub metadata: Seq<u8>,
    pub media: Seq<u8>,
    pub media_type: Option<Seq<char>>,
}

impl View for Multipart {
    type V = MultipartView;

    open spec fn view(&self) -> MultipartView {
        MultipartView {
            metadata: self.metadata@,
            media: self.media@,
            media_type: opt_text(self.media_type),
        }
    }
}

/// The upload in a multipart body: the first part is its metadata, the second
/// its content.
pub open spec fn multipart_spec(content_type: Seq<char>, body: Seq<u8>) -> Result<
    MultipartView,
    Seq<char>,
> {
    match boundary_spec(content_type) {
        None => Err("multipart boundary is missing"@),
        Some(name) => {
            let marker = encode_utf8("--"@ + name);
            match find_spec(body, marker, 0) {
                None => Err("multipart boundary not found"@),
                Some(cursor) => match parts_spec(body, marker, cursor) {
                    Err(e) => Err(e),
                    Ok(parts) => if parts.len() < 2 {
                        Err("multipart upload requires metadata and media parts"@)
                    } else {
                        Ok(
                            MultipartView {
                                metadata: parts[0].1,
                                media: parts[1].1,
                                media_type: content_type_from(split_spec(parts[1].0, '\n'), 0),
                            },
                        )
                    },
                },
            }
        },
    }
}

fn copy_range(bytes: &[u8], from: usize, to: usize) -> (r: Vec<u8>)
    requires
        from <= to <= bytes@.len(),
    ensures
        r@ == bytes@.subrange(from as int, to as int),
{
    let mut out: Vec<u8> = Vec::new();
    out.extend_from_slice(vstd::slice::slice_subrange(bytes, from, to));
    assert(out@ =~= bytes@.subrange(from as int, to as int));
    out
}

fn pair_stands_at(body: &[u8], first: u8, second: u8, i: usize) -> (r: bool)
    requires
        i <= body@.len(),
    ensures
        r == stands_at(body@, seq![first, second], i as int),
{
    if body.len() - i < 2 {
        return false;
    }
    let r = body[i] == first && body[i + 1] == second;
    proof {
        let part = body@.subrange(i as int, i + 2);
        if r {
            assert(part =~= seq![first, second]);
        } else {
            assert(part[0] == body@[i as int] && part[1] == body@[i + 1]);
            assert(seq![first, second][0] == first && seq![first, second][1] == second);
        }
    }
    r
}

pub open spec fn part_views(parts: Seq<(String, Vec<u8>)>) -> Seq<(Seq<char>, Seq<u8>)> {
    parts.map_values(|p: (String, Vec<u8>)| (p.0@, p.1@))
}

fn read_parts(body: &[u8], marker: &Vec<u8>, first: usize) -> (r: Result<
    Vec<(String, Vec<u8>)>,
    String,
>)
    requires
        first + marker@.len() <= body@.len(),
    ensures
        match r {
            Ok(parts) => parts_spec(body@, marker@, first as int) == Ok::<_, Seq<char>>(
                part_views(parts@),
            ),
            Err(e) => parts_spec(body@, marker@, first as int) == Err::<
                Seq<(Seq<char>, Seq<u8>)>,
                _,
            >(e@),
        },
{
    let total: usize = body.len();
    let mut cursor: usize = first;
    let mut parts: Vec<(String, Vec<u8>)> = Vec::new();
    let mut closing: Vec<u8> = Vec::new();
    closing.push(0x0d);
    closing.push(0x0a);
    closing.extend_from_slice(marker.as_slice());
    assert(closing@ =~= line_end() + marker@);
    let mut gap: Vec<u8> = Vec::new();
    gap.push(0x0d);
    gap.push(0x0a);
    gap.push(0x0d);
    gap.push(0x0a);
    assert(gap@ =~= headers_end());
    assert(part_views(parts@) =~= Seq::empty());
    assert(forall|rest: Seq<(Seq<char>, Seq<u8>)>|
        Seq::<(Seq<char>, Seq<u8>)>::empty() + rest =~= rest);
    while !pair_stands_at(body, 0x2d, 0x2d, cursor + marker.len())
        invariant
            cursor + marker@.len() <= total,
            total == body@.len(),
            closing@ == line_end() + marker@,
            gap@ == headers_end(),
            parts_spec(body@, marker@, first as int) == match parts_spec(
                body@,
                marker@,
                cursor as int,
            ) {
                Ok(rest) => Ok(part_views(parts@) + rest),
                Err(e) => Err(e),
            },
        decreases body@.len() - cursor,
    {
        let after: usize = cursor + marker.len();
        let start: usize = if pair_stands_at(body, 0x0d, 0x0a, after) {
            after + 2
        } else {
            after
        };
        assert(start == part_start(body@, marker@, cursor as int));
        let end: usize = match find_from(body, gap.as_slice(), start) {
            Some(end) => end,
            None => {
                return Err("multipart part headers are incomplete".to_owned());
            },
        };
        let headers = match text_of_utf8(copy_range(body, start, end)) {
            Some(headers) => headers,
            None => {
                return Err("multipart part headers are not UTF-8".to_owned());
            },
        };
        let close: usize = match find_from(body, closing.as_slice(), end + 4) {
            Some(close) => close,
            None => {
                return Err("multipart closing boundary is missing".to_owned());
            },
        };
        let ghost before = part_views(parts@);
        let part = (headers, copy_range(body, end + 4, close));
        parts.push(part);
        assert(part_views(parts@) =~= before.push((part.0@, part.1@)));
        assert(forall|rest: Seq<(Seq<char>, Seq<u8>)>|
            #![trigger part_views(parts@) + rest]
            before + (seq![(part.0@, part.1@)] + rest) =~= part_views(parts@) + rest);
        cursor = close + 2;
    }
    assert(part_views(parts@) + Seq::<(Seq<char>, Seq<u8>)>::empty() =~= part_views(parts@));
    Ok(parts)
}

/// Takes a multipart upload apart.
pub fn parse_multipart(content_type: &str, body: &[u8]) -> (r: Result<Multipart, String>)
    ensures
        match r {
            Ok(upload) => multipart_spec(content_type@, body@) == Ok::<_, Seq<char>>(upload@),
            Err(e) => multipart_spec(content_type@, body@) == Err::<MultipartView, _>(e@),
        },
{
    let name = match boundary(content_type) {
        Some(name) => name,
        None => {
            return Err("multipart boundary is missing".to_owned());
        },
    };
    let text = cat("--", name.as_str());
    let mut marker: Vec<u8> = Vec::new();
    marker.extend_from_slice(text.as_str().as_bytes());
    assert(marker@ =~= encode_utf8("--"@ + name@));
    let first: usize = match find_from(body, marker.as_slice(), 0) {
        Some(first) => first,
        None => {
            return Err("multipart boundary not found".to_owned());
        },
    };
    let mut parts = match read_parts(body, &marker, first) {
        Ok(parts) => parts,
        Err(e) => {
            return Err(e);
        },
    };
    if parts.len() < 2 {
        return Err("multipart upload requires metadata and media parts".to_owned());
    }
    let ghost all = parts@;
    assert(part_views(all)[0] == (all[0].0@, all[0].1@));
    assert(part_views(all)[1] == (all[1].0@, all[1].1@));
    let (headers, media) = parts.remove(1);
    let (_, metadata) = parts.remove(0);
    let media_type = part_content_type(headers.as_str());
    Ok(Multipart { metadata, media, media_type })
}

} // verus!
