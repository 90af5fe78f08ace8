//! The form bodies and frames of a browser channel.
use crate::encoding::text_of_utf8;
use crate::json::{
    json_of_text, parse_json, text_of_json, write_json, Json, JsonView,
};
use crate::ordered::{lookup, put, OrderedMap};
use crate::status::{invalid, result_view, Status, StatusView};
use crate::storage::{hex_char, is_unreserved, percent_byte, percent_bytes};
use crate::text::{
    after_prefix, before_suffix, cat3, chars_of, decimal, decimal_spec, parse_unsigned,
    parse_unsigned_spec, split, split_once, split_once_spec, split_spec, strip_prefix, strip_suffix,
    texts,
};
use vstd::prelude::*;
use vstd::utf8::{
    decode_utf8, encode_utf8, encode_utf8_decode_utf8, encode_utf8_valid_utf8, is_ascii_chars,
    is_ascii_chars_encode_utf8, valid_utf8,
};

verus! {

/// How many UTF-16 code units a text takes.
pub open spec fn utf16_len_spec(s: Seq<char>) -> nat
    decreases s.len(),
{
    if s.len() == 0 {
        0
    } else {
        (if s[0] as u32 >= 0x10000 {
            2nat
        } else {
            1nat
        }) + utf16_len_spec(s.drop_first())
    }
}

proof fn utf16_is_no_longer(s: Seq<char>)
    ensures
        utf16_len_spec(s) <= encode_utf8(s).len(),
    decreases s.len(),
{
    if s.len() > 0 {
        utf16_is_no_longer(s.drop_first());
        assert(encode_utf8(s) == vstd::utf8::encode_scalar(s[0] as u32) + encode_utf8(
            s.drop_first(),
        ));
    }
}

proof fn utf16_of_rest(s: Seq<char>, i: int)
    requires
        0 <= i <= s.len(),
    ensures
        utf16_len_spec(s.skip(i)) <= utf16_len_spec(s),
        i < s.len() ==> utf16_len_spec(s.skip(i)) == (if s[i] as u32 >= 0x10000 {
            2nat
        } else {
            1nat
        }) + utf16_len_spec(s.skip(i + 1)),
    decreases i,
{
    if i < s.len() {
        assert(s.skip(i).drop_first() =~= s.skip(i + 1));
    }
    if i > 0 {
        utf16_of_rest(s, i - 1);
        assert(s.skip(i - 1).drop_first() =~= s.skip(i));
    } else {
        assert(s.skip(0) =~= s);
    }
}

/// How many UTF-16 code units a text takes.
pub fn utf16_len(s: &str) -> (r: usize)
    ensures
        r == utf16_len_spec(s@),
{
    let chars = chars_of(s);
    let bytes: usize = s.as_bytes().len();
    let mut i: usize = chars.len();
    let mut total: usize = 0;
    proof {
        utf16_is_no_longer(s@);
        assert(s@.skip(i as int) =~= Seq::empty());
    }
    while i > 0
        invariant
            i <= chars@.len(),
            chars@ == s@,
            utf16_len_spec(s@) <= bytes,
            total == utf16_len_spec(s@.skip(i as int)),
        decreases i,
    {
        i -= 1;
        proof {
            utf16_of_rest(s@, i as int);
        }
        let units: usize = if chars[i] as u32 >= 0x10000 {
            2
        } else {
            1
        };
        total = total + units;
    }
    assert(s@.skip(0) =~= s@);
    total
}

/// A message body behind its length in UTF-16 code units.
pub open spec fn frame_spec(body: Seq<char>) -> Seq<char> {
    decimal_spec(utf16_len_spec(body)) + "\n"@ + body
}

/// Puts the length of a message body in front of it.
pub fn frame_text(body: &str) -> (r: String)
    ensures
        r@ == frame_spec(body@),
{
    cat3(decimal(utf16_len(body) as u64).as_str(), "\n", body)
}

/// Frames a JSON message.
pub fn frame(value: &Json) -> (r: String)
    ensures
        r@ == frame_spec(text_of_json(value@)),
{
    frame_text(write_json(value).as_str())
}

/// The value of a hexadecimal digit.
pub open spec fn hex_digit_spec(b: u8) -> Option<u8> {
    if 0x30 <= b <= 0x39 {
        Some((b - 0x30) as u8)
    } else if 0x41 <= b <= 0x46 {
        Some((b - 0x41 + 10) as u8)
    } else if 0x61 <= b <= 0x66 {
        Some((b - 0x61 + 10) as u8)
    } else {
        None
    }
}

/// The byte that two characters write in hexadecimal. As in any number, the
/// first may be a plus sign.
pub open spec fn hex_pair_spec(high: u8, low: u8) -> Option<u8> {
    match hex_digit_spec(low) {
        None => None,
        Some(l) => if high == 0x2b {
            Some(l)
        } else {
            match hex_digit_spec(high) {
                Some(h) => Some((h * 16 + l) as u8),
                None => None,
            }
        },
    }
}

/// The bytes that an escaped form component stands for from `i` on, or none
/// where an escape is broken: a plus sign is a space, and a percent sign
/// stands before the two hexadecimal digits of a byte.
pub open spec fn unescape_spec(b: Seq<u8>, i: int) -> Option<Seq<u8>>
    decreases b.len() - i,
{
    if i < 0 || i >= b.len() {
        Some(Seq::empty())
    } else if b[i] == 0x25 {
        if i + 2 < b.len() {
            match hex_pair_spec(b[i + 1], b[i + 2]) {
                None => None,
                Some(byte) => match unescape_spec(b, i + 3) {
                    None => None,
                    Some(rest) => Some(seq![byte] + rest),
                },
            }
        } else {
            None
        }
    } else {
        let byte = if b[i] == 0x2b {
            0x20u8
        } else {
            b[i]
        };
        match unescape_spec(b, i + 1) {
            None => None,
            Some(rest) => Some(seq![byte] + rest),
        }
    }
}

fn hex_digit(b: u8) -> (r: Option<u8>)
    ensures
        r == hex_digit_spec(b),
        r is Some ==> r->0 < 16,
{
    if 0x30 <= b && b <= 0x39 {
        Some(b - 0x30)
    } else if 0x41 <= b && b <= 0x46 {
        Some(b - 0x41 + 10)
    } else if 0x61 <= b && b <= 0x66 {
        Some(b - 0x61 + 10)
    } else {
        None
    }
}

fn hex_pair(high: u8, low: u8) -> (r: Option<u8>)
    ensures
        r == hex_pair_spec(high, low),
{
    match hex_digit(low) {
        None => None,
        Some(l) => if high == 0x2b {
            Some(l)
        } else {
            match hex_digit(high) {
                Some(h) => Some(h * 16 + l),
                None => None,
            }
        },
    }
}

/// The text that an escaped form component stands for.
pub open spec fn form_component_spec(s: Seq<char>) -> Result<Seq<char>, StatusView> {
    match unescape_spec(encode_utf8(s), 0) {
        None => Err(invalid("invalid form escape"@)),
        Some(bytes) => if valid_utf8(bytes) {
            Ok(decode_utf8(bytes))
        } else {
            Err(invalid("invalid UTF-8 form"@))
        },
    }
}

/// Decodes a key or a value of a form.
pub fn decode_form_component(s: &str) -> (r: Result<String, Status>)
    ensures
        result_view(r) == form_component_spec(s@),
{
    let mut out: Vec<u8> = Vec::new();
    let b = s.as_bytes();
    let mut i: usize = 0;
    assert(forall|rest: Seq<u8>| Seq::<u8>::empty() + rest =~= rest);
    while i < b.len()
        invariant
            i <= b@.len(),
            b@ == encode_utf8(s@),
            unescape_spec(b@, 0) == match unescape_spec(b@, i as int) {
                Some(rest) => Some(out@ + rest),
                None => None,
            },
        decreases b.len() - i,
    {
        let ghost before = out@;
        let byte: u8 = b[i];
        if byte == 0x25 {
            if b.len() - i <= 2 {
                return Err(Status::invalid_argument("invalid form escape"));
            }
            match hex_pair(b[i + 1], b[i + 2]) {
                Some(x) => {
                    out.push(x);
                    assert(forall|rest: Seq<u8>|
                        #![trigger out@ + rest]
                        before + (seq![x] + rest) =~= out@ + rest);
                },
                None => {
                    return Err(Status::invalid_argument("invalid form escape"));
                },
            }
            i += 3;
        } else {
            let x: u8 = if byte == 0x2b {
                0x20
            } else {
                byte
            };
            out.push(x);
            assert(forall|rest: Seq<u8>|
                #![trigger out@ + rest]
                before + (seq![x] + rest) =~= out@ + rest);
            i += 1;
        }
    }
    assert(out@ + Seq::<u8>::empty() =~= out@);
    match text_of_utf8(out) {
        Some(text) => Ok(text),
        None => Err(Status::invalid_argument("invalid UTF-8 form")),
    }
}

proof fn percent_prefix(bytes: Seq<u8>, k: int, m: int)
    requires
        0 <= k <= m <= bytes.len(),
    ensures
        percent_bytes(bytes.take(k)).len() <= percent_bytes(bytes.take(m)).len(),
        forall|i: int|
            0 <= i < percent_bytes(bytes.take(k)).len() ==> percent_bytes(bytes.take(m))[i]
                == #[trigger] percent_bytes(bytes.take(k))[i],
    decreases m,
{
    if k < m {
        percent_prefix(bytes, k, m - 1);
        assert(bytes.take(m).drop_last() =~= bytes.take(m - 1));
    }
}

proof fn percent_is_ascii(bytes: Seq<u8>)
    ensures
        is_ascii_chars(percent_bytes(bytes)),
    decreases bytes.len(),
{
    if bytes.len() > 0 {
        percent_is_ascii(bytes.drop_last());
    }
}

proof fn percent_byte_reads_back(b: u8)
    ensures
        !is_unreserved(b) ==> hex_pair_spec(
            hex_char(b / 16) as u8,
            hex_char(b % 16) as u8,
        ) == Some(b),
        is_unreserved(b) ==> b != 0x25 && b != 0x2b && (b as char) as u8 == b,
{
    assert(b / 16 < 16 && b % 16 < 16 && (b / 16) * 16 + b % 16 == b) by (bit_vector);
}

proof fn unescape_from(bytes: Seq<u8>, k: int)
    requires
        0 <= k <= bytes.len(),
    ensures
        unescape_spec(
            encode_utf8(percent_bytes(bytes)),
            percent_bytes(bytes.take(k)).len() as int,
        ) == Some(bytes.skip(k)),
    decreases bytes.len() - k,
{
    let text = percent_bytes(bytes);
    let escaped = encode_utf8(text);
    percent_is_ascii(bytes);
    is_ascii_chars_encode_utf8(text);
    assert(bytes.take(bytes.len() as int) =~= bytes);
    let at = percent_bytes(bytes.take(k)).len() as int;
    if k == bytes.len() {
        assert(bytes.skip(k) =~= Seq::empty());
    } else {
        unescape_from(bytes, k + 1);
        let b = bytes[k];
        assert(bytes.take(k + 1).drop_last() =~= bytes.take(k));
        assert(bytes.take(k + 1).last() == b);
        let next = percent_bytes(bytes.take(k + 1));
        assert(next == percent_bytes(bytes.take(k)) + percent_byte(b));
        percent_prefix(bytes, k + 1, bytes.len() as int);
        percent_byte_reads_back(b);
        assert(text[at] == next[at]);
        assert(seq![b] + bytes.skip(k + 1) =~= bytes.skip(k));
        assert(escaped[at] == text[at] as u8);
        if !is_unreserved(b) {
            assert(text[at + 1] == next[at + 1]);
            assert(text[at + 2] == next[at + 2]);
            assert(escaped[at + 1] == text[at + 1] as u8);
            assert(escaped[at + 2] == text[at + 2] as u8);
        }
    }
}

/// Decoding undoes percent-encoding, so that different texts are encoded
/// differently.
pub proof fn decoding_undoes_percent_encoding(s: Seq<char>, t: Seq<char>)
    ensures
        form_component_spec(percent_bytes(encode_utf8(s))) == Ok::<_, StatusView>(s),
        percent_bytes(encode_utf8(s)) == percent_bytes(encode_utf8(t)) ==> s == t,
{
    decoding_reads_back(s);
    decoding_reads_back(t);
}

proof fn decoding_reads_back(s: Seq<char>)
    ensures
        form_component_spec(percent_bytes(encode_utf8(s))) == Ok::<_, StatusView>(s),
{
    let bytes = encode_utf8(s);
    unescape_from(bytes, 0);
    assert(bytes.take(0) =~= Seq::empty());
    assert(bytes.skip(0) =~= bytes);
    encode_utf8_valid_utf8(s);
    encode_utf8_decode_utf8(s);
}

/// The fields of a form after its first `n` parts, or the first error. A part
/// without an equals sign is passed over.
pub open spec fn fields_spec(parts: Seq<Seq<char>>, n: nat) -> Result<
    Seq<(Seq<char>, Seq<char>)>,
    StatusView,
>
    decreases n,
{
    if n == 0 || n > parts.len() {
        Ok(Seq::empty())
    } else {
        match fields_spec(parts, (n - 1) as nat) {
            Err(e) => Err(e),
            Ok(fields) => match split_once_spec(parts[n - 1], '=') {
                None => Ok(fields),
                Some(pair) => match form_component_spec(pair.0) {
                    Err(e) => Err(e),
                    Ok(key) => match form_component_spec(pair.1) {
                        Err(e) => Err(e),
                        Ok(value) => Ok(put(fields, key, value)),
                    },
                },
            },
        }
    }
}

proof fn fields_stuck(parts: Seq<Seq<char>>, n: nat, m: nat)
    requires
        n <= m <= parts.len(),
        fields_spec(parts, n) is Err,
    ensures
        fields_spec(parts, m) == fields_spec(parts, n),
    decreases m - n,
{
    if n < m {
        fields_stuck(parts, n, (m - 1) as nat);
    }
}

/// The fields of a form body by key.
pub open spec fn form_fields_spec(body: Seq<u8>) -> Result<
    Seq<(Seq<char>, Seq<char>)>,
    StatusView,
> {
    if valid_utf8(body) {
        let parts = split_spec(decode_utf8(body), '&');
        fields_spec(parts, parts.len())
    } else {
        Err(invalid("invalid form"@))
    }
}

/// Reads the fields of a form body. Of two with the same key the later stays.
pub fn form_fields(body: &[u8]) -> (r: Result<OrderedMap<String>, Status>)
    ensures
        result_view(r) == form_fields_spec(body@),
{
    let mut bytes: Vec<u8> = Vec::new();
    bytes.extend_from_slice(body);
    assert(bytes@ =~= body@);
    let text = match text_of_utf8(bytes) {
        Some(text) => text,
        None => {
            return Err(Status::invalid_argument("invalid form"));
        },
    };
    let parts = split(text.as_str(), '&');
    let ghost all = texts(parts@);
    let mut fields: OrderedMap<String> = OrderedMap::new();
    let mut i: usize = 0;
    while i < parts.len()
        invariant
            i <= parts@.len(),
            all == texts(parts@),
            form_fields_spec(body@) == fields_spec(all, all.len()),
            fields_spec(all, i as nat) == Ok::<_, StatusView>(fields@),
        decreases parts.len() - i,
    {
        assert(all[i as int] == parts@[i as int]@);
        if let Some((k, v)) = split_once(parts[i].as_str(), '=') {
            let key = match decode_form_component(k.as_str()) {
                Ok(key) => key,
                Err(e) => {
                    proof {
                        fields_stuck(all, (i + 1) as nat, all.len());
                    }
                    return Err(e);
                },
            };
            let value = match decode_form_component(v.as_str()) {
                Ok(value) => value,
                Err(e) => {
                    proof {
                        fields_stuck(all, (i + 1) as nat, all.len());
                    }
                    return Err(e);
                },
            };
            fields.insert(key.as_str(), value);
        }
        i += 1;
    }
    Ok(fields)
}

/// A message behind its number.
#[derive(PartialEq, Debug)]
pub struct Numbered {
    pub id: u128,
    pub message: Json,
}

impl View for Numbered {
    type V = (u128, JsonView);

    open spec fn view(&self) -> (u128, JsonView) {
        (self.id, self.message@)
    }
}

/// The view of a list of numbered messages.
pub open spec fn numbered_view(list: Seq<Numbered>) -> Seq<(u128, JsonView)> {
    list.map_values(|m: Numbered| m@)
}

/// Adds a message behind those with the same or a smaller number.
pub open spec fn insert_numbered(list: Seq<(u128, JsonView)>, item: (u128, JsonView)) -> Seq<
    (u128, JsonView),
>
    decreases list.len(),
{
    if list.len() == 0 || list.last().0 <= item.0 {
        list.push(item)
    } else {
        insert_numbered(list.drop_last(), item).push(list.last())
    }
}

/// Whether messages stand in the order of their numbers.
pub open spec fn in_order(list: Seq<(u128, JsonView)>) -> bool {
    forall|i: int, j: int|
        0 <= i < j < list.len() ==> (#[trigger] list[i]).0 <= (#[trigger] list[j]).0
}

proof fn insert_keeps_order(list: Seq<(u128, JsonView)>, item: (u128, JsonView))
    requires
        in_order(list),
    ensures
        in_order(insert_numbered(list, item)),
        insert_numbered(list, item).len() == list.len() + 1,
        forall|i: int|
            0 <= i <= list.len() ==> (#[trigger] insert_numbered(list, item)[i]).0 <= item.0
                || exists|j: int|
                0 <= j < list.len() && (#[trigger] list[j]) == insert_numbered(list, item)[i],
    decreases list.len(),
{
    if list.len() == 0 || list.last().0 <= item.0 {
        let out = list.push(item);
        assert forall|i: int, j: int| 0 <= i < j < out.len() implies (#[trigger] out[i]).0 <= (
        #[trigger] out[j]).0 by {
            if j == list.len() {
                assert(i == list.len() - 1 || list[i].0 <= list[list.len() - 1].0);
            }
        }
        assert forall|i: int| 0 <= i <= list.len() implies (#[trigger] out[i]).0 <= item.0 || exists|
            j: int,
        |
            0 <= j < list.len() && (#[trigger] list[j]) == out[i] by {
            if i < list.len() {
                assert(list[i] == out[i]);
            }
        }
    } else {
        let shorter = list.drop_last();
        insert_keeps_order(shorter, item);
        let inner = insert_numbered(shorter, item);
        let out = inner.push(list.last());
        assert forall|i: int, j: int| 0 <= i < j < out.len() implies (#[trigger] out[i]).0 <= (
        #[trigger] out[j]).0 by {
            if j == list.len() {
                assert(out[i] == inner[i]);
                if inner[i].0 > item.0 {
                    let k = choose|k: int|
                        0 <= k < shorter.len() && (#[trigger] shorter[k]) == inner[i];
                    assert(list[k] == shorter[k]);
                    assert(list[k].0 <= list[list.len() - 1].0);
                }
            } else {
                assert(out[i] == inner[i] && out[j] == inner[j]);
            }
        }
        assert forall|i: int| 0 <= i <= list.len() implies (#[trigger] out[i]).0 <= item.0 || exists|
            j: int,
        |
            0 <= j < list.len() && (#[trigger] list[j]) == out[i] by {
            if i < list.len() {
                assert(out[i] == inner[i]);
                if inner[i].0 > item.0 {
                    let k = choose|k: int|
                        0 <= k < shorter.len() && (#[trigger] shorter[k]) == inner[i];
                    assert(list[k] == out[i]);
                }
            } else {
                assert(list[list.len() - 1] == out[i]);
            }
        }
    }
}

/// The number that a form adds to those of its requests.
pub open spec fn form_offset(fields: Seq<(Seq<char>, Seq<char>)>) -> nat {
    match lookup(fields, "ofs"@) {
        None => 0,
        Some(text) => match parse_unsigned_spec(text, u64::MAX as nat) {
            Some(n) => n,
            None => 0,
        },
    }
}

/// The part of a request's key that numbers it; none for any other key.
pub open spec fn request_number(key: Seq<char>) -> Option<Seq<char>> {
    match after_prefix(key, "req"@) {
        None => None,
        Some(rest) => before_suffix(rest, "___data__"@),
    }
}

/// The requests among the first `n` fields in the order of their numbers,
/// given what the value of each field was parsed to; or the first error.
pub open spec fn requests_spec(
    fields: Seq<(Seq<char>, Seq<char>)>,
    parsed: Seq<Option<JsonView>>,
    n: nat,
) -> Result<Seq<(u128, JsonView)>, StatusView>
    decreases n,
{
    if n == 0 || n > fields.len() || n > parsed.len() {
        Ok(Seq::empty())
    } else {
        match requests_spec(fields, parsed, (n - 1) as nat) {
            Err(e) => Err(e),
            Ok(list) => match request_number(fields[n - 1].0) {
                None => Ok(list),
                Some(text) => match parse_unsigned_spec(text, u64::MAX as nat) {
                    None => Err(invalid("invalid request index"@)),
                    Some(index) => match parsed[n - 1] {
                        None => Err(invalid("invalid request JSON"@)),
                        Some(message) => Ok(
                            insert_numbered(list, ((form_offset(fields) + index) as u128, message)),
                        ),
                    },
                },
            },
        }
    }
}

proof fn requests_stuck(
    fields: Seq<(Seq<char>, Seq<char>)>,
    parsed: Seq<Option<JsonView>>,
    n: nat,
    m: nat,
)
    requires
        n <= m <= fields.len(),
        m <= parsed.len(),
        requests_spec(fields, parsed, n) is Err,
    ensures
        requests_spec(fields, parsed, m) == requests_spec(fields, parsed, n),
    decreases m - n,
{
    if n < m {
        requests_stuck(fields, parsed, n, (m - 1) as nat);
    }
}

/// The requests of a form come in the order of their numbers.
pub proof fn requests_in_order(
    fields: Seq<(Seq<char>, Seq<char>)>,
    parsed: Seq<Option<JsonView>>,
    n: nat,
)
    ensures
        requests_spec(fields, parsed, n) matches Ok(list) ==> in_order(list),
    decreases n,
{
    if n > 0 && n <= fields.len() && n <= parsed.len() {
        requests_in_order(fields, parsed, (n - 1) as nat);
        if requests_spec(fields, parsed, (n - 1) as nat) is Ok {
            let list = requests_spec(fields, parsed, (n - 1) as nat)->Ok_0;
            if parsed[n - 1] is Some && request_number(fields[n - 1].0) is Some
                && parse_unsigned_spec(request_number(fields[n - 1].0)->0, u64::MAX as nat)
                is Some {
                let index = parse_unsigned_spec(
                    request_number(fields[n - 1].0)->0,
                    u64::MAX as nat,
                )->0;
                insert_keeps_order(
                    list,
                    ((form_offset(fields) + index) as u128, parsed[n - 1]->0),
                );
            }
        }
    }
}

/// The view of parsed values.
pub open spec fn parsed_view(parsed: Seq<Option<Json>>) -> Seq<Option<JsonView>> {
    parsed.map_values(
        |p: Option<Json>|
            match p {
                Some(v) => Some(v@),
                None => None,
            },
    )
}

fn insert_message(list: &mut Vec<Numbered>, item: Numbered)
    ensures
        numbered_view(final(list)@) == insert_numbered(numbered_view(old(list)@), item@),
{
    let ghost all = old(list)@;
    let ghost views = numbered_view(all);
    let mut k: usize = list.len();
    assert(all.take(k as int) =~= all);
    assert(numbered_view(all.take(k as int)) == views);
    assert(all.skip(k as int) =~= Seq::empty());
    assert(numbered_view(all.skip(k as int)) =~= Seq::empty());
    assert(insert_numbered(views, item@) =~= insert_numbered(
        numbered_view(all.take(k as int)),
        item@,
    ) + numbered_view(all.skip(k as int)));
    while k > 0 && list[k - 1].id > item.id
        invariant
            k <= all.len(),
            list@ == all,
            views == numbered_view(all),
            insert_numbered(views, item@) == insert_numbered(
                numbered_view(all.take(k as int)),
                item@,
            ) + numbered_view(all.skip(k as int)),
        decreases k,
    {
        proof {
            let front = numbered_view(all.take(k as int));
            assert(front.drop_last() =~= numbered_view(all.take(k - 1)));
            assert(front.last() == all[k - 1]@);
            assert(insert_numbered(front, item@) == insert_numbered(front.drop_last(), item@).push(
                front.last(),
            ));
            assert(insert_numbered(front.drop_last(), item@).push(front.last()) + numbered_view(
                all.skip(k as int),
            ) =~= insert_numbered(front.drop_last(), item@) + numbered_view(all.skip(k - 1)));
        }
        k -= 1;
    }
    proof {
        let front = numbered_view(all.take(k as int));
        if k > 0 {
            assert(front.last() == all[k - 1]@);
        }
        assert(insert_numbered(front, item@) == front.push(item@));
        assert(front.push(item@) + numbered_view(all.skip(k as int)) =~= numbered_view(
            all.insert(k as int, item),
        ));
    }
    list.insert(k, item);
}

/// Numbers the requests of a form, given what the value of each field was
/// parsed to.
pub fn numbered_requests(fields: &OrderedMap<String>, parsed: Vec<Option<Json>>) -> (r: Result<
    Vec<Numbered>,
    Status,
>)
    requires
        parsed@.len() == fields@.len(),
    ensures
        match r {
            Ok(list) => requests_spec(fields@, parsed_view(parsed@), fields@.len()) == Ok::<
                _,
                StatusView,
            >(numbered_view(list@)),
            Err(e) => requests_spec(fields@, parsed_view(parsed@), fields@.len()) == Err::<
                Seq<(u128, JsonView)>,
                _,
            >(e@),
        },
{
    let offset: u64 = match fields.get("ofs") {
        Some(text) => match parse_unsigned(text.as_str(), u64::MAX) {
            Some(n) => n,
            None => 0,
        },
        None => 0,
    };
    let ghost views = parsed_view(parsed@);
    let mut list: Vec<Numbered> = Vec::new();
    assert(numbered_view(list@) =~= Seq::empty());
    let total: usize = parsed.len();
    let mut i: usize = 0;
    for value in it: parsed
        invariant
            parsed@.len() == total,
            i == it.index(),
            it.seq() == parsed@,
            views == parsed_view(parsed@),
            parsed@.len() == fields@.len(),
            offset == form_offset(fields@),
            requests_spec(fields@, views, it.index() as nat) == Ok::<_, StatusView>(
                numbered_view(list@),
            ),
    {
        let ghost n = (it.index() + 1) as nat;
        assert(views[i as int] == match value {
            Some(v) => Some(v@),
            None => None,
        });
        let number = match strip_prefix(fields.key_at(i), "req") {
            Some(rest) => strip_suffix(rest.as_str(), "___data__"),
            None => None,
        };
        if let Some(text) = number {
            let index: u64 = match parse_unsigned(text.as_str(), u64::MAX) {
                Some(index) => index,
                None => {
                    proof {
                        requests_stuck(fields@, views, n, fields@.len());
                    }
                    return Err(Status::invalid_argument("invalid request index"));
                },
            };
            match value {
                Some(message) => {
                    let id: u128 = offset as u128 + index as u128;
                    insert_message(&mut list, Numbered { id, message });
                },
                None => {
                    proof {
                        requests_stuck(fields@, views, n, fields@.len());
                    }
                    return Err(Status::invalid_argument("invalid request JSON"));
                },
            }
        }
        i += 1;
    }
    Ok(list)
}

/// What the value of each field is parsed to.
pub open spec fn parsed_fields(fields: Seq<(Seq<char>, Seq<char>)>) -> Seq<Option<JsonView>> {
    fields.map_values(|field: (Seq<char>, Seq<char>)| json_of_text(field.1))
}

/// The requests of a form body in the order of their numbers.
pub open spec fn form_messages_spec(body: Seq<u8>) -> Result<Seq<(u128, JsonView)>, StatusView> {
    match form_fields_spec(body) {
        Err(e) => Err(e),
        Ok(fields) => requests_spec(fields, parsed_fields(fields), fields.len()),
    }
}

/// Reads the requests of a form body.
pub fn form_messages(body: &[u8]) -> (r: Result<Vec<Numbered>, Status>)
    ensures
        match r {
            Ok(list) => form_messages_spec(body@) == Ok::<_, StatusView>(numbered_view(list@)),
            Err(e) => form_messages_spec(body@) == Err::<Seq<(u128, JsonView)>, _>(e@),
        },
{
    let fields = match form_fields(body) {
        Ok(fields) => fields,
        Err(e) => {
            return Err(e);
        },
    };
    let mut parsed: Vec<Option<Json>> = Vec::new();
    let mut i: usize = 0;
    while i < fields.len()
        invariant
            i <= fields@.len(),
            parsed@.len() == i,
            forall|j: int|
                0 <= j < i ==> (#[trigger] parsed_view(parsed@)[j]) == json_of_text(fields@[j].1),
        decreases fields@.len() - i,
    {
        let ghost before = parsed_view(parsed@);
        parsed.push(parse_json(fields.value_at(i).as_str()));
        assert forall|j: int| 0 <= j <= i implies (#[trigger] parsed_view(parsed@)[j])
            == json_of_text(fields@[j].1) by {
            if j < i {
                assert(parsed_view(parsed@)[j] == before[j]);
            }
        }
        i += 1;
    }
    assert(parsed_view(parsed@) =~= parsed_fields(fields@));
    numbered_requests(&fields, parsed)
}

} // verus!
