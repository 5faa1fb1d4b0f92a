//! The JSON values that the server reads and writes, built, inspected,
//! parsed and printed by the `json` crate. What a `json::JsonValue` holds
//! is described by a `JsonDoc`; the crate's parser and printer are named
//! (`json_parsed`, `json_text`) rather than restated.
use vstd::prelude::*;
use vstd::utf8::encode_utf8;

verus! {

/// `json::JsonValue`, carried through verified code as an opaque value;
/// what it holds is `json_doc`.
#[verifier::external_type_specification]
#[verifier::external_body]
pub struct ExJsonValue(json::JsonValue);

/// What a JSON value holds. A number is its sign, mantissa and decimal
/// exponent; an object lists its members in the order they were added.
pub enum JsonDoc {
    Null,
    Boolean(bool),
    Number(bool, nat, int),
    Str(Seq<char>),
    Array(Seq<JsonDoc>),
    Object(Seq<(Seq<char>, JsonDoc)>),
}

/// What a `json::JsonValue` holds.
pub uninterp spec fn json_doc(value: json::JsonValue) -> JsonDoc;

/// The compact JSON text that `json` prints for a value.
pub uninterp spec fn json_text(doc: JsonDoc) -> Seq<char>;

/// What `json::parse` makes of a text, or `None` where it refuses it.
pub uninterp spec fn json_parsed(text: Seq<char>) -> Option<JsonDoc>;

/// `i` is the first member of `fields` under `key`.
pub open spec fn is_first_field(fields: Seq<(Seq<char>, JsonDoc)>, key: Seq<char>, i: int) -> bool {
    &&& 0 <= i < fields.len()
    &&& fields[i].0 == key
    &&& forall|j: int| 0 <= j < i ==> (#[trigger] fields[j]).0 != key
}

/// Whether an object has a member under `key`.
pub open spec fn doc_has_key(doc: JsonDoc, key: Seq<char>) -> bool {
    match doc {
        JsonDoc::Object(fields) => exists|i: int| is_first_field(fields, key, i),
        _ => false,
    }
}

/// The member of an object under `key`; `Null` where there is none.
pub open spec fn doc_member(doc: JsonDoc, key: Seq<char>) -> JsonDoc {
    match doc {
        JsonDoc::Object(fields) => if exists|i: int| is_first_field(fields, key, i) {
            fields[choose|i: int| is_first_field(fields, key, i)].1
        } else {
            JsonDoc::Null
        },
        _ => JsonDoc::Null,
    }
}

/// An object with `value` set under `key`: it replaces the member under
/// `key` where there is one and is added last otherwise. Other values are
/// left as they are.
pub open spec fn doc_insert(doc: JsonDoc, key: Seq<char>, value: JsonDoc) -> JsonDoc {
    match doc {
        JsonDoc::Object(fields) => if exists|i: int| is_first_field(fields, key, i) {
            JsonDoc::Object(fields.update(choose|i: int| is_first_field(fields, key, i), (key, value)))
        } else {
            JsonDoc::Object(fields.push((key, value)))
        },
        _ => doc,
    }
}

/// An array with `value` added last; other values are left as they are.
pub open spec fn doc_push(doc: JsonDoc, value: JsonDoc) -> JsonDoc {
    match doc {
        JsonDoc::Array(items) => JsonDoc::Array(items.push(value)),
        _ => doc,
    }
}

/// The string that a value holds, if it holds one.
pub open spec fn doc_str(doc: JsonDoc) -> Option<Seq<char>> {
    match doc {
        JsonDoc::Str(s) => Some(s),
        _ => None,
    }
}

/// Setting the member under one name leaves the member under any other name
/// as it was.
pub proof fn lemma_member_after_insert(doc: JsonDoc, key: Seq<char>, value: JsonDoc, other: Seq<char>)
    requires
        other != key,
    ensures
        doc_member(doc_insert(doc, key, value), other) == doc_member(doc, other),
        doc_has_key(doc_insert(doc, key, value), other) == doc_has_key(doc, other),
{
    match doc {
        JsonDoc::Object(fields) => {
            let new_fields = match doc_insert(doc, key, value) {
                JsonDoc::Object(f) => f,
                _ => fields,
            };
            assert(new_fields.len() >= fields.len());
            assert forall|j: int| 0 <= j < fields.len() implies (#[trigger] new_fields[j]).0 == fields[j].0
                && (fields[j].0 == other ==> new_fields[j] == fields[j]) by {
                if exists|i: int| is_first_field(fields, key, i) {
                    let p = choose|i: int| is_first_field(fields, key, i);
                    if j == p {
                        assert(fields[j].0 == key);
                    }
                }
            }
            assert(new_fields.len() > fields.len() ==> new_fields[fields.len() as int].0 == key);
            assert forall|i: int| is_first_field(new_fields, other, i) <==> is_first_field(fields, other, i) by {
                if is_first_field(new_fields, other, i) {
                    assert forall|j: int| 0 <= j < i implies (#[trigger] fields[j]).0 != other by {
                        assert(new_fields[j].0 != other);
                    }
                }
                if is_first_field(fields, other, i) {
                    assert forall|j: int| 0 <= j < i implies (#[trigger] new_fields[j]).0 != other by {
                        assert(fields[j].0 != other);
                    }
                }
            }
            if exists|i: int| is_first_field(fields, other, i) {
                let i = choose|i: int| is_first_field(fields, other, i);
                let k = choose|k: int| is_first_field(new_fields, other, k);
                assert(is_first_field(new_fields, other, i));
                if k < i {
                    assert(new_fields[k].0 != other);
                } else if k > i {
                    assert(new_fields[i].0 != other);
                }
            }
        },
        _ => {},
    }
}

/// Setting a member under a name that an object does not hold yet adds it last.
pub proof fn lemma_insert_new_member(fields: Seq<(Seq<char>, JsonDoc)>, key: Seq<char>, value: JsonDoc)
    requires
        forall|j: int| 0 <= j < fields.len() ==> (#[trigger] fields[j]).0 != key,
    ensures
        doc_insert(JsonDoc::Object(fields), key, value) == JsonDoc::Object(fields.push((key, value))),
{
    assert(!exists|i: int| is_first_field(fields, key, i));
}

/// The member names the server writes are distinct from one another.
pub proof fn lemma_member_names()
    ensures
        "type"@.len() == 4 && "type"@[0] == 't' && "type"@[1] == 'y',
        "text"@.len() == 4 && "text"@[0] == 't' && "text"@[1] == 'e',
        "time"@.len() == 4 && "time"@[0] == 't' && "time"@[1] == 'i',
        "room"@.len() == 4 && "room"@[0] == 'r',
        "name"@.len() == 4 && "name"@[0] == 'n',
        "sender"@.len() == 6 && "sender"@[0] == 's' && "sender"@[1] == 'e',
        "status"@.len() == 6 && "status"@[0] == 's' && "status"@[1] == 't',
        "members"@.len() == 7 && "members"@[0] == 'm',
        "hash_id"@.len() == 7 && "hash_id"@[0] == 'h',
        "id"@.len() == 2,
{
    reveal_strlit("type");
    reveal_strlit("text");
    reveal_strlit("time");
    reveal_strlit("room");
    reveal_strlit("name");
    reveal_strlit("sender");
    reveal_strlit("status");
    reveal_strlit("members");
    reveal_strlit("hash_id");
    reveal_strlit("id");
}

/// How far the parser of `json` can count a fraction's exponent down: it
/// keeps the exponent in an `i16`, which starts at 0 for a number whose
/// integer part is `0`.
pub open spec fn exponent_floor() -> int {
    32768
}

/// The parser's bound below which a mantissa takes one more digit unchecked.
pub open spec fn max_precision() -> int {
    576460752303423500
}

/// Whether a byte is an ASCII decimal digit.
pub open spec fn is_digit(b: u8) -> bool {
    48 <= b <= 57
}

/// Where a scan of JSON text stands: between tokens, inside a string, or
/// right after a backslash inside a string.
pub enum LexState {
    Outside,
    InString,
    AfterBackslash,
}

/// The scan's state after one more byte.
pub open spec fn lex_step(st: LexState, c: u8) -> LexState {
    match st {
        LexState::Outside => if c == 34 {
            LexState::InString
        } else {
            LexState::Outside
        },
        LexState::InString => if c == 92 {
            LexState::AfterBackslash
        } else if c == 34 {
            LexState::Outside
        } else {
            LexState::InString
        },
        LexState::AfterBackslash => LexState::InString,
    }
}

/// The scan's state after the first `n` bytes of `b`.
pub open spec fn lex_state(b: Seq<u8>, n: int) -> LexState
    decreases n,
{
    if n <= 0 || n > b.len() {
        LexState::Outside
    } else {
        lex_step(lex_state(b, n - 1), b[n - 1])
    }
}

/// How many times the parser counts the exponent down while it reads the
/// fraction digits of `b` from `q` on, its mantissa being `num`: once per
/// digit while the mantissa is below `max_precision()`, and after that once
/// per digit that still fits the mantissa into a `u64`.
pub open spec fn fraction_steps(b: Seq<u8>, q: int, num: int) -> int
    decreases b.len() - q,
{
    if q < 0 || q >= b.len() || !is_digit(b[q]) {
        0
    } else {
        let d = b[q] - 48;
        if num < max_precision() {
            1 + fraction_steps(b, q + 1, num * 10 + d)
        } else if num * 10 + d <= u64::MAX {
            1 + fraction_steps(b, q + 1, num * 10 + d)
        } else {
            fraction_steps(b, q + 1, num)
        }
    }
}

/// At `p` outside any string stands a number whose integer part is `0`, and
/// reading its fraction counts the parser's exponent below its least value.
pub open spec fn exponent_overflow_at(b: Seq<u8>, p: int) -> bool {
    &&& 0 <= p
    &&& p + 1 < b.len()
    &&& lex_state(b, p) == LexState::Outside
    &&& b[p] == 48
    &&& b[p + 1] == 46
    &&& (p == 0 || !is_digit(b[p - 1]))
    &&& fraction_steps(b, p + 2, 0) > exponent_floor()
}

/// Whether `json::parse` would overflow its exponent on a text with these
/// bytes. Only a number whose integer part is `0` can do that: any other
/// mantissa outgrows a `u64` within twenty fraction digits, after which the
/// exponent stops moving.
pub open spec fn parse_overflows(b: Seq<u8>) -> bool {
    exists|p: int| exponent_overflow_at(b, p)
}

proof fn lemma_fraction_steps_nonnegative(b: Seq<u8>, q: int, num: int)
    ensures
        fraction_steps(b, q, num) >= 0,
    decreases b.len() - q,
{
    if !(q < 0 || q >= b.len() || !is_digit(b[q])) {
        let d = b[q] - 48;
        lemma_fraction_steps_nonnegative(b, q + 1, num * 10 + d);
        lemma_fraction_steps_nonnegative(b, q + 1, num);
    }
}

/// Counts the exponent steps of the fraction digits from `q` on, from a zero
/// mantissa; `None` where they pass `exponent_floor()`.
fn count_fraction_steps(b: &[u8], q: usize) -> (r: Option<u64>)
    ensures
        match r {
            Some(n) => n == fraction_steps(b@, q as int, 0) && n <= exponent_floor(),
            None => fraction_steps(b@, q as int, 0) > exponent_floor(),
        },
{
    let mut j: usize = q;
    let mut num: u64 = 0;
    let mut count: u64 = 0;
    while j < b.len() && 48u8 <= b[j] && b[j] <= 57u8
        invariant
            q <= j,
            count <= exponent_floor(),
            count + fraction_steps(b@, j as int, num as int) == fraction_steps(b@, q as int, 0),
        decreases b@.len() - j,
    {
        let d: u64 = (b[j] - 48u8) as u64;
        if num < 576460752303423500u64 {
            assert(num * 10 + d <= u64::MAX) by (nonlinear_arith)
                requires num < 576460752303423500u64, d <= 9;
            num = num * 10 + d;
            count = count + 1;
        } else if num <= (18446744073709551615u64 - d) / 10 {
            assert(num * 10 + d <= u64::MAX) by (nonlinear_arith)
                requires num <= (18446744073709551615u64 - d) / 10, d <= 9;
            num = num * 10 + d;
            count = count + 1;
        } else {
            assert(num * 10 + d > u64::MAX) by (nonlinear_arith)
                requires num > (18446744073709551615u64 - d) / 10, d <= 9;
        }
        if count > 32768 {
            proof {
                lemma_fraction_steps_nonnegative(b@, j + 1, num as int);
            }
            return None;
        }
        j = j + 1;
    }
    Some(count)
}

/// Whether `json::parse` would overflow its exponent on `text`; see
/// `parse_overflows`.
pub fn parse_would_overflow(text: &str) -> (r: bool)
    ensures
        r == parse_overflows(encode_utf8(text@)),
{
    let b = text.as_bytes();
    let ghost bs = b@;
    let mut st = LexState::Outside;
    let mut i: usize = 0;
    while i < b.len()
        invariant
            bs == b@,
            bs == encode_utf8(text@),
            0 <= i <= bs.len(),
            st == lex_state(bs, i as int),
            forall|p: int| 0 <= p < i ==> !#[trigger] exponent_overflow_at(bs, p),
        decreases bs.len() - i,
    {
        let outside = match st {
            LexState::Outside => true,
            _ => false,
        };
        if outside && b[i] == 48u8 && i + 1 < b.len() && b[i + 1] == 46u8 && (i == 0 || !(48u8 <= b[i - 1]
            && b[i - 1] <= 57u8)) {
            match count_fraction_steps(b, i + 2) {
                None => {
                    proof {
                        assert(exponent_overflow_at(bs, i as int));
                    }
                    return true;
                },
                Some(_) => {},
            }
        }
        st = match st {
            LexState::Outside => if b[i] == 34u8 {
                LexState::InString
            } else {
                LexState::Outside
            },
            LexState::InString => if b[i] == 92u8 {
                LexState::AfterBackslash
            } else if b[i] == 34u8 {
                LexState::Outside
            } else {
                LexState::InString
            },
            LexState::AfterBackslash => LexState::InString,
        };
        i = i + 1;
    }
    proof {
        if parse_overflows(bs) {
            let p = choose|p: int| exponent_overflow_at(bs, p);
            assert(!exponent_overflow_at(bs, p));
        }
    }
    false
}

/// `json::parse`: the value that a text denotes, or `None` where the text is
/// not JSON. Its `requires` leaves out the texts on which the parser would
/// count its `i16` exponent below its least value (`parse_overflows`), a
/// subtraction that panics where overflow checks are on.
#[verifier::external_body]
pub(crate) fn json_parse(text: &str) -> (r: Option<json::JsonValue>)
    requires
        !parse_overflows(encode_utf8(text@)),
    ensures
        r is Some <==> json_parsed(text@) is Some,
        r matches Some(v) ==> json_doc(v) == json_parsed(text@)->0,
{
    json::parse(text).ok()
}

/// Indexing a `json::JsonValue` by a key: the member of an object under it,
/// and `null` where there is none or the value is no object.
#[verifier::external_body]
pub(crate) fn json_index<'a>(value: &'a json::JsonValue, key: &str) -> (r: &'a json::JsonValue)
    ensures
        json_doc(*r) == doc_member(json_doc(*value), key@),
{
    &value[key]
}

/// `JsonValue::has_key`: whether the value is an object with a member under `key`.
#[verifier::external_body]
pub(crate) fn json_has_key(value: &json::JsonValue, key: &str) -> (r: bool)
    ensures
        r == doc_has_key(json_doc(*value), key@),
{
    value.has_key(key)
}

/// `JsonValue::as_str`: the string a value holds, if it is one.
#[verifier::external_body]
pub(crate) fn json_as_str(value: &json::JsonValue) -> (r: Option<String>)
    ensures
        r is Some <==> doc_str(json_doc(*value)) is Some,
        r matches Some(s) ==> s@ == doc_str(json_doc(*value))->0,
{
    match value.as_str() {
        Some(s) => Some(s.to_string()),
        None => None,
    }
}

/// `JsonValue::is_null`.
#[verifier::external_body]
pub(crate) fn json_is_null(value: &json::JsonValue) -> (r: bool)
    ensures
        r == (json_doc(*value) is Null),
{
    value.is_null()
}

/// `JsonValue::new_object`: an object with no member.
#[verifier::external_body]
pub(crate) fn json_new_object() -> (r: json::JsonValue)
    ensures
        json_doc(r) == JsonDoc::Object(seq![]),
{
    json::JsonValue::new_object()
}

/// `JsonValue::new_array`: an array with no item.
#[verifier::external_body]
pub(crate) fn json_new_array() -> (r: json::JsonValue)
    ensures
        json_doc(r) == JsonDoc::Array(seq![]),
{
    json::JsonValue::new_array()
}

/// `JsonValue::from(&str)`: a string value.
#[verifier::external_body]
pub(crate) fn json_from_str(s: &str) -> (r: json::JsonValue)
    ensures
        json_doc(r) == JsonDoc::Str(s@),
{
    json::JsonValue::from(s)
}

/// `JsonValue::from(u64)`: a non-negative number with exponent 0.
#[verifier::external_body]
pub(crate) fn json_from_u64(n: u64) -> (r: json::JsonValue)
    ensures
        json_doc(r) == JsonDoc::Number(true, n as nat, 0),
{
    json::JsonValue::from(n)
}

/// `JsonValue::insert`: sets a member of an object; a value that is no
/// object is left as it is (the crate's error is dropped).
#[verifier::external_body]
pub(crate) fn json_insert(object: &mut json::JsonValue, key: &str, value: json::JsonValue)
    ensures
        json_doc(*final(object)) == doc_insert(json_doc(*old(object)), key@, json_doc(value)),
{
    let _ = object.insert(key, value);
}

/// `JsonValue::push`: adds an item to an array; a value that is no array
/// is left as it is (the crate's error is dropped).
#[verifier::external_body]
pub(crate) fn json_push(array: &mut json::JsonValue, value: json::JsonValue)
    ensures
        json_doc(*final(array)) == doc_push(json_doc(*old(array)), json_doc(value)),
{
    let _ = array.push(value);
}

/// `JsonValue::dump`: the compact JSON text of a value. It holds no line
/// break: the printer escapes every control character inside strings and
/// writes no whitespace between tokens.
#[verifier::external_body]
pub(crate) fn json_dump(value: &json::JsonValue) -> (r: String)
    ensures
        r@ == json_text(json_doc(*value)),
        !r@.contains('\n'),
{
    value.dump()
}

} // verus!
