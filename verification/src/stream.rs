//! What the server makes of the bytes its clients send: lines ended by a
//! newline, the handshake that opens a connection, and the messages that
//! follow it.
use vstd::prelude::*;
use vstd::utf8::*;
use crate::clock::now_display;
use crate::json::{
    doc_has_key, doc_member, parse_overflows, json_as_str, json_doc, parse_would_overflow, lemma_insert_new_member, json_dump,
    json_from_str, json_from_u64, json_has_key, json_index, json_insert, json_is_null,
    json_new_object, json_parse, json_parsed, json_text, lemma_member_names, JsonDoc,
};
use crate::message::{message_from_json, Message};
use crate::user::{User, UserView};

verus! {

/// The newline byte that ends every line of the protocol.
pub open spec fn newline() -> u8 {
    10u8
}

/// `i` is the first newline of `b`.
pub open spec fn is_first_newline(b: Seq<u8>, i: int) -> bool {
    &&& 0 <= i < b.len()
    &&& b[i] == newline()
    &&& forall|j: int| 0 <= j < i ==> #[trigger] b[j] != newline()
}

/// The index of the first newline of `b`, if it holds one.
pub open spec fn first_newline(b: Seq<u8>) -> Option<int> {
    if exists|i: int| is_first_newline(b, i) {
        Some(choose|i: int| is_first_newline(b, i))
    } else {
        None
    }
}

proof fn lemma_first_newline(b: Seq<u8>, i: int)
    requires
        is_first_newline(b, i),
    ensures
        first_newline(b) == Some(i),
{
    let k = choose|k: int| is_first_newline(b, k);
    assert(is_first_newline(b, k));
    if k < i {
        assert(b[k] != newline());
    } else if k > i {
        assert(b[i] != newline());
    }
}

/// Bytes that hold a newline have a first one.
proof fn lemma_newline_has_first(b: Seq<u8>, i: int)
    requires
        0 <= i < b.len(),
        b[i] == newline(),
    ensures
        first_newline(b) is Some,
    decreases i,
{
    if forall|j: int| 0 <= j < i ==> #[trigger] b[j] != newline() {
        assert(is_first_newline(b, i));
    } else {
        let j = choose|j: int| 0 <= j < i && #[trigger] b[j] == newline();
        lemma_newline_has_first(b, j);
    }
}

/// The index of the first newline of `b`, if it holds one.
fn find_newline(b: &Vec<u8>) -> (r: Option<usize>)
    ensures
        r matches Some(i) ==> first_newline(b@) == Some(i as int),
        r is None ==> first_newline(b@) is None && !b@.contains(newline()),
{
    let mut i: usize = 0;
    while i < b.len()
        invariant
            0 <= i <= b@.len(),
            forall|j: int| 0 <= j < i ==> #[trigger] b@[j] != newline(),
        decreases b@.len() - i,
    {
        if b[i] == 10u8 {
            proof {
                lemma_first_newline(b@, i as int);
            }
            return Some(i);
        }
        i = i + 1;
    }
    None
}

/// `String::from_utf8`: the text that bytes encode in UTF-8, or `None` where
/// they are no valid UTF-8.
#[verifier::external_body]
pub(crate) fn utf8_text(bytes: Vec<u8>) -> (r: Option<String>)
    ensures
        r is Some <==> valid_utf8(bytes@),
        r matches Some(s) ==> s@ == decode_utf8(bytes@),
{
    String::from_utf8(bytes).ok()
}

/// The lowercase hexadecimal SHA-512 digest that `crypto_hash` gives of `data`.
pub uninterp spec fn sha512_hex(data: Seq<u8>) -> Seq<char>;

/// `crypto_hash::hex_digest` with SHA-512: the digest of `data` in hexadecimal.
#[verifier::external_body]
fn sha512_hex_digest(data: &[u8]) -> (r: String)
    ensures
        r@ == sha512_hex(data@),
{
    crypto_hash::hex_digest(crypto_hash::Algorithm::SHA512, data)
}

/// The UTF-8 bytes of a text.
pub fn text_bytes(s: &str) -> (r: Vec<u8>)
    ensures
        r@ == encode_utf8(s@),
{
    let b = s.as_bytes();
    let mut r: Vec<u8> = Vec::new();
    let mut i: usize = 0;
    while i < b.len()
        invariant
            0 <= i <= b@.len(),
            b@ == encode_utf8(s@),
            r@ == b@.take(i as int),
        decreases b@.len() - i,
    {
        r.push(b[i]);
        proof {
            assert(b@.take(i + 1) =~= b@.take(i as int).push(b@[i as int]));
        }
        i = i + 1;
    }
    proof {
        assert(b@.take(b@.len() as int) =~= b@);
    }
    r
}

/// The bytes that send a text as one line: its UTF-8 encoding, then a newline.
pub fn frame_line(text: &String) -> (r: Vec<u8>)
    ensures
        r@ == encode_utf8(text@).push(newline()),
{
    let mut r = text_bytes(text.as_str());
    r.push(10u8);
    r
}

/// No byte of the UTF-8 encoding of a character other than the newline is
/// the newline byte.
proof fn lemma_scalar_no_newline(v: u32)
    requires
        v != 10,
    ensures
        !encode_scalar(v).contains(newline()),
{
    assert(v <= 0x7f && v != 10 ==> (v & 0x7f) as u8 != 10u8) by (bit_vector);
    assert((0xC0u8 | (((v >> 6u32) & 0x1Fu32) as u8)) != 10u8) by (bit_vector);
    assert((0xE0u8 | (((v >> 12u32) & 0x0Fu32) as u8)) != 10u8) by (bit_vector);
    assert((0xF0u8 | (((v >> 18u32) & 0x7u32) as u8)) != 10u8) by (bit_vector);
    assert((0x80u8 | ((v & 0x3Fu32) as u8)) != 10u8) by (bit_vector);
    assert((0x80u8 | (((v >> 6u32) & 0x3Fu32) as u8)) != 10u8) by (bit_vector);
    assert((0x80u8 | (((v >> 12u32) & 0x3Fu32) as u8)) != 10u8) by (bit_vector);
    let e = encode_scalar(v);
    if e.contains(newline()) {
        let k = choose|k: int| 0 <= k < e.len() && e[k] == newline();
        assert(false);
    }
}

/// The UTF-8 encoding of a text without a line break holds no newline byte.
pub proof fn lemma_encode_no_newline(text: Seq<char>)
    requires
        !text.contains('\n'),
    ensures
        !encode_utf8(text).contains(newline()),
    decreases text.len(),
{
    if text.len() > 0 {
        let rest = text.drop_first();
        assert(!rest.contains('\n')) by {
            if rest.contains('\n') {
                let k = choose|k: int| 0 <= k < rest.len() && rest[k] == '\n';
                assert(text[k + 1] == '\n');
            }
        }
        lemma_encode_no_newline(rest);
        assert(text[0] != '\n') by {
            assert(text.contains(text[0]));
        }
        char_u32_cast(text[0], text[0] as u32);
        char_u32_cast('\n', 10u32);
        assert(text[0] as u32 != 10);
        lemma_scalar_no_newline(text[0] as u32);
        let a = encode_scalar(text[0] as u32);
        let b = encode_utf8(rest);
        if (a + b).contains(newline()) {
            let k = choose|k: int| 0 <= k < (a + b).len() && (a + b)[k] == newline();
            if k < a.len() {
                assert(a[k] == newline());
            } else {
                assert(b[k - a.len()] == newline());
            }
        }
    }
}

/// A text without a line break goes out as one line: the only newline byte
/// of its frame is the last one.
pub proof fn law_frame_holds_one_newline(text: Seq<char>)
    requires
        !text.contains('\n'),
    ensures
        ({
            let f = encode_utf8(text).push(newline());
            &&& f[f.len() - 1] == newline()
            &&& forall|k: int| 0 <= k < f.len() - 1 ==> f[k] != newline()
        }),
{
    lemma_encode_no_newline(text);
    let e = encode_utf8(text);
    assert forall|k: int| 0 <= k < e.len() implies e[k] != newline() by {
        if e[k] == newline() {
            assert(e.contains(newline()));
        }
    }
}

/// Why a read from a client's socket failed: the connection is gone, or
/// nothing has arrived yet (a timeout or an interrupted call).
pub enum ReadFailure {
    ConnectionRefused,
    ConnectionReset,
    ConnectionAborted,
    NotConnected,
    Other,
    Transient,
}

impl ReadFailure {
    /// Whether the failure ends the connection.
    pub fn ends_connection(&self) -> (r: bool)
        ensures
            r == !(self is Transient),
    {
        match self {
            ReadFailure::Transient => false,
            _ => true,
        }
    }
}

/// What a `LineSplitter` holds: the bytes before the first newline, those
/// after it, and whether the newline has come.
pub struct SplitterView {
    pub line: Seq<u8>,
    pub rest: Seq<u8>,
    pub complete: bool,
}

/// The splitter after more bytes arrived: until the first newline they go to
/// the line, and after it to the rest; the newline itself goes to neither.
pub open spec fn splitter_after(s: SplitterView, bytes: Seq<u8>) -> SplitterView {
    if s.complete {
        SplitterView { rest: s.rest + bytes, ..s }
    } else {
        match first_newline(bytes) {
            None => SplitterView { line: s.line + bytes, ..s },
            Some(p) => SplitterView {
                line: s.line + bytes.take(p),
                rest: s.rest + bytes.skip(p + 1),
                complete: true,
            },
        }
    }
}

/// A splitter is valid when its line holds no newline and it has no rest
/// before the newline came.
pub open spec fn splitter_valid(s: SplitterView) -> bool {
    &&& !s.line.contains(newline())
    &&& !s.complete ==> s.rest.len() == 0
}

/// All the bytes a splitter was given, in order.
pub open spec fn splitter_bytes(s: SplitterView) -> Seq<u8> {
    if s.complete {
        s.line.push(newline()) + s.rest
    } else {
        s.line
    }
}

/// Splitting loses and reorders no byte: what a splitter holds after more
/// bytes arrived is what it held, then those bytes.
pub proof fn lemma_splitter_keeps_bytes(s: SplitterView, bytes: Seq<u8>)
    requires
        splitter_valid(s),
    ensures
        splitter_valid(splitter_after(s, bytes)),
        splitter_bytes(splitter_after(s, bytes)) == splitter_bytes(s) + bytes,
{
    let t = splitter_after(s, bytes);
    if s.complete {
        assert(splitter_bytes(t) =~= splitter_bytes(s) + bytes);
    } else {
        match first_newline(bytes) {
            None => {
                assert(!exists|i: int| is_first_newline(bytes, i));
                assert forall|i: int| 0 <= i < bytes.len() implies bytes[i] != newline() by {
                    if bytes[i] == newline() {
                        lemma_newline_has_first(bytes, i);
                    }
                }
                assert(!t.line.contains(newline())) by {
                    if t.line.contains(newline()) {
                        let k = choose|k: int| 0 <= k < t.line.len() && t.line[k] == newline();
                        if k < s.line.len() {
                            assert(s.line[k] == newline());
                        } else {
                            assert(bytes[k - s.line.len()] == newline());
                        }
                    }
                }
            },
            Some(p) => {
                assert(is_first_newline(bytes, p));
                assert(!t.line.contains(newline())) by {
                    if t.line.contains(newline()) {
                        let k = choose|k: int| 0 <= k < t.line.len() && t.line[k] == newline();
                        if k < s.line.len() {
                            assert(s.line[k] == newline());
                        } else {
                            assert(bytes[k - s.line.len()] == newline());
                        }
                    }
                }
                assert(bytes =~= bytes.take(p).push(newline()) + bytes.skip(p + 1));
                assert(splitter_bytes(t) =~= splitter_bytes(s) + bytes);
            },
        }
    }
}

/// Reading a message loses no byte: what was pending and what arrived is
/// the consumed line, which holds no newline, then the newline, then what
/// stays pending.
pub proof fn law_read_keeps_bytes(pending: Seq<u8>, bytes: Seq<u8>)
    requires
        first_newline(pending + bytes) is Some,
    ensures
        ({
            let all = pending + bytes;
            let p = first_newline(all)->0;
            &&& all == all.take(p).push(newline()) + all.skip(p + 1)
            &&& !all.take(p).contains(newline())
        }),
{
    let all = pending + bytes;
    let p = first_newline(all)->0;
    assert(is_first_newline(all, p));
    assert(all =~= all.take(p).push(newline()) + all.skip(p + 1));
    if all.take(p).contains(newline()) {
        let k = choose|k: int| 0 <= k < p && all.take(p)[k] == newline();
        assert(all[k] == newline());
    }
}

/// Collects the bytes of a connection up to its first newline, and keeps
/// those that came after it in the same reads.
pub struct LineSplitter {
    line: Vec<u8>,
    rest: Vec<u8>,
    complete: bool,
}

impl View for LineSplitter {
    type V = SplitterView;

    closed spec fn view(&self) -> SplitterView {
        SplitterView { line: self.line@, rest: self.rest@, complete: self.complete }
    }
}

impl LineSplitter {
    /// A splitter that has been given nothing yet.
    pub fn new() -> (s: LineSplitter)
        ensures
            s@ == (SplitterView { line: seq![], rest: seq![], complete: false }),
    {
        LineSplitter { line: Vec::new(), rest: Vec::new(), complete: false }
    }

    /// Takes the bytes of one read.
    pub fn feed(&mut self, bytes: Vec<u8>)
        ensures
            final(self)@ == splitter_after(old(self)@, bytes@),
    {
        let mut bytes = bytes;
        if self.complete {
            self.rest.append(&mut bytes);
        } else {
            match find_newline(&bytes) {
                None => {
                    self.line.append(&mut bytes);
                },
                Some(p) => {
                    let ghost all = bytes@;
                    let mut tail = bytes.split_off(p);
                    tail.remove(0);
                    self.line.append(&mut bytes);
                    self.rest.append(&mut tail);
                    self.complete = true;
                    proof {
                        assert(all.subrange(0, p as int) =~= all.take(p as int));
                        assert(all.subrange(p as int, all.len() as int).remove(0) =~= all.skip(p + 1));
                    }
                },
            }
        }
    }

    /// Whether the newline has come.
    pub fn is_complete(&self) -> (r: bool)
        ensures
            r == self@.complete,
    {
        self.complete
    }

    /// The bytes before the newline and those after it.
    pub fn into_parts(self) -> (r: (Vec<u8>, Vec<u8>))
        ensures
            r.0@ == self@.line,
            r.1@ == self@.rest,
    {
        (self.line, self.rest)
    }
}

/// The name a new user goes by, read from the handshake line: `None` where
/// the line is no UTF-8, holds a number whose fraction overflows the
/// parser's exponent (see `parse_overflows`), is no JSON, or names no user
/// (see `name_from_doc`).
pub open spec fn handshake_name(header: Seq<u8>, peer: Seq<char>) -> Option<Seq<char>> {
    if !valid_utf8(header) {
        None
    } else if parse_overflows(encode_utf8(decode_utf8(header))) {
        None
    } else {
        match json_parsed(decode_utf8(header)) {
            None => None,
            Some(doc) => name_from_doc(doc, peer),
        }
    }
}

/// The name a handshake value gives a user: its string member "name", or
/// the peer's address where that member is null. `None` where the value is
/// no object, has no such member, or that member is of another kind.
pub open spec fn name_from_doc(doc: JsonDoc, peer: Seq<char>) -> Option<Seq<char>> {
    if !doc_has_key(doc, "name"@) {
        None
    } else {
        match doc_member(doc, "name"@) {
            JsonDoc::Str(s) => Some(s),
            JsonDoc::Null => Some(peer),
            _ => None,
        }
    }
}

/// Reads the name a handshake value gives a new user from `peer`.
pub fn handshake_name_of(value: &json::JsonValue, peer: &String) -> (r: Result<String, ()>)
    ensures
        r is Ok <==> name_from_doc(json_doc(*value), peer@) is Some,
        r matches Ok(s) ==> s@ == name_from_doc(json_doc(*value), peer@)->0,
{
    if !json_has_key(value, "name") {
        return Err(());
    }
    let member = json_index(value, "name");
    match json_as_str(member) {
        Some(s) => Ok(s),
        None => {
            if json_is_null(member) {
                Ok(peer.clone())
            } else {
                Err(())
            }
        },
    }
}

/// The id the server gives a user: the digest of its name, the peer's
/// address and the time, joined by hyphens.
pub open spec fn user_id_for(name: Seq<char>, peer: Seq<char>, now: Seq<char>) -> Seq<char> {
    sha512_hex(encode_utf8(name + "-"@ + peer + "-"@ + now))
}

/// The JSON with which the server answers a handshake.
pub open spec fn handshake_reply_doc(id: Seq<char>, name: Seq<char>) -> JsonDoc {
    JsonDoc::Object(
        seq![
            ("status"@, JsonDoc::Number(true, 200, 0)),
            ("id"@, JsonDoc::Str(id)),
            ("name"@, JsonDoc::Str(name)),
            ("room"@, JsonDoc::Str("lounge"@)),
        ],
    )
}

/// Answers the handshake line of a new connection from `peer`, at time
/// `now`: the new user and the bytes of the reply. `Err` where the line
/// names no user.
pub fn check_handshake_at(header: Vec<u8>, peer: &String, now: &String) -> (r: Result<(User, Vec<u8>), ()>)
    ensures
        r is Ok <==> handshake_name(header@, peer@) is Some,
        r matches Ok((user, reply)) ==> {
            let name = handshake_name(header@, peer@)->0;
            let id = user_id_for(name, peer@, now@);
            &&& user@ == (UserView { nickname: name, hash_id: id, rooms: seq![] })
            &&& reply@ == encode_utf8(json_text(handshake_reply_doc(id, name))).push(newline())
        },
{
    let ghost header_bytes = header@;
    let text = match utf8_text(header) {
        Some(t) => t,
        None => {
            return Err(());
        },
    };
    if parse_would_overflow(text.as_str()) {
        return Err(());
    }
    let value = match json_parse(text.as_str()) {
        Some(v) => v,
        None => {
            return Err(());
        },
    };
    let name = match handshake_name_of(&value, peer) {
        Ok(n) => n,
        Err(_) => {
            return Err(());
        },
    };
    let mut joined = name.clone();
    joined.append("-");
    joined.append(peer.as_str());
    joined.append("-");
    joined.append(now.as_str());
    let id = sha512_hex_digest(joined.as_str().as_bytes());
    proof {
        lemma_member_names();
    }
    let mut object = json_new_object();
    let ghost f0: Seq<(Seq<char>, JsonDoc)> = seq![];
    json_insert(&mut object, "status", json_from_u64(200));
    proof { lemma_insert_new_member(f0, "status"@, JsonDoc::Number(true, 200, 0)); }
    let ghost f1 = f0.push(("status"@, JsonDoc::Number(true, 200, 0)));
    json_insert(&mut object, "id", json_from_str(id.as_str()));
    proof { lemma_insert_new_member(f1, "id"@, JsonDoc::Str(id@)); }
    let ghost f2 = f1.push(("id"@, JsonDoc::Str(id@)));
    json_insert(&mut object, "name", json_from_str(name.as_str()));
    proof { lemma_insert_new_member(f2, "name"@, JsonDoc::Str(name@)); }
    let ghost f3 = f2.push(("name"@, JsonDoc::Str(name@)));
    json_insert(&mut object, "room", json_from_str("lounge"));
    proof {
        lemma_insert_new_member(f3, "room"@, JsonDoc::Str("lounge"@));
        assert(f3.push(("room"@, JsonDoc::Str("lounge"@))) =~= seq![
            ("status"@, JsonDoc::Number(true, 200, 0)),
            ("id"@, JsonDoc::Str(id@)),
            ("name"@, JsonDoc::Str(name@)),
            ("room"@, JsonDoc::Str("lounge"@)),
        ]);
    }
    let reply_text = json_dump(&object);
    let reply = frame_line(&reply_text);
    Ok((User::new(name, id), reply))
}

/// Answers the handshake line of a new connection from `peer`, at the
/// current time.
pub fn check_handshake(header: Vec<u8>, peer: &String) -> (r: Result<(User, Vec<u8>), ()>)
    ensures
        r is Ok <==> handshake_name(header@, peer@) is Some,
        r matches Ok((user, reply)) ==> exists|now: Seq<char>|
            #![trigger user_id_for(handshake_name(header@, peer@)->0, peer@, now)]
        {
            let name = handshake_name(header@, peer@)->0;
            let id = user_id_for(name, peer@, now);
            &&& user@ == (UserView { nickname: name, hash_id: id, rooms: seq![] })
            &&& reply@ == encode_utf8(json_text(handshake_reply_doc(id, name))).push(newline())
        },
{
    let now = now_display();
    check_handshake_at(header, peer, &now)
}

/// What an input stream holds: the id of its user and the bytes that came
/// after the last complete line.
pub struct InputStreamView {
    pub hash_id: Seq<char>,
    pub pending: Seq<u8>,
}

/// The reader of the messages one user sends.
pub struct InputStream {
    hash_id: String,
    queue: Vec<u8>,
}

impl View for InputStream {
    type V = InputStreamView;

    closed spec fn view(&self) -> InputStreamView {
        InputStreamView { hash_id: self.hash_id@, pending: self.queue@ }
    }
}

/// What a read gives the reader: the line's message, or `Err(true)` where the
/// connection is to be dropped and `Err(false)` where the next read is awaited.
pub open spec fn line_outcome(user_id: Seq<char>, line: Seq<u8>, r: Result<Message, bool>) -> bool {
    if !valid_utf8(line) {
        r == Err::<Message, bool>(true)
    } else {
        match message_from_json(user_id, decode_utf8(line)) {
            Some(m) => r matches Ok(x) && x@ == m,
            None => r == Err::<Message, bool>(true),
        }
    }
}

impl InputStream {
    /// A reader for user `hash_id` that holds the bytes `buffer` that came
    /// with the handshake.
    pub fn new(hash_id: String, buffer: Vec<u8>) -> (s: InputStream)
        ensures
            s@ == (InputStreamView { hash_id: hash_id@, pending: buffer@ }),
    {
        InputStream { hash_id, queue: buffer }
    }

    /// The id of the user whose messages this reads.
    pub fn get_user_hash_id(&self) -> (r: String)
        ensures
            r@ == self@.hash_id,
    {
        self.hash_id.clone()
    }

    /// Takes the outcome of one read from the socket and gives the message of
    /// the first complete line, if one is there now.
    pub fn read_message(&mut self, read: Result<Vec<u8>, ReadFailure>) -> (r: Result<Message, bool>)
        ensures
            final(self)@.hash_id == old(self)@.hash_id,
            match read {
                Err(failure) => r == Err::<Message, bool>(!(failure is Transient))
                    && final(self)@ == old(self)@,
                Ok(bytes) => if bytes@.len() == 0 {
                    r == Err::<Message, bool>(true) && final(self)@ == old(self)@
                } else {
                    let all = old(self)@.pending + bytes@;
                    match first_newline(all) {
                        None => r == Err::<Message, bool>(false) && final(self)@.pending == all,
                        Some(p) => final(self)@.pending == all.skip(p + 1)
                            && line_outcome(old(self)@.hash_id, all.take(p), r),
                    }
                },
            },
    {
        let mut bytes = match read {
            Err(failure) => {
                return Err(failure.ends_connection());
            },
            Ok(b) => b,
        };
        if bytes.len() == 0 {
            return Err(true);
        }
        let ghost all = self.queue@ + bytes@;
        self.queue.append(&mut bytes);
        match find_newline(&self.queue) {
            None => Err(false),
            Some(p) => {
                let mut line = self.queue.split_off(p);
                line.remove(0);
                std::mem::swap(&mut self.queue, &mut line);
                proof {
                    assert(line@ =~= all.take(p as int));
                    assert(self.queue@ =~= all.skip(p + 1));
                }
                match utf8_text(line) {
                    None => Err(true),
                    Some(text) => match Message::from_str(self.hash_id.clone(), text.as_str()) {
                        Ok(m) => Ok(m),
                        Err(_) => Err(true),
                    },
                }
            },
        }
    }
}

} // verus!
