//! What a user sends: a message to a room, read from one line of JSON, and
//! the JSON text that the server forwards for it.
use vstd::prelude::*;
use vstd::utf8::encode_utf8;
use crate::clock::now_rfc2822;
use crate::json::{
    doc_member, doc_str, parse_overflows, json_as_str, json_doc, parse_would_overflow, lemma_insert_new_member, lemma_member_after_insert, doc_insert, json_dump, json_from_str,
    json_index, json_insert, lemma_member_names, json_new_object, json_parse, json_parsed, json_text, JsonDoc,
};

verus! {

pub enum MessageBody {
    PlainText { text: String },
    File { bytes: Vec<u8> },
    Image { bytes: Vec<u8> },
    EnterRoom,
    ExitRoom,
    ExitServer,
    ChangeName { new_name: String },
}

/// What a message body is.
pub enum BodyView {
    PlainText(Seq<char>),
    File(Seq<u8>),
    Image(Seq<u8>),
    EnterRoom,
    ExitRoom,
    ExitServer,
    ChangeName(Seq<char>),
}

impl View for MessageBody {
    type V = BodyView;

    open spec fn view(&self) -> BodyView {
        match self {
            MessageBody::PlainText { text } => BodyView::PlainText(text@),
            MessageBody::File { bytes } => BodyView::File(bytes@),
            MessageBody::Image { bytes } => BodyView::Image(bytes@),
            MessageBody::EnterRoom => BodyView::EnterRoom,
            MessageBody::ExitRoom => BodyView::ExitRoom,
            MessageBody::ExitServer => BodyView::ExitServer,
            MessageBody::ChangeName { new_name } => BodyView::ChangeName(new_name@),
        }
    }
}

/// What a message is: its body, the room it is for and the id of its sender.
pub struct MessageView {
    pub body: BodyView,
    pub room_name: Seq<char>,
    pub user_id: Seq<char>,
}

pub struct Message {
    pub body: MessageBody,
    room_name: String,
    user_id: String,
}

impl View for Message {
    type V = MessageView;

    closed spec fn view(&self) -> MessageView {
        MessageView { body: self.body@, room_name: self.room_name@, user_id: self.user_id@ }
    }
}

/// The string member of a JSON value under `key`, if there is one.
pub open spec fn text_member(doc: JsonDoc, key: Seq<char>) -> Option<Seq<char>> {
    doc_str(doc_member(doc, key))
}

/// The message that a line of JSON from user `user_id` stands for: one that
/// parses, and whose value `message_from_doc` reads as a message. A line
/// holding a number whose fraction overflows the parser's exponent (see
/// `parse_overflows`) is refused.
pub open spec fn message_from_json(user_id: Seq<char>, text: Seq<char>) -> Option<MessageView> {
    if parse_overflows(encode_utf8(text)) {
        None
    } else {
        match json_parsed(text) {
            None => None,
            Some(doc) => message_from_doc(user_id, doc),
        }
    }
}

/// The message that a JSON value from user `user_id` stands for: an object
/// with string members "type", "room" and "value", whose type is TEXT, IMG,
/// FILE or EXIT. An image or a file arrives with no bytes.
pub open spec fn message_from_doc(user_id: Seq<char>, doc: JsonDoc) -> Option<MessageView> {
    match (text_member(doc, "type"@), text_member(doc, "room"@), text_member(doc, "value"@)) {
            (Some(kind), Some(room), Some(value)) => {
                let body = if kind == "TEXT"@ {
                    Some(BodyView::PlainText(value))
                } else if kind == "IMG"@ {
                    Some(BodyView::Image(seq![]))
                } else if kind == "FILE"@ {
                    Some(BodyView::File(seq![]))
                } else if kind == "EXIT"@ {
                    Some(BodyView::ExitServer)
                } else {
                    None
                };
                match body {
                    Some(b) => Some(MessageView { body: b, room_name: room, user_id }),
                    None => None,
                }
            },
            _ => None,
    }
}

/// The JSON the server forwards for a message at time `now`: a chat line
/// for plain text, and an empty frame for anything else.
pub open spec fn chat_doc(m: MessageView, now: Seq<char>) -> JsonDoc {
    match m.body {
        BodyView::PlainText(text) => JsonDoc::Object(
            seq![
                ("type"@, JsonDoc::Str("CHAT_SEND"@)),
                ("sender"@, JsonDoc::Str(m.user_id)),
                ("text"@, JsonDoc::Str(text)),
                ("time"@, JsonDoc::Str(now)),
                ("room"@, JsonDoc::Str(m.room_name)),
            ],
        ),
        _ => JsonDoc::Object(
            seq![
                ("sender"@, JsonDoc::Str(m.user_id)),
                ("text"@, JsonDoc::Str(""@)),
                ("time"@, JsonDoc::Str(now)),
                ("room"@, JsonDoc::Str(""@)),
            ],
        ),
    }
}

/// Members other than "type", "room" and "value" do not change what a JSON
/// value reads as: setting one gives the same message.
pub proof fn law_extra_member_changes_nothing(user_id: Seq<char>, doc: JsonDoc, key: Seq<char>, value: JsonDoc)
    requires
        key != "type"@,
        key != "room"@,
        key != "value"@,
    ensures
        message_from_doc(user_id, doc_insert(doc, key, value)) == message_from_doc(user_id, doc),
{
    lemma_member_after_insert(doc, key, value, "type"@);
    lemma_member_after_insert(doc, key, value, "room"@);
    lemma_member_after_insert(doc, key, value, "value"@);
}

/// Whether a string reads as the literal `lit`.
pub fn text_is(s: &String, lit: &str) -> (r: bool)
    ensures
        r == (s@ == lit@),
{
    *s == lit.to_owned()
}

impl Message {
    pub fn new(user_id: String, room_name: String, msg_body: MessageBody) -> (m: Message)
        ensures
            m@ == (MessageView { body: msg_body@, room_name: room_name@, user_id: user_id@ }),
    {
        Message { user_id, room_name, body: msg_body }
    }

    /// What the message carries.
    pub fn get_body(&self) -> (r: &MessageBody)
        ensures
            r@ == self@.body,
    {
        &self.body
    }

    /// The id of the user who sent the message.
    pub fn get_user_id(&self) -> (r: String)
        ensures
            r@ == self@.user_id,
    {
        self.user_id.clone()
    }

    /// The room the message is for.
    pub fn get_room_name(&self) -> (r: String)
        ensures
            r@ == self@.room_name,
    {
        self.room_name.clone()
    }

    /// The text the server forwards for this message, stamped with the
    /// current time.
    pub fn to_send_json_text(&self) -> (r: Result<String, ()>)
        ensures
            r matches Ok(s) && exists|now: Seq<char>| s@ == json_text(chat_doc(self@, now)),
            r matches Ok(s) && !s@.contains('\n'),
    {
        let now = now_rfc2822();
        self.to_send_json_text_at(&now)
    }

    /// The text the server forwards for this message, stamped with `now`.
    pub fn to_send_json_text_at(&self, now: &String) -> (r: Result<String, ()>)
        ensures
            r matches Ok(s) && s@ == json_text(chat_doc(self@, now@)),
            r matches Ok(s) && !s@.contains('\n'),
    {
        proof {
            lemma_member_names();
        }
        let mut object = json_new_object();
        let ghost f0: Seq<(Seq<char>, JsonDoc)> = seq![];
        match &self.body {
            MessageBody::PlainText { text } => {
                json_insert(&mut object, "type", json_from_str("CHAT_SEND"));
                proof { lemma_insert_new_member(f0, "type"@, JsonDoc::Str("CHAT_SEND"@)); }
                let ghost f1 = f0.push(("type"@, JsonDoc::Str("CHAT_SEND"@)));
                json_insert(&mut object, "sender", json_from_str(self.user_id.as_str()));
                proof { lemma_insert_new_member(f1, "sender"@, JsonDoc::Str(self.user_id@)); }
                let ghost f2 = f1.push(("sender"@, JsonDoc::Str(self.user_id@)));
                json_insert(&mut object, "text", json_from_str(text.as_str()));
                proof { lemma_insert_new_member(f2, "text"@, JsonDoc::Str(text@)); }
                let ghost f3 = f2.push(("text"@, JsonDoc::Str(text@)));
                json_insert(&mut object, "time", json_from_str(now.as_str()));
                proof { lemma_insert_new_member(f3, "time"@, JsonDoc::Str(now@)); }
                let ghost f4 = f3.push(("time"@, JsonDoc::Str(now@)));
                json_insert(&mut object, "room", json_from_str(self.room_name.as_str()));
                proof {
                    lemma_insert_new_member(f4, "room"@, JsonDoc::Str(self.room_name@));
                    assert(f4.push(("room"@, JsonDoc::Str(self.room_name@))) =~= seq![
                        ("type"@, JsonDoc::Str("CHAT_SEND"@)),
                        ("sender"@, JsonDoc::Str(self.user_id@)),
                        ("text"@, JsonDoc::Str(text@)),
                        ("time"@, JsonDoc::Str(now@)),
                        ("room"@, JsonDoc::Str(self.room_name@)),
                    ]);
                }
            },
            _ => {
                json_insert(&mut object, "sender", json_from_str(self.user_id.as_str()));
                proof { lemma_insert_new_member(f0, "sender"@, JsonDoc::Str(self.user_id@)); }
                let ghost f1 = f0.push(("sender"@, JsonDoc::Str(self.user_id@)));
                json_insert(&mut object, "text", json_from_str(""));
                proof { lemma_insert_new_member(f1, "text"@, JsonDoc::Str(""@)); }
                let ghost f2 = f1.push(("text"@, JsonDoc::Str(""@)));
                json_insert(&mut object, "time", json_from_str(now.as_str()));
                proof { lemma_insert_new_member(f2, "time"@, JsonDoc::Str(now@)); }
                let ghost f3 = f2.push(("time"@, JsonDoc::Str(now@)));
                json_insert(&mut object, "room", json_from_str(""));
                proof {
                    lemma_insert_new_member(f3, "room"@, JsonDoc::Str(""@));
                    assert(f3.push(("room"@, JsonDoc::Str(""@))) =~= seq![
                        ("sender"@, JsonDoc::Str(self.user_id@)),
                        ("text"@, JsonDoc::Str(""@)),
                        ("time"@, JsonDoc::Str(now@)),
                        ("room"@, JsonDoc::Str(""@)),
                    ]);
                }
            },
        }
        Ok(json_dump(&object))
    }

    /// Reads the message that user `user_id` sent as one line of JSON.
    pub fn from_str(user_id: String, json_text: &str) -> (r: Result<Message, ()>)
        ensures
            r matches Ok(m) ==> message_from_json(user_id@, json_text@) == Some(m@),
            r is Err ==> message_from_json(user_id@, json_text@) is None,
    {
        if parse_would_overflow(json_text) {
            return Err(());
        }
        match json_parse(json_text) {
            Some(value) => Message::from_json_value(user_id, &value),
            None => Err(()),
        }
    }

    /// Reads the message that user `user_id` sent, from its JSON value.
    pub fn from_json_value(user_id: String, value: &json::JsonValue) -> (r: Result<Message, ()>)
        ensures
            r matches Ok(m) ==> message_from_doc(user_id@, json_doc(*value)) == Some(m@),
            r is Err ==> message_from_doc(user_id@, json_doc(*value)) is None,
    {
        let kind = match json_as_str(json_index(value, "type")) {
            Some(s) => s,
            None => {
                return Err(());
            },
        };
        let room = match json_as_str(json_index(value, "room")) {
            Some(s) => s,
            None => {
                return Err(());
            },
        };
        let text = match json_as_str(json_index(value, "value")) {
            Some(s) => s,
            None => {
                return Err(());
            },
        };
        let body = if text_is(&kind, "TEXT") {
            MessageBody::PlainText { text }
        } else if text_is(&kind, "IMG") {
            MessageBody::Image { bytes: Vec::new() }
        } else if text_is(&kind, "FILE") {
            MessageBody::File { bytes: Vec::new() }
        } else if text_is(&kind, "EXIT") {
            MessageBody::ExitServer
        } else {
            return Err(());
        };
        proof {
            assert(body@ matches BodyView::Image(b) ==> b =~= seq![]);
            assert(body@ matches BodyView::File(b) ==> b =~= seq![]);
        }
        Ok(Message::new(user_id, room, body))
    }
}

/// A message is read from a JSON value exactly where its members "type",
/// "room" and "value" are strings and its type is TEXT, IMG, FILE or EXIT.
/// Whatever the type, the message's room is the member "room" and its
/// sender the user it came from; a TEXT message carries "value" as its text.
pub proof fn law_message_room_is_room_member(user_id: Seq<char>, doc: JsonDoc)
    ensures
        message_from_doc(user_id, doc) is Some <==> {
            &&& text_member(doc, "type"@) is Some
            &&& text_member(doc, "room"@) is Some
            &&& text_member(doc, "value"@) is Some
            &&& {
                let kind = text_member(doc, "type"@)->0;
                kind == "TEXT"@ || kind == "IMG"@ || kind == "FILE"@ || kind == "EXIT"@
            }
        },
        message_from_doc(user_id, doc) matches Some(mv) ==> {
            &&& mv.room_name == text_member(doc, "room"@)->0
            &&& mv.user_id == user_id
            &&& text_member(doc, "type"@)->0 == "TEXT"@ ==> mv.body == BodyView::PlainText(text_member(doc, "value"@)->0)
        },
{
}

/// A message read from a line of JSON takes its room from the member "room"
/// of the value the line parses to, whatever the message's type.
pub proof fn law_line_room_is_room_member(user_id: Seq<char>, text: Seq<char>)
    ensures
        message_from_json(user_id, text) matches Some(mv) ==> {
            &&& json_parsed(text) is Some
            &&& text_member(json_parsed(text)->0, "room"@) == Some(mv.room_name)
            &&& mv.user_id == user_id
        },
{
    if let Some(doc) = json_parsed(text) {
        law_message_room_is_room_member(user_id, doc);
    }
}

} // verus!
