//! The application-level message that travels inside an encrypted envelope.
use vstd::prelude::*;
use crate::status::{Code, Status};

verus! {

/// Who sent an application message.
#[derive(Clone, Debug)]
pub struct Sender {
    pub username: Option<String>,
}

/// The kinds of content an application message can carry.
#[derive(Clone, Debug)]
pub enum ContentType {
    Text(String),
    Image(Vec<u8>),
}

/// The content of an application message.
#[derive(Clone, Debug)]
pub struct Contents {
    pub content_type: Option<ContentType>,
}

/// An application message on the wire.
#[derive(Clone, Debug)]
pub struct Message {
    pub sender: Option<Sender>,
    pub contents: Option<Contents>,
}

/// A text message with the sender's claimed username.
#[derive(Clone, Debug)]
pub struct ApplicationMessage {
    pub claimed_sender: String,
    pub text: String,
}

/// The claimed sender of a wire message, if it names one.
pub open spec fn claimed_sender(m: Message) -> Option<Seq<char>> {
    match m.sender {
        Some(s) => match s.username {
            Some(u) => Some(u@),
            None => None,
        },
        None => None,
    }
}

/// The content of a wire message, if it has one.
pub open spec fn content_of(m: Message) -> Option<ContentType> {
    match m.contents {
        Some(c) => c.content_type,
        None => None,
    }
}

/// The text of a wire message, if its content is text.
pub open spec fn text_of(m: Message) -> Option<Seq<char>> {
    match content_of(m) {
        Some(ContentType::Text(t)) => Some(t@),
        _ => None,
    }
}

impl ApplicationMessage {
    /// Reads a text message. A message without a sender or without content is
    /// an invalid argument; content other than text is not supported yet.
    pub fn try_from_proto(value: Message) -> (res: Result<ApplicationMessage, Status>)
        ensures
            claimed_sender(value) is None ==> (res matches Err(s) && s.code == Code::InvalidArgument
                && s.message@ == "ApplicationMessage missing sender."@),
            claimed_sender(value) is Some && content_of(value) is None ==> (res matches Err(s) && s.code
                == Code::InvalidArgument && s.message@ == "ApplicationMessage missing contents."@),
            claimed_sender(value) is Some && content_of(value) is Some && text_of(value) is None ==> (res matches Err(s)
                && s.code == Code::Unimplemented && s.message@ == "Only text is supported."@),
            res matches Ok(m) ==> Some(m.claimed_sender@) == claimed_sender(value) && text_of(value) == Some(m.text@),
            claimed_sender(value) is Some && text_of(value) is Some ==> res is Ok,
    {
        let sender = match value.sender {
            Some(s) => match s.username {
                Some(u) => u,
                None => return Err(Status::new(Code::InvalidArgument, "ApplicationMessage missing sender.")),
            },
            None => return Err(Status::new(Code::InvalidArgument, "ApplicationMessage missing sender.")),
        };
        let contents = match value.contents {
            Some(c) => match c.content_type {
                Some(t) => t,
                None => return Err(Status::new(Code::InvalidArgument, "ApplicationMessage missing contents.")),
            },
            None => return Err(Status::new(Code::InvalidArgument, "ApplicationMessage missing contents.")),
        };
        match contents {
            ContentType::Text(text) => Ok(ApplicationMessage { claimed_sender: sender, text }),
            _ => Err(Status::new(Code::Unimplemented, "Only text is supported.")),
        }
    }

    /// The wire form of a text message.
    pub fn into_proto(self) -> (res: Message)
        ensures
            claimed_sender(res) == Some(self.claimed_sender@),
            text_of(res) == Some(self.text@),
    {
        Message {
            sender: Some(Sender { username: Some(self.claimed_sender) }),
            contents: Some(Contents { content_type: Some(ContentType::Text(self.text)) }),
        }
    }
}

} // verus!
