//! The data the client application shows and persists: message states, message
//! models, decrypted messages, and the signals exchanged with the user interface.
use vstd::prelude::*;

verus! {

/// Where a message is in its life cycle. Stored as its index.
#[derive(Debug, PartialEq, Eq, Structural, Clone, Copy)]
pub enum MessageState {
    Sending,
    Sent,
    Delivered,
    Read,
}

/// The stored index of a state.
pub open spec fn state_index(state: MessageState) -> u8 {
    match state {
        MessageState::Sending => 0,
        MessageState::Sent => 1,
        MessageState::Delivered => 2,
        MessageState::Read => 3,
    }
}

/// The display name of a state.
pub open spec fn state_name(state: MessageState) -> Seq<char> {
    match state {
        MessageState::Sending => "Sending"@,
        MessageState::Sent => "Sent"@,
        MessageState::Delivered => "Delivered"@,
        MessageState::Read => "Read"@,
    }
}

impl MessageState {
    /// The state stored as `repr`, if any.
    pub fn from_repr(repr: u8) -> (res: Option<MessageState>)
        ensures
            res is Some <==> repr < 4,
            res matches Some(s) ==> state_index(s) == repr,
    {
        if repr == 0 {
            Some(MessageState::Sending)
        } else if repr == 1 {
            Some(MessageState::Sent)
        } else if repr == 2 {
            Some(MessageState::Delivered)
        } else if repr == 3 {
            Some(MessageState::Read)
        } else {
            None
        }
    }

    /// The stored index of this state.
    pub fn to_repr(&self) -> (res: u8)
        ensures
            res == state_index(*self),
    {
        match self {
            MessageState::Sending => 0,
            MessageState::Sent => 1,
            MessageState::Delivered => 2,
            MessageState::Read => 3,
        }
    }

    /// The display name of this state.
    pub fn name(&self) -> (res: &'static str)
        ensures
            res@ == state_name(*self),
    {
        match self {
            MessageState::Sending => "Sending",
            MessageState::Sent => "Sent",
            MessageState::Delivered => "Delivered",
            MessageState::Read => "Read",
        }
    }
}

/// A message as the application shows it.
#[derive(Clone, Debug)]
pub struct MessageModel {
    pub sender: String,
    pub receiver: String,
    pub db_recv_time: i64,
    pub state: MessageState,
    pub text: String,
}

/// The text of a message for a reader: who sent it to whom, when (as the
/// text `time`), in which state, and then the message itself.
pub open spec fn model_text(m: MessageModel, time: Seq<char>) -> Seq<char> {
    "From: "@ + m.sender@ + " To: "@ + m.receiver@ + " at "@ + time + " with "@ + state_name(m.state) + "\n"@ + m.text@
}

impl MessageModel {
    /// The text of this message, given the text of its time.
    pub fn display_at(&self, time: &str) -> (res: String)
        ensures
            res@ == model_text(*self, time@),
    {
        let mut out = "From: ".to_owned();
        out.append(self.sender.as_str());
        out.append(" To: ");
        out.append(self.receiver.as_str());
        out.append(" at ");
        out.append(time);
        out.append(" with ");
        out.append(self.state.name());
        out.append("\n");
        out.append(self.text.as_str());
        out
    }

    /// The text of this message, its time written in UTC; `None` when the
    /// time is beyond what can be written as a date.
    pub fn to_string(&self) -> (res: Option<String>)
        ensures
            match crate::crypto::utc_timestamp_text(self.db_recv_time as int) {
                Some(t) => res matches Some(s) && s@ == model_text(*self, t),
                None => res is None,
            },
    {
        match crate::crypto::utc_timestamp_to_string(self.db_recv_time) {
            Some(time) => Some(self.display_at(time.as_str())),
            None => None,
        }
    }
}

/// The message history.
#[derive(Clone, Debug)]
pub struct MessagesModel {
    pub messages: Vec<MessageModel>,
}

/// A message after decryption, with the identity its sender claims.
#[derive(Clone, Debug)]
pub struct DecryptedMessage {
    pub sender_identity: String,
    pub message: Vec<u8>,
}

/// Why a call from the user interface failed.
#[derive(Clone, Debug)]
pub enum BridgeError {
    RegistrationFailed(String),
    InitializationFailed(String),
    MessageSendFailed(String),
}

/// The first signal from the user interface: where to keep the database and,
/// when known, the user's name, push token and a message that woke the app.
#[derive(Clone, Debug)]
pub struct RustStartup {
    pub database_directory: String,
    pub username: Option<String>,
    pub fcm_token: Option<String>,
    pub background_message: Option<Vec<u8>>,
}

/// The user interface asks to register a username.
#[derive(Clone, Debug)]
pub struct RegisterUserRequest {
    pub username: String,
}

/// A username was registered.
#[derive(Clone, Debug)]
pub struct RegisterUserResponse {
    pub username: String,
}

/// The user interface asks to send a message.
#[derive(Clone, Debug)]
pub struct SendMessage {
    pub sender: String,
    pub recipient: String,
    pub message: String,
}

/// A message arrived for the user interface.
#[derive(Clone, Debug)]
pub struct ReceivedMessage {
    pub message: String,
    pub sender: String,
}

} // verus!
