//! A client's message history: the users it has talked with and every message
//! sent or received, each with its sender, receiver, time, state and text.
//!
//! A message is known by its id, its position in the history counted from
//! one. Every message's sender and receiver are known users: recording a sent
//! message registers both; a received message needs both registered first.
use vstd::prelude::*;
use crate::messages::{MessageModel, MessageState, MessagesModel};
use crate::proto::application::ApplicationMessage;

verus! {

/// A stored message by value: sender, receiver, time, state, text.
pub type RowView = (Seq<char>, Seq<char>, i64, MessageState, Seq<char>);

/// The value of a message model.
pub open spec fn model_view(m: MessageModel) -> RowView {
    (m.sender@, m.receiver@, m.db_recv_time, m.state, m.text@)
}

/// Why the history refused a request.
#[derive(Debug, PartialEq, Eq, Structural, Clone, Copy)]
pub enum HistoryError {
    /// No message has the id.
    NoSuchMessage,
    /// The sender or the receiver is not a known user.
    UnknownUser,
}

/// Copies a string.
fn copy_string(s: &String) -> (res: String)
    ensures
        res@ == s@,
{
    s.clone()
}

/// Copies a message model.
fn copy_model(m: &MessageModel) -> (res: MessageModel)
    ensures
        model_view(res) == model_view(*m),
{
    MessageModel {
        sender: copy_string(&m.sender),
        receiver: copy_string(&m.receiver),
        db_recv_time: m.db_recv_time,
        state: m.state,
        text: copy_string(&m.text),
    }
}

/// The message history.
pub struct MessageHistory {
    users: Vec<String>,
    messages: Vec<MessageModel>,
}

impl MessageHistory {
    /// The known users.
    pub closed spec fn users(&self) -> Set<Seq<char>> {
        Set::new(|u: Seq<char>| exists|i: int| 0 <= i < self.users@.len() && (#[trigger] self.users@[i])@ == u)
    }

    /// The messages, in the order they were recorded.
    pub closed spec fn rows(&self) -> Seq<RowView> {
        self.messages@.map_values(|m: MessageModel| model_view(m))
    }

    /// Every message's sender and receiver are known users.
    pub closed spec fn wf(&self) -> bool {
        forall|i: int|
            0 <= i < self.rows().len() ==> self.users().contains(#[trigger] self.rows()[i].0) && self.users().contains(
                self.rows()[i].1,
            )
    }

    /// An empty history.
    pub fn new() -> (res: MessageHistory)
        ensures
            res.wf(),
            res.users() == Set::<Seq<char>>::empty(),
            res.rows() == Seq::<RowView>::empty(),
    {
        let res = MessageHistory { users: Vec::new(), messages: Vec::new() };
        assert(res.users() =~= Set::<Seq<char>>::empty());
        assert(res.rows() =~= Seq::<RowView>::empty());
        res
    }

    /// Whether `username` is a known user.
    pub fn has_user(&self, username: &String) -> (res: bool)
        ensures
            res == self.users().contains(username@),
    {
        let n = self.users.len();
        let mut i: usize = 0;
        while i < n
            invariant
                n == self.users@.len(),
                i <= n,
                forall|j: int| 0 <= j < i ==> (#[trigger] self.users@[j])@ != username@,
            decreases n - i,
        {
            if self.users[i] == *username {
                return true;
            }
            i = i + 1;
        }
        false
    }

    /// Makes `username` a known user (it may be already).
    pub fn add_user(&mut self, username: &String)
        requires
            old(self).wf(),
        ensures
            final(self).wf(),
            final(self).users() == old(self).users().insert(username@),
            final(self).rows() == old(self).rows(),
    {
        if !self.has_user(username) {
            let ghost before = self.users@;
            self.users.push(copy_string(username));
            proof {
                assert forall|u: Seq<char>| self.users().contains(u) == old(self).users().insert(username@).contains(u) by {
                    if old(self).users().contains(u) {
                        let i = choose|i: int| 0 <= i < before.len() && (#[trigger] before[i])@ == u;
                        assert(self.users@[i] == before[i]);
                    }
                    if self.users().contains(u) {
                        let i = choose|i: int| 0 <= i < self.users@.len() && (#[trigger] self.users@[i])@ == u;
                        if i < before.len() {
                            assert(self.users@[i] == before[i]);
                        }
                    }
                    if u == username@ {
                        assert(self.users@[before.len() as int]@ == u);
                    }
                }
                assert(self.users() =~= old(self).users().insert(username@));
            }
        } else {
            assert(self.users() =~= old(self).users().insert(username@));
        }
        assert forall|i: int| 0 <= i < self.rows().len() implies self.users().contains(#[trigger] self.rows()[i].0)
            && self.users().contains(self.rows()[i].1) by {
            assert(old(self).users().contains(old(self).rows()[i].0));
            assert(old(self).users().contains(old(self).rows()[i].1));
        }
    }

    /// Appends a message whose sender and receiver are known; answers its id.
    fn push_message(&mut self, message: MessageModel) -> (id: usize)
        requires
            old(self).wf(),
            old(self).users().contains(message.sender@),
            old(self).users().contains(message.receiver@),
        ensures
            final(self).wf(),
            final(self).users() == old(self).users(),
            final(self).rows() == old(self).rows().push(model_view(message)),
            id == final(self).rows().len(),
    {
        let ghost before = self.rows();
        self.messages.push(message);
        assert(self.rows() =~= before.push(model_view(message)));
        self.messages.len()
    }

    /// Records a message this client sends (or is sending): registers both
    /// users and appends the message. Answers its id.
    pub fn persist_message(&mut self, sender: String, receiver: String, message: String, state: MessageState, now: i64) -> (id: usize)
        requires
            old(self).wf(),
        ensures
            final(self).wf(),
            final(self).users() == old(self).users().insert(sender@).insert(receiver@),
            final(self).rows() == old(self).rows().push((sender@, receiver@, now, state, message@)),
            id == final(self).rows().len(),
    {
        self.add_user(&sender);
        self.add_user(&receiver);
        self.push_message(MessageModel { sender, receiver, db_recv_time: now, state, text: message })
    }

    /// Records a message this client received, as delivered. Its sender and
    /// this client's user must be known already.
    pub fn set_received(&mut self, our_username: String, message: ApplicationMessage, now: i64) -> (res: Result<
        usize,
        HistoryError,
    >)
        requires
            old(self).wf(),
        ensures
            final(self).wf(),
            final(self).users() == old(self).users(),
            res is Ok <==> old(self).users().contains(message.claimed_sender@) && old(self).users().contains(
                our_username@,
            ),
            res is Ok ==> final(self).rows() == old(self).rows().push(
                (message.claimed_sender@, our_username@, now, MessageState::Delivered, message.text@),
            ),
            res matches Ok(id) ==> id == final(self).rows().len(),
            res is Err ==> res == Err::<usize, HistoryError>(HistoryError::UnknownUser) && final(self).rows() == old(
                self,
            ).rows(),
    {
        if !self.has_user(&message.claimed_sender) || !self.has_user(&our_username) {
            return Err(HistoryError::UnknownUser);
        }
        Ok(self.push_message(
            MessageModel {
                sender: message.claimed_sender,
                receiver: our_username,
                db_recv_time: now,
                state: MessageState::Delivered,
                text: message.text,
            },
        ))
    }

    /// Changes the state of the message with id `id`.
    pub fn persist_message_state(&mut self, id: usize, state: MessageState) -> (res: Result<(), HistoryError>)
        requires
            old(self).wf(),
        ensures
            final(self).wf(),
            final(self).users() == old(self).users(),
            res is Ok <==> 1 <= id <= old(self).rows().len(),
            res is Ok ==> final(self).rows() == old(self).rows().update(
                id - 1,
                (old(self).rows()[id - 1].0, old(self).rows()[id - 1].1, old(self).rows()[id - 1].2, state, old(
                    self,
                ).rows()[id - 1].4),
            ),
            res is Err ==> res == Err::<(), HistoryError>(HistoryError::NoSuchMessage) && final(self).rows() == old(
                self,
            ).rows(),
    {
        if id == 0 || id > self.messages.len() {
            return Err(HistoryError::NoSuchMessage);
        }
        let ghost before = self.rows();
        let old_model = copy_model(&self.messages[id - 1]);
        let updated = MessageModel {
            sender: old_model.sender,
            receiver: old_model.receiver,
            db_recv_time: old_model.db_recv_time,
            state,
            text: old_model.text,
        };
        self.messages.set(id - 1, updated);
        proof {
            assert(self.rows() =~= before.update(
                id - 1,
                (before[id - 1].0, before[id - 1].1, before[id - 1].2, state, before[id - 1].4),
            ));
            assert forall|i: int| 0 <= i < self.rows().len() implies self.users().contains(
                #[trigger] self.rows()[i].0,
            ) && self.users().contains(self.rows()[i].1) by {
                assert(before[i].0 == self.rows()[i].0 && before[i].1 == self.rows()[i].1);
            }
        }
        Ok(())
    }

    /// The message with id `id`.
    pub fn get_message(&self, id: usize) -> (res: Result<MessageModel, HistoryError>)
        ensures
            res is Ok <==> 1 <= id <= self.rows().len(),
            res matches Ok(m) ==> model_view(m) == self.rows()[id - 1],
            res is Err ==> res == Err::<MessageModel, HistoryError>(HistoryError::NoSuchMessage),
    {
        if id == 0 || id > self.messages.len() {
            return Err(HistoryError::NoSuchMessage);
        }
        Ok(copy_model(&self.messages[id - 1]))
    }

    /// Every message, in the order they were recorded.
    pub fn get_messages(&self) -> (res: MessagesModel)
        ensures
            res.messages@.map_values(|m: MessageModel| model_view(m)) == self.rows(),
    {
        let n = self.messages.len();
        let mut out: Vec<MessageModel> = Vec::new();
        let mut i: usize = 0;
        while i < n
            invariant
                n == self.messages@.len(),
                i <= n,
                out@.len() == i,
                forall|j: int| 0 <= j < i ==> model_view(#[trigger] out@[j]) == model_view(self.messages@[j]),
            decreases n - i,
        {
            out.push(copy_model(&self.messages[i]));
            i = i + 1;
        }
        assert(out@.map_values(|m: MessageModel| model_view(m)) =~= self.rows());
        MessagesModel { messages: out }
    }
}

} // verus!
