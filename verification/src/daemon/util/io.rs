//! Answers to clients.
use vstd::prelude::*;

use crate::shared::{DaemonResponse, ExitStatus};
use crate::text::texts;

verus! {

/// One message of an answer.
#[derive(Debug)]
pub struct SocketMessage {
    pub message: String,
    pub is_error: bool,
}

/// A message as the pair of its characters and whether it reports an error.
pub type Note = (Seq<char>, bool);

/// The messages for a client, gathered until all of them are sent at once.
#[derive(Debug)]
pub struct SocketMessageHolder {
    /// The messages, in the order in which they were queued.
    pub messages: Vec<SocketMessage>,
    /// The number under which the client's connection is kept.
    pub socket: u64,
}

/// An answer and the connection that it goes to.
#[derive(Debug)]
pub struct Reply {
    pub socket: u64,
    pub response: DaemonResponse,
}

/// The messages of a list as pairs.
pub open spec fn notes(messages: Seq<SocketMessage>) -> Seq<Note> {
    Seq::new(messages.len(), |i: int| (messages[i].message@, messages[i].is_error))
}

/// Whether one of the messages reports an error.
pub open spec fn any_error(list: Seq<Note>) -> bool {
    exists|i: int| 0 <= i < list.len() && (#[trigger] list[i]).1
}

impl Reply {
    /// Whether this is the answer that the messages make up: a failure if one of
    /// them reports an error, a success otherwise, with all of them in order.
    pub open spec fn tells(self, socket: u64, list: Seq<Note>) -> bool {
        &&& self.socket == socket
        &&& self.response.exit_status == (if any_error(list) {
            ExitStatus::Failure
        } else {
            ExitStatus::Success
        })
        &&& texts(self.response.messages@) == Seq::new(list.len(), |i: int| list[i].0)
    }
}

impl SocketMessageHolder {
    /// The messages queued so far.
    pub open spec fn queued(self) -> Seq<Note> {
        notes(self.messages@)
    }

    /// Nothing queued yet for a connection.
    pub fn new(socket: u64) -> (holder: SocketMessageHolder)
        ensures
            holder.socket == socket,
            holder.queued() == Seq::<Note>::empty(),
    {
        let holder = SocketMessageHolder { messages: Vec::new(), socket };
        assert(holder.queued() =~= Seq::<Note>::empty());
        holder
    }

    /// Adds a message behind those queued before.
    pub fn queue_message(&mut self, message: String, is_error: bool)
        ensures
            final(self).socket == old(self).socket,
            final(self).queued() == old(self).queued().push((message@, is_error)),
    {
        self.messages.push(SocketMessage { message, is_error });
        assert(self.queued() =~= old(self).queued().push((message@, is_error)));
    }

    /// Adds a message that reports a success.
    pub fn queue_success(&mut self, message: String)
        ensures
            final(self).socket == old(self).socket,
            final(self).queued() == old(self).queued().push((message@, false)),
    {
        self.queue_message(message, false)
    }

    /// Adds a message that reports an error.
    pub fn queue_error(&mut self, message: String)
        ensures
            final(self).socket == old(self).socket,
            final(self).queued() == old(self).queued().push((message@, true)),
    {
        self.queue_message(message, true)
    }

    /// Makes the answer out of all messages.
    pub fn consume(self) -> (reply: Reply)
        ensures
            reply.tells(self.socket, self.queued()),
    {
        let ghost list = self.queued();
        let socket: u64 = self.socket;
        let mut gathered: Vec<SocketMessage> = self.messages;
        let ghost all = gathered@;
        let mut messages: Vec<String> = Vec::new();
        let mut failed: bool = false;
        let mut i: usize = 0;
        while i < gathered.len()
            invariant
                0 <= i <= gathered@.len(),
                gathered@.len() == all.len(),
                list == notes(all),
                messages@.len() == i,
                forall|k: int| i <= k < all.len() ==> gathered@[k] == all[k],
                forall|k: int| 0 <= k < i ==> #[trigger] messages@[k]@ == list[k].0,
                failed <==> exists|k: int| 0 <= k < i && (#[trigger] list[k]).1,
            decreases gathered@.len() - i,
        {
            assert(list[i as int] == (all[i as int].message@, all[i as int].is_error));
            if gathered[i].is_error {
                failed = true;
            }
            let mut message: String = String::new();
            std::mem::swap(&mut message, &mut gathered[i].message);
            messages.push(message);
            i += 1;
        }
        let exit_status: ExitStatus = if failed {
            ExitStatus::Failure
        } else {
            ExitStatus::Success
        };
        let reply = Reply { socket, response: DaemonResponse { exit_status, messages } };
        assert(texts(reply.response.messages@) =~= Seq::new(list.len(), |k: int| list[k].0));
        reply
    }
}

/// An answer fails exactly when one of the messages reports an error.
pub proof fn law_failure_reported(reply: Reply, socket: u64, list: Seq<Note>)
    requires
        reply.tells(socket, list),
    ensures
        reply.response.exit_status == ExitStatus::Failure <==> any_error(list),
        reply.response.messages@.len() == list.len(),
{
    assert(texts(reply.response.messages@).len() == list.len());
}

/// An answer goes to the client it is meant for, holds the messages in the order in
/// which they were queued, and is a failure exactly if one of them reports an error, and
/// a success exactly if none does.
pub proof fn law_answers_say_what_was_queued(reply: Reply, socket: u64, told: Seq<Note>)
    requires
        reply.tells(socket, told),
    ensures
        reply.socket == socket,
        reply.response.messages@.len() == told.len(),
        forall|k: int|
            0 <= k < told.len() ==> (#[trigger] reply.response.messages@[k])@ == told[k].0,
        (exists|k: int| 0 <= k < told.len() && (#[trigger] told[k]).1)
            <==> reply.response.exit_status == ExitStatus::Failure,
        (forall|k: int| 0 <= k < told.len() ==> !(#[trigger] told[k]).1)
            <==> reply.response.exit_status == ExitStatus::Success,
{
    let given = texts(reply.response.messages@);
    assert(given.len() == told.len());
    assert forall|k: int| 0 <= k < told.len() implies (
    #[trigger] reply.response.messages@[k])@ == told[k].0 by {
        assert(given[k] == told[k].0);
    }
}

/// What is queued is what the messages hold, one for one.
pub proof fn law_queue_holds_the_messages(holder: SocketMessageHolder, k: int)
    requires
        0 <= k < holder.messages@.len(),
    ensures
        holder.queued().len() == holder.messages@.len(),
        holder.queued()[k].0 == holder.messages@[k].message@,
        holder.queued()[k].1 == holder.messages@[k].is_error,
{
}

} // verus!
