//! The connection that tells a client of the jobs.

use vstd::prelude::*;

verus! {

/// What a client sends.
#[derive(Clone, Copy, Debug, PartialEq, Eq, Structural)]
pub enum Incoming {
    /// A message.
    Message,
    /// The wish to close the connection.
    Close,
    /// Nothing any more: the connection is gone or broken.
    Gone,
}

/// What has happened to a connection.
pub enum SocketEvent {
    /// What was to be sent was sent, or could not be.
    Sent(bool),
    /// There is news for the client; none, where the news are lost or over.
    News(Option<String>),
    /// The client sent something.
    Received(Incoming),
}

/// What is to be done next.
pub enum SocketAction<'a> {
    /// Send all the jobs.
    SendSnapshot,
    /// Wait for news, and for the client.
    Listen,
    /// Send a text.
    Send(&'a str),
    /// Stop.
    Stop,
}

enum SocketPhase {
    Greet,
    Listen,
    Forward(String),
    Closed,
}

#[verifier::ext_equal]
pub enum SocketView {
    Greet,
    Listen,
    Forward(Seq<char>),
    Closed,
}

impl SocketView {
    /// The connection after `event`. An event that does not answer the
    /// connection's action leaves the connection as it is.
    pub open spec fn after(self, event: SocketEvent) -> SocketView {
        match (self, event) {
            (SocketView::Greet, SocketEvent::Sent(ok)) => if ok {
                SocketView::Listen
            } else {
                SocketView::Closed
            },
            (SocketView::Listen, SocketEvent::News(Some(text))) => SocketView::Forward(text@),
            (SocketView::Listen, SocketEvent::News(None)) => SocketView::Closed,
            (SocketView::Listen, SocketEvent::Received(incoming)) => if incoming
                == Incoming::Message {
                SocketView::Listen
            } else {
                SocketView::Closed
            },
            (SocketView::Forward(_), SocketEvent::Sent(ok)) => if ok {
                SocketView::Listen
            } else {
                SocketView::Closed
            },
            _ => self,
        }
    }
}

/// A connection.
pub struct Socket {
    phase: SocketPhase,
}

impl View for Socket {
    type V = SocketView;

    closed spec fn view(&self) -> SocketView {
        match self.phase {
            SocketPhase::Greet => SocketView::Greet,
            SocketPhase::Listen => SocketView::Listen,
            SocketPhase::Forward(text) => SocketView::Forward(text@),
            SocketPhase::Closed => SocketView::Closed,
        }
    }
}

/// `action` is what the connection asks for.
pub open spec fn asks(socket: SocketView, action: SocketAction) -> bool {
    match (socket, action) {
        (SocketView::Greet, SocketAction::SendSnapshot) => true,
        (SocketView::Listen, SocketAction::Listen) => true,
        (SocketView::Forward(text), SocketAction::Send(t)) => t@ == text,
        (SocketView::Closed, SocketAction::Stop) => true,
        _ => false,
    }
}

impl Socket {
    /// A connection that was just made.
    pub fn new() -> (r: Socket)
        ensures
            r@ == SocketView::Greet,
    {
        Socket { phase: SocketPhase::Greet }
    }

    /// What is to be done next.
    pub fn action(&self) -> (r: SocketAction<'_>)
        ensures
            asks(self@, r),
    {
        match &self.phase {
            SocketPhase::Greet => SocketAction::SendSnapshot,
            SocketPhase::Listen => SocketAction::Listen,
            SocketPhase::Forward(text) => SocketAction::Send(text.as_str()),
            SocketPhase::Closed => SocketAction::Stop,
        }
    }

    /// Takes in `event`.
    pub fn step(&mut self, event: SocketEvent)
        ensures
            final(self)@ == old(self)@.after(event),
    {
        let mut phase = SocketPhase::Closed;
        std::mem::swap(&mut phase, &mut self.phase);
        self.phase = match (phase, event) {
            (SocketPhase::Greet, SocketEvent::Sent(ok)) => if ok {
                SocketPhase::Listen
            } else {
                SocketPhase::Closed
            },
            (SocketPhase::Listen, SocketEvent::News(news)) => match news {
                Some(text) => SocketPhase::Forward(text),
                None => SocketPhase::Closed,
            },
            (SocketPhase::Listen, SocketEvent::Received(incoming)) => match incoming {
                Incoming::Message => SocketPhase::Listen,
                Incoming::Close => SocketPhase::Closed,
                Incoming::Gone => SocketPhase::Closed,
            },
            (SocketPhase::Forward(text), SocketEvent::Sent(ok)) => if ok {
                SocketPhase::Listen
            } else {
                SocketPhase::Closed
            },
            (phase, _) => phase,
        };
    }
}

/// The connection after `events`, one after the other.
pub open spec fn replay(events: Seq<SocketEvent>) -> SocketView
    decreases events.len(),
{
    if events.len() == 0 {
        SocketView::Greet
    } else {
        replay(events.drop_last()).after(events.last())
    }
}

/// The news that the connection took in.
pub open spec fn taken(events: Seq<SocketEvent>) -> Seq<Seq<char>>
    decreases events.len(),
{
    if events.len() == 0 {
        Seq::empty()
    } else {
        let before = taken(events.drop_last());
        match (replay(events.drop_last()), events.last()) {
            (SocketView::Listen, SocketEvent::News(Some(text))) => before.push(text@),
            _ => before,
        }
    }
}

/// The texts that were sent to the client after the jobs.
pub open spec fn sent(events: Seq<SocketEvent>) -> Seq<Seq<char>>
    decreases events.len(),
{
    if events.len() == 0 {
        Seq::empty()
    } else {
        let before = sent(events.drop_last());
        match (replay(events.drop_last()), events.last()) {
            (SocketView::Forward(text), SocketEvent::Sent(true)) => before.push(text),
            _ => before,
        }
    }
}

/// All the news are sent to the client, in the order in which they came: while
/// the connection listens nothing is owed, and otherwise one text at most.
pub proof fn law_news_are_sent_in_order(events: Seq<SocketEvent>)
    ensures
        sent(events).is_prefix_of(taken(events)),
        taken(events).len() <= sent(events).len() + 1,
        replay(events) == SocketView::Listen ==> sent(events) == taken(events),
        replay(events) matches SocketView::Forward(text) ==> taken(events) == sent(events).push(
            text,
        ),
    decreases events.len(),
{
    if events.len() > 0 {
        let before = events.drop_last();
        law_news_are_sent_in_order(before);
        match (replay(before), events.last()) {
            (SocketView::Forward(text), SocketEvent::Sent(true)) => {
                assert(sent(events) =~= taken(events));
            },
            _ => {},
        }
        lemma_not_opened_twice(before);
    } else {
        assert(sent(events) =~= taken(events));
    }
}

/// Nothing is taken in or sent before the jobs were sent.
proof fn lemma_not_opened_twice(events: Seq<SocketEvent>)
    ensures
        replay(events) == SocketView::Greet ==> taken(events) == Seq::<Seq<char>>::empty()
            && sent(events) == Seq::<Seq<char>>::empty(),
    decreases events.len(),
{
    if events.len() > 0 {
        lemma_not_opened_twice(events.drop_last());
    }
}

/// A connection that is closed stays closed.
pub proof fn law_closed_stays_closed(event: SocketEvent)
    ensures
        SocketView::Closed.after(event) == SocketView::Closed,
{
}

/// What a connection does after each answer. It greets the client with the
/// jobs, then sends on all news, and takes no notice of the client's messages. It
/// ends where something cannot be sent, where the news are lost or over, and
/// where the client closes or is gone. What is no answer changes nothing.
pub proof fn law_course_of_a_connection(socket: SocketView, text: String)
    ensures
        match socket {
            SocketView::Greet => {
                &&& socket.after(SocketEvent::Sent(true)) == SocketView::Listen
                &&& socket.after(SocketEvent::Sent(false)) == SocketView::Closed
                &&& socket.after(SocketEvent::News(Some(text))) == socket
                &&& socket.after(SocketEvent::Received(Incoming::Close)) == socket
            },
            SocketView::Listen => {
                &&& socket.after(SocketEvent::News(Some(text))) == SocketView::Forward(text@)
                &&& socket.after(SocketEvent::News(None)) == SocketView::Closed
                &&& socket.after(SocketEvent::Received(Incoming::Message)) == SocketView::Listen
                &&& socket.after(SocketEvent::Received(Incoming::Close)) == SocketView::Closed
                &&& socket.after(SocketEvent::Received(Incoming::Gone)) == SocketView::Closed
            },
            SocketView::Forward(_) => {
                &&& socket.after(SocketEvent::Sent(true)) == SocketView::Listen
                &&& socket.after(SocketEvent::Sent(false)) == SocketView::Closed
                &&& socket.after(SocketEvent::News(Some(text))) == socket
            },
            SocketView::Closed => true,
        },
{
}

/// What a connection asks for next tells all that is to be done.
pub proof fn law_action_fits(socket: SocketView, action: SocketAction)
    requires
        asks(socket, action),
    ensures
        match socket {
            SocketView::Greet => action is SendSnapshot,
            SocketView::Listen => action is Listen,
            SocketView::Forward(text) => action matches SocketAction::Send(t) && t@ == text,
            SocketView::Closed => action is Stop,
        },
{
}

/// An event that may end a connection.
pub open spec fn may_end(event: SocketEvent) -> bool {
    match event {
        SocketEvent::Sent(ok) => !ok,
        SocketEvent::News(news) => news is None,
        SocketEvent::Received(incoming) => incoming != Incoming::Message,
    }
}

/// A connection stays open as long as all can be sent, there are news to come,
/// and the client does not leave.
pub proof fn law_connection_stays_open(events: Seq<SocketEvent>)
    requires
        forall|i: int| 0 <= i < events.len() ==> !may_end(#[trigger] events[i]),
    ensures
        replay(events) != SocketView::Closed,
    decreases events.len(),
{
    if events.len() > 0 {
        let before = events.drop_last();
        assert forall|i: int| 0 <= i < before.len() implies !may_end(#[trigger] before[i]) by {
            assert(before[i] == events[i]);
        }
        law_connection_stays_open(before);
        assert(!may_end(events[events.len() - 1]));
    }
}

} // verus!
