//! The client's side of its one connection to the server.
//!
//! Whoever owns the socket tells the client when the connection comes and
//! goes, hands it the bytes that arrive and fetches the bytes to write. The
//! tick loop sends messages and fetches the messages that have arrived.

use vstd::prelude::*;
use crate::codec::{encodable, encode, frame_of};
use crate::messages::{Direction, Message, MessageView};
use crate::registry::Registry;
use crate::stream::{drained, views, Inbox};

verus! {

/// What the tick loop is told about the connection.
#[derive(Clone, Copy, Debug, PartialEq, Eq, Structural)]
pub enum ClientEvent {
    Connected,
    Disconnected,
}

/// Why a message was not sent.
#[derive(Clone, Copy, Debug, PartialEq, Eq, Structural)]
pub enum ClientError {
    /// There is no connection to send on.
    NotConnected,
    /// The message is longer than a frame may carry.
    Oversized,
}

/// One connection to one server. It is never made again once it is lost.
pub struct NetworkClient {
    connected: bool,
    outbox: Vec<u8>,
    inbox: Inbox,
    inbound: Vec<Message>,
    events: Vec<ClientEvent>,
}

impl NetworkClient {
    /// Whether the connection stands.
    pub closed spec fn is_connected(&self) -> bool {
        self.connected
    }

    /// The bytes that wait to be written to the socket.
    pub closed spec fn outgoing(&self) -> Seq<u8> {
        self.outbox@
    }

    /// The bytes that have arrived and do not yet make a frame.
    pub closed spec fn unread(&self) -> Seq<u8> {
        self.inbox.pending()
    }

    /// The messages that have arrived and were not fetched, oldest first.
    pub closed spec fn inbound(&self) -> Seq<MessageView> {
        views(self.inbound@)
    }

    /// The events that were not fetched, oldest first.
    pub closed spec fn events(&self) -> Seq<ClientEvent> {
        self.events@
    }

    /// A client without a connection.
    pub fn new() -> (r: NetworkClient)
        ensures
            !r.is_connected(),
            r.outgoing() == Seq::<u8>::empty(),
            r.unread() == Seq::<u8>::empty(),
            r.inbound() == Seq::<MessageView>::empty(),
            r.events() == Seq::<ClientEvent>::empty(),
    {
        let r = NetworkClient {
            connected: false,
            outbox: Vec::new(),
            inbox: Inbox::new(),
            inbound: Vec::new(),
            events: Vec::new(),
        };
        assert(views(r.inbound@) =~= Seq::<MessageView>::empty());
        r
    }

    /// Whether the connection stands.
    pub fn connected(&self) -> (r: bool)
        ensures
            r == self.is_connected(),
    {
        self.connected
    }

    /// The socket is connected: sending is possible from now on.
    pub fn on_connect(&mut self)
        ensures
            final(self).is_connected(),
            final(self).outgoing() == Seq::<u8>::empty(),
            final(self).unread() == Seq::<u8>::empty(),
            final(self).inbound() == old(self).inbound(),
            final(self).events() == old(self).events().push(ClientEvent::Connected),
    {
        self.connected = true;
        self.outbox.clear();
        self.inbox.clear();
        self.events.push(ClientEvent::Connected);
    }

    /// The connection is lost or could not be made: what was waiting to be
    /// written or read is dropped.
    pub fn on_disconnect(&mut self)
        ensures
            !final(self).is_connected(),
            final(self).outgoing() == Seq::<u8>::empty(),
            final(self).unread() == Seq::<u8>::empty(),
            final(self).inbound() == old(self).inbound(),
            final(self).events() == old(self).events().push(ClientEvent::Disconnected),
    {
        self.connected = false;
        self.outbox.clear();
        self.inbox.clear();
        self.events.push(ClientEvent::Disconnected);
    }

    /// Queues a message for the server. Nothing is queued without a
    /// connection, nor for a message that has no frame.
    pub fn send(&mut self, msg: &Message) -> (r: Result<(), ClientError>)
        ensures
            final(self).is_connected() == old(self).is_connected(),
            final(self).unread() == old(self).unread(),
            final(self).inbound() == old(self).inbound(),
            final(self).events() == old(self).events(),
            match r {
                Ok(_) => old(self).is_connected() && encodable(msg@) && final(self).outgoing()
                    == old(self).outgoing() + frame_of(msg@),
                Err(e) => final(self).outgoing() == old(self).outgoing() && e == if !old(
                    self,
                ).is_connected() {
                    ClientError::NotConnected
                } else {
                    ClientError::Oversized
                } && (old(self).is_connected() ==> !encodable(msg@)),
            },
    {
        if !self.connected {
            return Err(ClientError::NotConnected);
        }
        match encode(msg) {
            Some(frame) => {
                let mut frame = frame;
                self.outbox.append(&mut frame);
                Ok(())
            },
            None => Err(ClientError::Oversized),
        }
    }

    /// Hands over the bytes that wait to be written, in their order.
    pub fn take_outgoing(&mut self) -> (r: Vec<u8>)
        ensures
            r@ == old(self).outgoing(),
            final(self).outgoing() == Seq::<u8>::empty(),
            final(self).is_connected() == old(self).is_connected(),
            final(self).unread() == old(self).unread(),
            final(self).inbound() == old(self).inbound(),
            final(self).events() == old(self).events(),
    {
        let mut out: Vec<u8> = Vec::new();
        out.append(&mut self.outbox);
        out
    }

    /// Takes in bytes that have arrived and queues the messages of every
    /// whole frame among them. A frame that is too long ends the connection;
    /// the answer then is `true`. Without a connection the bytes are ignored.
    pub fn receive(&mut self, chunk: &[u8], registry: &Registry) -> (violation: bool)
        ensures
            final(self).inbound() == if old(self).is_connected() {
                old(self).inbound() + drained(
                    old(self).unread() + chunk@,
                    *registry,
                    Direction::ServerToClient,
                ).messages
            } else {
                old(self).inbound()
            },
            violation == (old(self).is_connected() && drained(
                old(self).unread() + chunk@,
                *registry,
                Direction::ServerToClient,
            ).violation),
            final(self).is_connected() == (old(self).is_connected() && !violation),
            final(self).unread() == if violation {
                Seq::<u8>::empty()
            } else if old(self).is_connected() {
                drained(old(self).unread() + chunk@, *registry, Direction::ServerToClient).rest
            } else {
                old(self).unread()
            },
            final(self).outgoing() == if violation {
                Seq::<u8>::empty()
            } else {
                old(self).outgoing()
            },
            final(self).events() == if violation {
                old(self).events().push(ClientEvent::Disconnected)
            } else {
                old(self).events()
            },
    {
        if !self.connected {
            return false;
        }
        self.inbox.feed(chunk);
        let (mut messages, violation) = self.inbox.drain(registry, Direction::ServerToClient);
        let ghost got = messages@;
        let ghost had = self.inbound@;
        self.inbound.append(&mut messages);
        assert(views(self.inbound@) =~= views(had) + views(got));
        if violation {
            self.on_disconnect();
        }
        violation
    }

    /// Hands over the messages that have arrived since the last call, oldest
    /// first.
    pub fn drain_inbound(&mut self) -> (r: Vec<Message>)
        ensures
            views(r@) == old(self).inbound(),
            final(self).inbound() == Seq::<MessageView>::empty(),
            final(self).is_connected() == old(self).is_connected(),
            final(self).unread() == old(self).unread(),
            final(self).outgoing() == old(self).outgoing(),
            final(self).events() == old(self).events(),
    {
        let mut out: Vec<Message> = Vec::new();
        out.append(&mut self.inbound);
        assert(views(self.inbound@) =~= Seq::<MessageView>::empty());
        out
    }

    /// Hands over the events that were noted since the last call, oldest
    /// first.
    pub fn drain_events(&mut self) -> (r: Vec<ClientEvent>)
        ensures
            r@ == old(self).events(),
            final(self).events() == Seq::<ClientEvent>::empty(),
            final(self).is_connected() == old(self).is_connected(),
            final(self).unread() == old(self).unread(),
            final(self).outgoing() == old(self).outgoing(),
            final(self).inbound() == old(self).inbound(),
    {
        let mut out: Vec<ClientEvent> = Vec::new();
        out.append(&mut self.events);
        out
    }
}

} // verus!
