//! What a connection task is told to do after each event: the sends to other
//! peers, the writes to its own socket, the changes to the peer table, and
//! whether its loop goes on.
use vstd::prelude::*;

verus! {

/// One thing for the connection task to do. `P` is the message type that
/// travels between tasks (bytes or a line of text).
#[derive(Debug, Clone, PartialEq, Eq)]
pub enum Action<P> {
    /// Send to the client with this id, if it is connected.
    ToClient(i64, P),
    /// Send to every connected client.
    ToAllClients(P),
    /// Send to every connected server.
    ToServers(P),
    /// Write a frame to this connection's own peer.
    Write(P),
    /// Drop the client with this id from the peer table.
    ForgetClient(i64),
    /// Drop this connection (a server) from the peer table.
    ForgetServer,
    /// Flush and close this connection's framed stream.
    Close,
    /// Shut down this connection's socket.
    Shutdown,
}

/// An [`Action`] with its message taken by its view.
pub enum ActionView<V> {
    ToClient(i64, V),
    ToAllClients(V),
    ToServers(V),
    Write(V),
    ForgetClient(i64),
    ForgetServer,
    Close,
    Shutdown,
}

impl<P: View> View for Action<P> {
    type V = ActionView<P::V>;

    open spec fn view(&self) -> ActionView<P::V> {
        match self {
            Action::ToClient(id, m) => ActionView::ToClient(*id, m@),
            Action::ToAllClients(m) => ActionView::ToAllClients(m@),
            Action::ToServers(m) => ActionView::ToServers(m@),
            Action::Write(m) => ActionView::Write(m@),
            Action::ForgetClient(id) => ActionView::ForgetClient(*id),
            Action::ForgetServer => ActionView::ForgetServer,
            Action::Close => ActionView::Close,
            Action::Shutdown => ActionView::Shutdown,
        }
    }
}

/// Whether the connection's loop goes on after an event.
#[derive(Debug, Clone, Copy, PartialEq, Eq)]
pub enum Flow {
    /// Keep reading events.
    Continue,
    /// The connection is over; the task returns normally.
    Stop,
    /// The connection is over; the task returns the send error.
    Fail,
}

/// The views of a list of actions.
pub open spec fn actions_view<P: View>(a: Seq<Action<P>>) -> Seq<ActionView<P::V>> {
    a.map_values(|x: Action<P>| x@)
}

} // verus!
