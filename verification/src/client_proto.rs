//! The client side of the connection protocol: the states a client goes
//! through and how it answers the server's control frames.
use crate::std_wrappers::{str_eq, string_push_str};
use vstd::prelude::*;

verus! {

/// A client that has been told about the server.
#[derive(Debug)]
pub struct ConnectedClient {
    /// The name of the package that the server runs.
    pub main_package_name: String,
}

/// The state of a client's connection.
#[derive(Debug)]
pub enum ClientProtoState {
    /// Waiting for the server, as the given user.
    Pending(String),
    /// Connected.
    Connected(ConnectedClient),
    /// Disconnected.
    Disconnected,
}

/// A connection state as a value.
pub enum ProtoStateView {
    Pending(Seq<char>),
    Connected(Seq<char>),
    Disconnected,
}

impl View for ClientProtoState {
    type V = ProtoStateView;

    open spec fn view(&self) -> ProtoStateView {
        match self {
            ClientProtoState::Pending(user) => ProtoStateView::Pending(user@),
            ClientProtoState::Connected(c) => ProtoStateView::Connected(c.main_package_name@),
            ClientProtoState::Disconnected => ProtoStateView::Disconnected,
        }
    }
}

/// What the server says about itself.
#[derive(Debug)]
pub struct ServerInfo {
    /// The name of the package that the server runs.
    pub main_package_name: String,
    /// The server's version.
    pub version: String,
    /// Where the server's content is found.
    pub content_base_url: String,
}

/// A control frame that the server pushes.
#[derive(Debug)]
pub enum ServerPush {
    ServerInfo(ServerInfo),
    Disconnect,
}

/// A control frame as a value: the server's package name, version and
/// content location for information about the server, nothing for a
/// disconnect.
pub open spec fn push_view(frame: ServerPush) -> Option<(Seq<char>, Seq<char>, Seq<char>)> {
    match frame {
        ServerPush::ServerInfo(info) => Some(
            (info.main_package_name@, info.version@, info.content_base_url@),
        ),
        ServerPush::Disconnect => None,
    }
}

/// Whether a frame is refused: information with a version other than the
/// client's, to a waiting client, when mismatches are refused.
pub open spec fn push_refused(
    state: ProtoStateView,
    frame: Option<(Seq<char>, Seq<char>, Seq<char>)>,
    current_version: Seq<char>,
    fail_on_version_mismatch: bool,
) -> bool {
    state is Pending && frame is Some && fail_on_version_mismatch && frame.unwrap().1 != current_version
}

/// The state after a frame that is not refused.
pub open spec fn next_state(state: ProtoStateView, frame: Option<(Seq<char>, Seq<char>, Seq<char>)>) -> ProtoStateView {
    match frame {
        Some(info) => if state is Pending {
            ProtoStateView::Connected(info.0)
        } else {
            state
        },
        None => ProtoStateView::Disconnected,
    }
}

/// Why a control frame was refused.
#[derive(Clone, Debug, PartialEq, Eq)]
pub enum ProtoError {
    /// The server's version is not the client's; the message says both.
    VersionMismatch(String),
}

/// The message that tells of a server whose version is not the client's.
pub open spec fn version_mismatch_text(server: Seq<char>, client: Seq<char>) -> Seq<char> {
    "Client version does not match server version.\n\nServer version: "@ + server
        + "\nClient version: "@ + client
}

/// The message that tells of a server whose version is not the client's.
pub fn version_mismatch_message(server: &str, client: &str) -> (r: String)
    ensures
        r@ == version_mismatch_text(server@, client@),
{
    let mut r = "Client version does not match server version.\n\nServer version: ".to_owned();
    string_push_str(&mut r, server);
    string_push_str(&mut r, "\nClient version: ");
    string_push_str(&mut r, client);
    r
}

impl ClientProtoState {
    /// Leaves the connection.
    pub fn process_disconnect(&mut self)
        ensures
            final(self)@ == ProtoStateView::Disconnected,
    {
        *self = ClientProtoState::Disconnected;
    }

    /// Whether the client waits for the server.
    pub fn is_pending(&self) -> (r: bool)
        ensures
            r == (self@ is Pending),
    {
        match self {
            ClientProtoState::Pending(_) => true,
            _ => false,
        }
    }

    /// Whether the client is connected.
    pub fn is_connected(&self) -> (r: bool)
        ensures
            r == (self@ is Connected),
    {
        match self {
            ClientProtoState::Connected(_) => true,
            _ => false,
        }
    }

    /// Answers a control frame from the server, the client being at
    /// `current_version`. Information about the server connects a waiting
    /// client and gives the content location to use; a version other than
    /// the client's is refused when `fail_on_version_mismatch` holds, and
    /// else let through. Information that comes later is ignored. A
    /// disconnect frame disconnects.
    pub fn process_push(
        &mut self,
        current_version: &str,
        fail_on_version_mismatch: bool,
        frame: ServerPush,
    ) -> (r: Result<Option<String>, ProtoError>)
        ensures
            push_refused(old(self)@, push_view(frame), current_version@, fail_on_version_mismatch)
                ==> final(self)@ == old(self)@ && (r matches Err(ProtoError::VersionMismatch(m))
                && m@ == version_mismatch_text(push_view(frame).unwrap().1, current_version@)),
            !push_refused(old(self)@, push_view(frame), current_version@, fail_on_version_mismatch)
                ==> final(self)@ == next_state(old(self)@, push_view(frame)) && match r {
                Ok(Some(url)) => old(self)@ is Pending && push_view(frame) is Some && url@ == push_view(
                    frame,
                ).unwrap().2,
                Ok(None) => !(old(self)@ is Pending && push_view(frame) is Some),
                Err(_) => false,
            },
    {
        match frame {
            ServerPush::ServerInfo(info) => {
                if !self.is_pending() {
                    return Ok(None);
                }
                if fail_on_version_mismatch && !str_eq(info.version.as_str(), current_version) {
                    return Err(
                        ProtoError::VersionMismatch(
                            version_mismatch_message(info.version.as_str(), current_version),
                        ),
                    );
                }
                *self = ClientProtoState::Connected(
                    ConnectedClient { main_package_name: info.main_package_name },
                );
                Ok(Some(info.content_base_url))
            },
            ServerPush::Disconnect => {
                self.process_disconnect();
                Ok(None)
            },
        }
    }
}

/// A disconnected client stays disconnected, whatever frames come.
pub proof fn lemma_disconnected_stays(
    frame: Option<(Seq<char>, Seq<char>, Seq<char>)>,
    current_version: Seq<char>,
    fail_on_version_mismatch: bool,
)
    ensures
        !push_refused(ProtoStateView::Disconnected, frame, current_version, fail_on_version_mismatch),
        next_state(ProtoStateView::Disconnected, frame) == ProtoStateView::Disconnected,
{
}

/// Only a waiting client is connected by information about the server; a
/// connected client keeps the package it was told of.
pub proof fn lemma_connects_once(
    state: ProtoStateView,
    info: (Seq<char>, Seq<char>, Seq<char>),
)
    ensures
        state is Pending ==> next_state(state, Some(info)) == ProtoStateView::Connected(info.0),
        state is Connected ==> next_state(state, Some(info)) == state,
        next_state(next_state(state, None), Some(info)) == ProtoStateView::Disconnected,
{
}

} // verus!
