//! What the game server needs to accept connections, the errors of the
//! network layer, and the checks on components that are synchronised.
use crate::attributes::AttributeKind;
use crate::component_registry::ComponentRegistry;
use crate::component_set::ComponentDesc;
use vstd::prelude::*;

verus! {

/// The server's certificate chain and private key, in DER.
#[derive(Clone, Debug)]
pub struct Crypto {
    pub cert_chain: Vec<Vec<u8>>,
    pub key: Vec<u8>,
}

/// What an I/O error was, as far as the network layer tells them apart.
#[derive(Clone, Copy, Debug, PartialEq, Eq, Structural)]
pub enum IoErrorKind {
    /// The peer reset the connection.
    ConnectionReset,
    /// Any other kind of I/O error.
    Other,
}

/// How a QUIC connection failed.
#[derive(Clone, Copy, Debug, PartialEq, Eq, Structural)]
pub enum ConnectionFailure {
    /// The peer closed the connection with an application error code.
    ConnectionClosed { error_code: u64 },
    /// Any other failure of the connection.
    Other,
}

/// An error of the network layer. Errors that come from the transport are
/// held by what the network layer reads of them: the message, or the kind.
#[derive(Clone, Debug, PartialEq, Eq)]
pub enum NetworkError {
    /// No more data to be read from the stream.
    EndOfStream,
    /// The peer closed the connection.
    ConnectionClosed,
    /// A message could not be decoded.
    BadMsgFormat(String),
    /// An I/O error.
    IOError(IoErrorKind),
    /// The QUIC connection failed.
    ConnectionError(ConnectionFailure),
    /// A stream could not be read to its end.
    ReadToEndError(String),
    /// A stream could not be written.
    WriteError(String),
    /// A datagram could not be sent.
    SendDatagramError(String),
    /// A remote procedure call failed.
    RpcError(String),
    /// The proxy failed.
    ProxyError(String),
    /// A frame was malformed.
    FrameError(String),
    /// A frame or stream exceeds the maximum allowed size.
    FrameTooLarge,
    /// The peer cannot keep up.
    Backpressure,
}

impl NetworkError {
    /// Whether the connection was properly closed: by the peer, by a close
    /// with error code 0, or by a reset. A closed stream alone does not
    /// count, as the connection may still be alive.
    pub fn is_closed(&self) -> (r: bool)
        ensures
            r == match *self {
                NetworkError::ConnectionClosed => true,
                NetworkError::ConnectionError(ConnectionFailure::ConnectionClosed { error_code }) => error_code == 0,
                NetworkError::IOError(kind) => kind == IoErrorKind::ConnectionReset,
                _ => false,
            },
    {
        match self {
            NetworkError::ConnectionClosed => true,
            NetworkError::ConnectionError(ConnectionFailure::ConnectionClosed { error_code }) => *error_code == 0,
            NetworkError::IOError(IoErrorKind::ConnectionReset) => true,
            _ => false,
        }
    }

    /// Whether this is the end of a stream.
    pub fn is_end_of_stream(&self) -> (r: bool)
        ensures
            r == (*self is EndOfStream),
    {
        match self {
            NetworkError::EndOfStream => true,
            _ => false,
        }
    }
}

/// Why a component may not be synchronised.
#[derive(Clone, Copy, Debug, PartialEq, Eq, Structural)]
pub enum SyncAttributeError {
    /// The component is not marked `Networked`.
    NotNetworked(ComponentDesc),
    /// The component is not `Serializable`.
    NotSerializable(ComponentDesc),
    /// The component is not marked `Store`, as a persisted resource must be.
    NotStore(ComponentDesc),
}

/// Whether registry entry `i` has an attribute of kind `kind`.
pub open spec fn has_attribute<T>(registry: &ComponentRegistry<T>, i: u32, kind: AttributeKind) -> bool
    where T: Copy,
{
    registry@[i as int].attributes.contains_key(kind)
}

/// Whether the registered component at `index` has an attribute of kind
/// `kind`.
fn registered_with<T: Copy>(registry: &ComponentRegistry<T>, index: u32, kind: AttributeKind) -> (r: bool)
    requires
        registry.wf(),
        (index as int) < registry@.len(),
    ensures
        r == has_attribute(registry, index, kind),
{
    match registry.attributes(index) {
        Some(a) => a.has_kind(kind),
        None => false,
    }
}

/// Whether `desc` may be synchronised.
pub open spec fn may_sync<T: Copy>(registry: &ComponentRegistry<T>, desc: ComponentDesc) -> bool {
    has_attribute(registry, desc.index, AttributeKind::Networked) && has_attribute(registry, desc.index, AttributeKind::Serializable)
}

/// Why `desc` may not be synchronised, if it may not: it must be
/// `Networked`, then `Serializable`; the first check that fails is named.
pub fn networked_problem<T: Copy>(registry: &ComponentRegistry<T>, desc: ComponentDesc) -> (r: Option<SyncAttributeError>)
    requires
        registry.wf(),
        (desc.index as int) < registry@.len(),
    ensures
        !has_attribute(registry, desc.index, AttributeKind::Networked) ==> r == Some(SyncAttributeError::NotNetworked(desc)),
        has_attribute(registry, desc.index, AttributeKind::Networked) && !has_attribute(registry, desc.index, AttributeKind::Serializable)
            ==> r == Some(SyncAttributeError::NotSerializable(desc)),
        r is None <==> may_sync(registry, desc),
{
    if !registered_with(registry, desc.index, AttributeKind::Networked) {
        return Some(SyncAttributeError::NotNetworked(desc));
    }
    if !registered_with(registry, desc.index, AttributeKind::Serializable) {
        return Some(SyncAttributeError::NotSerializable(desc));
    }
    None
}

/// Why `desc` may not be a persisted resource, if it may not: it must pass
/// the checks of `networked_problem`, then be marked `Store`.
pub fn persisted_problem<T: Copy>(registry: &ComponentRegistry<T>, desc: ComponentDesc) -> (r: Option<SyncAttributeError>)
    requires
        registry.wf(),
        (desc.index as int) < registry@.len(),
    ensures
        !has_attribute(registry, desc.index, AttributeKind::Networked) ==> r == Some(SyncAttributeError::NotNetworked(desc)),
        has_attribute(registry, desc.index, AttributeKind::Networked) && !has_attribute(registry, desc.index, AttributeKind::Serializable)
            ==> r == Some(SyncAttributeError::NotSerializable(desc)),
        may_sync(registry, desc) && !has_attribute(registry, desc.index, AttributeKind::Store)
            ==> r == Some(SyncAttributeError::NotStore(desc)),
        r is None <==> may_sync(registry, desc) && has_attribute(registry, desc.index, AttributeKind::Store),
{
    match networked_problem(registry, desc) {
        Some(e) => {
            return Some(e);
        },
        None => {},
    }
    if !registered_with(registry, desc.index, AttributeKind::Store) {
        return Some(SyncAttributeError::NotStore(desc));
    }
    None
}

/// Asserts that `desc` may be synchronised: `Networked` and `Serializable`.
/// A component that is not is refused by the `requires` (the assertion
/// would fail on it); test it with `networked_problem` first.
pub fn assert_networked<T: Copy>(registry: &ComponentRegistry<T>, desc: ComponentDesc)
    requires
        registry.wf(),
        (desc.index as int) < registry@.len(),
        may_sync(registry, desc),
{
}

/// Asserts that `desc` may be a persisted resource: synchronised and marked
/// `Store`. A component that is not is refused by the `requires`; test it
/// with `persisted_problem` first.
pub fn assert_persisted<T: Copy>(registry: &ComponentRegistry<T>, desc: ComponentDesc)
    requires
        registry.wf(),
        (desc.index as int) < registry@.len(),
        may_sync(registry, desc),
        has_attribute(registry, desc.index, AttributeKind::Store),
{
    assert_networked(registry, desc);
}

} // verus!
