//! What a client says of the connection and of the links it wants.

use vstd::prelude::*;

use crate::amqp::client::AttachRequest;
use crate::amqp::link::{EngineError, StateFault};
use crate::amqp::types::{
    ReceiverSettleMode, Role, SaslInit, SenderSettleMode, Source, SourceView, Target, TargetView,
};
use crate::uri;
use crate::uri::{parse_uri, Uri, UriView};

verus! {

/// The port of an address that names none.
pub const DEFAULT_PORT: u16 = 5672;

// ---- addresses -------------------------------------------------------------

/// The host and the port of a URI.
pub open spec fn endpoint_of(uri: UriView) -> Result<(Seq<char>, u16), EngineError> {
    match uri.host {
        None => Err(EngineError::InvalidState(StateFault::NoHost)),
        Some(host) => Ok(
            (
                host,
                match uri.port {
                    Some(port) => port,
                    None => DEFAULT_PORT,
                },
            ),
        ),
    }
}

/// The host and the port of an address.
pub open spec fn address_of(text: Seq<char>) -> Result<(Seq<char>, u16), EngineError> {
    match uri::uri_of(text) {
        None => Err(EngineError::InvalidState(StateFault::InvalidAddress)),
        Some(uri) => endpoint_of(uri),
    }
}

/// Where a URI leads.
pub fn endpoint(uri: Uri) -> (address: Result<(String, u16), EngineError>)
    ensures
        match address {
            Ok((host, port)) => endpoint_of(uri.deep_view()) == Ok::<(Seq<char>, u16), EngineError>(
                (host@, port),
            ),
            Err(error) => endpoint_of(uri.deep_view()) == Err::<(Seq<char>, u16), EngineError>(
                error,
            ),
        },
{
    let port: u16 = match uri.port {
        Some(port) => port,
        None => DEFAULT_PORT,
    };
    match uri.host {
        Some(host) => Ok((host, port)),
        None => Err(EngineError::InvalidState(StateFault::NoHost)),
    }
}

/// Where an address leads.
pub fn connection_address(address: &str) -> (found: Result<(String, u16), EngineError>)
    ensures
        match found {
            Ok((host, port)) => address_of(address@) == Ok::<(Seq<char>, u16), EngineError>(
                (host@, port),
            ),
            Err(error) => address_of(address@) == Err::<(Seq<char>, u16), EngineError>(error),
        },
{
    match parse_uri(address) {
        Ok(uri) => endpoint(uri),
        Err(_) => Err(EngineError::InvalidState(StateFault::InvalidAddress)),
    }
}

// ---- connections -----------------------------------------------------------

/// A connection to open.
#[derive(Debug, PartialEq, Eq)]
pub struct ClientConnectionBuilder {
    pub container_id: String,
    pub sasl: Option<SaslInit>,
}

impl Default for ClientConnectionBuilder {
    fn default() -> (builder: Self)
        ensures
            builder.container_id@ == "amqp-client"@,
            builder.sasl is None,
    {
        ClientConnectionBuilder { container_id: "amqp-client".to_owned(), sasl: None }
    }
}

impl ClientConnectionBuilder {
    pub fn container_id(self, container_id: String) -> (builder: Self)
        ensures
            builder == (ClientConnectionBuilder { container_id, ..self }),
    {
        ClientConnectionBuilder { container_id, sasl: self.sasl }
    }

    pub fn sasl(self, init: SaslInit) -> (builder: Self)
        ensures
            builder == (ClientConnectionBuilder { sasl: Some(init), ..self }),
    {
        ClientConnectionBuilder { container_id: self.container_id, sasl: Some(init) }
    }
}

// ---- links -----------------------------------------------------------------

/// A receiving link to attach.
#[derive(Debug, PartialEq, Eq)]
pub struct ClientReceiverBuilder {
    pub name: Option<String>,
    pub source: Option<Source>,
    pub target: Option<Target>,
    pub sender_settle_mode: SenderSettleMode,
}

impl Default for ClientReceiverBuilder {
    fn default() -> (builder: Self)
        ensures
            builder == (ClientReceiverBuilder {
                name: None,
                source: None,
                target: None,
                sender_settle_mode: SenderSettleMode::Unsettled,
            }),
    {
        ClientReceiverBuilder {
            name: None,
            source: None,
            target: None,
            sender_settle_mode: SenderSettleMode::Unsettled,
        }
    }
}

impl ClientReceiverBuilder {
    pub fn name(self, name: String) -> (builder: Self)
        ensures
            builder == (ClientReceiverBuilder { name: Some(name), ..self }),
    {
        ClientReceiverBuilder { name: Some(name), ..self }
    }

    pub fn source(self, source: Source) -> (builder: Self)
        ensures
            builder == (ClientReceiverBuilder { source: Some(source), ..self }),
    {
        ClientReceiverBuilder { source: Some(source), ..self }
    }

    pub fn target(self, address: String) -> (builder: Self)
        ensures
            builder.name == self.name,
            builder.source == self.source,
            builder.sender_settle_mode == self.sender_settle_mode,
            builder.target matches Some(target) && target.deep_view() == (TargetView {
                address: Some(address@),
                durable: 0,
                expiry_policy: None,
                timeout: 0,
                dynamic: false,
                dynamic_node_properties: None,
                capabilities: None,
            }),
    {
        ClientReceiverBuilder { target: Some(Target::new(address)), ..self }
    }

    pub fn sender_settle_mode(self, mode: SenderSettleMode) -> (builder: Self)
        ensures
            builder == (ClientReceiverBuilder { sender_settle_mode: mode, ..self }),
    {
        ClientReceiverBuilder { sender_settle_mode: mode, ..self }
    }

    /// The link that was asked for: named `receiver` unless it has a name, and
    /// from a source without an address unless it has one.
    pub fn request(self) -> (request: AttachRequest)
        ensures
            request.deep_view().name == match self.name {
                Some(name) => name@,
                None => "receiver"@,
            },
            request.deep_view().role == Role::Receiver,
            request.deep_view().sender_settle_mode == self.sender_settle_mode,
            request.deep_view().receiver_settle_mode == ReceiverSettleMode::First,
            request.deep_view().source matches Some(source) && match self.source {
                Some(given) => source == given.deep_view(),
                None => source == no_source(),
            },
            request.deep_view().target == self.target.deep_view(),
    {
        let name = match self.name {
            Some(name) => name,
            None => "receiver".to_owned(),
        };
        let source = match self.source {
            Some(source) => source,
            None => Source::default(),
        };
        AttachRequest::receiver(name, source, self.target, self.sender_settle_mode)
    }
}

/// A source that says nothing.
pub open spec fn no_source() -> SourceView {
    SourceView {
        address: None,
        durable: 0,
        expiry_policy: None,
        timeout: 0,
        dynamic: false,
        dynamic_node_properties: None,
        distribution_mode: None,
        filter: None,
        default_outcome: None,
        outcomes: None,
        capabilities: None,
    }
}

} // verus!
