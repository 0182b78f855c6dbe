//! The errors of the store, of its clients and of the connection between
//! them, each with the message that is shown for it.
use vstd::prelude::*;
use vstd::string::StringExecFns;

verus! {

/// Errors of the server.
#[derive(Debug, Clone, Copy, PartialEq, Eq, Structural)]
pub enum ServerError {
    InvalidArgs,
    ServerSocketBinding,
    InvalidDataFile,
    InvalidLogFile,
}

/// Errors caused by a client's request.
#[derive(Debug, Clone, Copy, PartialEq, Eq, Structural)]
pub enum ClientError {
    NotFound,
    ExtraArgument,
    MissingArgument,
    UnknownCommand,
}

/// Errors of the connection between client and server.
#[derive(Debug, Clone, Copy, PartialEq, Eq, Structural)]
pub enum CommunicationError {
    TimeOut,
    ConnectionClosed,
    ClientSocketBinding,
}

/// Any error of the system, by the side it comes from.
#[derive(Debug, Clone, Copy, PartialEq, Eq, Structural)]
pub enum MinikvError {
    Server(ServerError),
    Client(ClientError),
    Communication(CommunicationError),
}

impl ServerError {
    /// The message shown for the error.
    pub open spec fn texto(self) -> Seq<char> {
        match self {
            ServerError::InvalidArgs => "INVALID ARGS"@,
            ServerError::ServerSocketBinding => "SERVER SOCKET BINDING"@,
            ServerError::InvalidDataFile => "INVALID DATA FILE"@,
            ServerError::InvalidLogFile => "INVALID LOG FILE"@,
        }
    }

    /// The message shown for the error.
    pub fn mensaje(&self) -> (r: String)
        ensures
            r@ == self.texto(),
    {
        match self {
            ServerError::InvalidArgs => String::from_str("INVALID ARGS"),
            ServerError::ServerSocketBinding => String::from_str("SERVER SOCKET BINDING"),
            ServerError::InvalidDataFile => String::from_str("INVALID DATA FILE"),
            ServerError::InvalidLogFile => String::from_str("INVALID LOG FILE"),
        }
    }
}

impl ClientError {
    /// The message shown for the error.
    pub open spec fn texto(self) -> Seq<char> {
        match self {
            ClientError::NotFound => "NOT FOUND"@,
            ClientError::ExtraArgument => "EXTRA ARGUMENT"@,
            ClientError::MissingArgument => "MISSING ARGUMENT"@,
            ClientError::UnknownCommand => "UNKNOWN COMMAND"@,
        }
    }

    /// The message shown for the error.
    pub fn mensaje(&self) -> (r: String)
        ensures
            r@ == self.texto(),
    {
        match self {
            ClientError::NotFound => String::from_str("NOT FOUND"),
            ClientError::ExtraArgument => String::from_str("EXTRA ARGUMENT"),
            ClientError::MissingArgument => String::from_str("MISSING ARGUMENT"),
            ClientError::UnknownCommand => String::from_str("UNKNOWN COMMAND"),
        }
    }
}

impl CommunicationError {
    /// The message shown for the error.
    pub open spec fn texto(self) -> Seq<char> {
        match self {
            CommunicationError::TimeOut => "TIMEOUT"@,
            CommunicationError::ConnectionClosed => "CONNECTION CLOSED"@,
            CommunicationError::ClientSocketBinding => "CLIENT SOCKET BINDING"@,
        }
    }

    /// The message shown for the error.
    pub fn mensaje(&self) -> (r: String)
        ensures
            r@ == self.texto(),
    {
        match self {
            CommunicationError::TimeOut => String::from_str("TIMEOUT"),
            CommunicationError::ConnectionClosed => String::from_str("CONNECTION CLOSED"),
            CommunicationError::ClientSocketBinding => String::from_str("CLIENT SOCKET BINDING"),
        }
    }
}

impl MinikvError {
    /// The message shown for the error: that of the error it wraps.
    pub open spec fn texto(self) -> Seq<char> {
        match self {
            MinikvError::Server(e) => e.texto(),
            MinikvError::Client(e) => e.texto(),
            MinikvError::Communication(e) => e.texto(),
        }
    }

    /// The message shown for the error: that of the error it wraps.
    pub fn mensaje(&self) -> (r: String)
        ensures
            r@ == self.texto(),
    {
        match self {
            MinikvError::Server(e) => e.mensaje(),
            MinikvError::Client(e) => e.mensaje(),
            MinikvError::Communication(e) => e.mensaje(),
        }
    }
}

impl From<ServerError> for MinikvError {
    fn from(e: ServerError) -> (r: MinikvError) {
        MinikvError::Server(e)
    }
}

impl vstd::std_specs::convert::FromSpecImpl<ServerError> for MinikvError {
    open spec fn obeys_from_spec() -> bool {
        true
    }

    open spec fn from_spec(v: ServerError) -> MinikvError {
        MinikvError::Server(v)
    }
}

impl From<ClientError> for MinikvError {
    fn from(e: ClientError) -> (r: MinikvError) {
        MinikvError::Client(e)
    }
}

impl vstd::std_specs::convert::FromSpecImpl<ClientError> for MinikvError {
    open spec fn obeys_from_spec() -> bool {
        true
    }

    open spec fn from_spec(v: ClientError) -> MinikvError {
        MinikvError::Client(v)
    }
}

impl From<CommunicationError> for MinikvError {
    fn from(e: CommunicationError) -> (r: MinikvError) {
        MinikvError::Communication(e)
    }
}

impl vstd::std_specs::convert::FromSpecImpl<CommunicationError> for MinikvError {
    open spec fn obeys_from_spec() -> bool {
        true
    }

    open spec fn from_spec(v: CommunicationError) -> MinikvError {
        MinikvError::Communication(v)
    }
}

} // verus!
