use minikv_server::minikv_errors::{
    ClientError, CommunicationError, MinikvError, ServerError,
};

#[test]
fn mensajes_de_servidor() {
    assert_eq!(ServerError::InvalidArgs.mensaje(), "INVALID ARGS");
    assert_eq!(ServerError::ServerSocketBinding.mensaje(), "SERVER SOCKET BINDING");
    assert_eq!(ServerError::InvalidDataFile.mensaje(), "INVALID DATA FILE");
    assert_eq!(ServerError::InvalidLogFile.mensaje(), "INVALID LOG FILE");
}

#[test]
fn mensajes_de_cliente() {
    assert_eq!(ClientError::NotFound.mensaje(), "NOT FOUND");
    assert_eq!(ClientError::ExtraArgument.mensaje(), "EXTRA ARGUMENT");
    assert_eq!(ClientError::MissingArgument.mensaje(), "MISSING ARGUMENT");
    assert_eq!(ClientError::UnknownCommand.mensaje(), "UNKNOWN COMMAND");
}

#[test]
fn mensajes_de_comunicacion() {
    assert_eq!(CommunicationError::TimeOut.mensaje(), "TIMEOUT");
    assert_eq!(CommunicationError::ConnectionClosed.mensaje(), "CONNECTION CLOSED");
    assert_eq!(
        CommunicationError::ClientSocketBinding.mensaje(),
        "CLIENT SOCKET BINDING"
    );
}

#[test]
fn mensaje_general_es_el_del_error_envuelto() {
    assert_eq!(
        MinikvError::Server(ServerError::InvalidArgs).mensaje(),
        "INVALID ARGS"
    );
    assert_eq!(MinikvError::Client(ClientError::NotFound).mensaje(), "NOT FOUND");
    assert_eq!(
        MinikvError::Communication(CommunicationError::TimeOut).mensaje(),
        "TIMEOUT"
    );
}

#[test]
fn conversiones() {
    let e: MinikvError = ServerError::InvalidDataFile.into();
    assert_eq!(e, MinikvError::Server(ServerError::InvalidDataFile));
    let e: MinikvError = ClientError::UnknownCommand.into();
    assert_eq!(e, MinikvError::Client(ClientError::UnknownCommand));
    let e: MinikvError = CommunicationError::ConnectionClosed.into();
    assert_eq!(e, MinikvError::Communication(CommunicationError::ConnectionClosed));
}
