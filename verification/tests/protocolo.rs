use minikv_server::minikv_errors::{
    ClientError, CommunicationError, MinikvError, ServerError,
};
use minikv_server::protocolo::{evaluar_error, parsear_linea};

#[test]
fn parsear_linea_con_comillas() {
    let r = parsear_linea("set \"clave 1\" \"valor 1\"".to_string()).unwrap();
    assert_eq!(r, vec!["set", "clave 1", "valor 1"]);
}

#[test]
fn parsear_linea_sin_comillas_y_espacios_de_mas() {
    let r = parsear_linea("  get   clave  \n".to_string()).unwrap();
    assert_eq!(r, vec!["get", "clave"]);
}

#[test]
fn parsear_linea_con_escapes() {
    let r = parsear_linea("set \\\"hola\\\" \"a\\\\b\"".to_string()).unwrap();
    assert_eq!(r, vec!["set", "\"hola\"", "a\\b"]);
}

#[test]
fn parsear_linea_vacia() {
    let r = parsear_linea("   ".to_string()).unwrap();
    assert!(r.is_empty());
}

#[test]
fn parsear_linea_demasiados_argumentos() {
    let r = parsear_linea("set a b c".to_string());
    assert_eq!(r, Err(MinikvError::Client(ClientError::ExtraArgument)));
}

#[test]
fn parsear_linea_palabra_solo_de_espacios_se_junta() {
    // a tab inside quotes makes a word of white space, which a space does not end
    let r = parsear_linea("a \"\t\" b".to_string()).unwrap();
    assert_eq!(r, vec!["a", "\tb"]);
}

#[test]
fn evaluar_error_de_cliente() {
    let a = evaluar_error(MinikvError::Client(ClientError::NotFound));
    assert_eq!(a.respuesta, Some("ERROR \"NOT FOUND\"\n".to_string()));
    assert_eq!(a.registro, None);
    assert_eq!(a.aviso, None);
    assert!(a.continuar);
}

#[test]
fn evaluar_error_de_comunicacion() {
    let a = evaluar_error(MinikvError::Communication(CommunicationError::TimeOut));
    assert_eq!(a.respuesta, Some("ERROR \"TIMEOUT\"\n".to_string()));
    assert_eq!(a.registro, Some("ERROR \"ERROR \"TIMEOUT\"\n\"".to_string()));
    assert_eq!(a.aviso, None);
    assert!(a.continuar);
}

#[test]
fn evaluar_error_de_servidor() {
    let a = evaluar_error(MinikvError::Server(ServerError::InvalidLogFile));
    assert_eq!(a.respuesta, None);
    assert_eq!(a.registro, Some("ERROR \"INVALID LOG FILE\"".to_string()));
    assert_eq!(a.aviso, Some(ServerError::InvalidLogFile));
    assert!(!a.continuar);
}
