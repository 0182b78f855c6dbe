use minikv_server::minikv::{append_log, Minikv};
use minikv_server::minikv_errors::{ClientError, MinikvError};

#[test]
fn ley_get_tras_set_valores() {
    let mut log = String::new();
    let mut kv = Minikv::new_testing();
    kv.set(Some("k".to_string()), Some("v\\\"".to_string()), &mut log).unwrap();
    assert_eq!(kv.get(Some("k".to_string())), Ok("v\\\"".to_string()));
}

#[test]
fn ley_get_tras_borrar_valores() {
    let mut log = String::new();
    let mut kv = Minikv::new_testing();
    kv.set(Some("k".to_string()), Some("v".to_string()), &mut log).unwrap();
    kv.set(Some("k".to_string()), None, &mut log).unwrap();
    assert_eq!(
        kv.get(Some("k".to_string())),
        Err(MinikvError::Client(ClientError::NotFound))
    );
}

#[test]
fn ley_otras_claves_valores() {
    let mut log = String::new();
    let mut kv = Minikv::new_testing();
    kv.set(Some("a".to_string()), Some("1".to_string()), &mut log).unwrap();
    kv.set(Some("b".to_string()), Some("2".to_string()), &mut log).unwrap();
    kv.set(Some("b".to_string()), None, &mut log).unwrap();
    assert_eq!(kv.get(Some("a".to_string())), Ok("1".to_string()));
}

#[test]
fn ley_cantidad_valores() {
    let mut log = String::new();
    let mut kv = Minikv::new_testing();
    kv.set(Some("a".to_string()), Some("1".to_string()), &mut log).unwrap();
    assert_eq!(kv.length(), "1");
    kv.set(Some("a".to_string()), Some("2".to_string()), &mut log).unwrap();
    assert_eq!(kv.length(), "1");
    kv.set(Some("b".to_string()), Some("2".to_string()), &mut log).unwrap();
    assert_eq!(kv.length(), "2");
    kv.set(Some("a".to_string()), None, &mut log).unwrap();
    assert_eq!(kv.length(), "1");
    kv.set(Some("a".to_string()), None, &mut log).unwrap();
    assert_eq!(kv.length(), "1");
}

#[test]
fn ley_linea_log_valores() {
    let mut linea = String::new();
    append_log("cla\"ve", &Some("va lor".to_string()), &mut linea);
    let mut kv = Minikv::new_testing();
    kv.aplicar_log(&linea).unwrap();
    assert_eq!(kv.get(Some("cla\"ve".to_string())), Ok("va lor".to_string()));
    let mut borrado = String::new();
    append_log("cla\"ve", &None, &mut borrado);
    kv.aplicar_log(&borrado).unwrap();
    assert_eq!(kv.length(), "0");
}

#[test]
fn ley_linea_log_con_clave_terminada_en_comilla_y_espacio() {
    let mut linea = String::new();
    append_log("k\" ", &Some("v".to_string()), &mut linea);
    let mut kv = Minikv::new_testing();
    kv.aplicar_log(&linea).unwrap();
    assert_eq!(kv.get(Some("k\" ".to_string())), Ok("v".to_string()));
}

#[test]
fn ley_snapshot_valores() {
    let mut log = String::new();
    let mut kv = Minikv::new_testing();
    kv.set(Some("x\"y".to_string()), Some("\"z".to_string()), &mut log).unwrap();
    kv.set(Some("w".to_string()), Some("1 2".to_string()), &mut log).unwrap();
    let otro = Minikv::new(String::new(), String::new(), &kv.contenido_snapshot(), "").unwrap();
    assert_eq!(otro.get(Some("x\"y".to_string())), Ok("\"z".to_string()));
    assert_eq!(otro.get(Some("w".to_string())), Ok("1 2".to_string()));
    assert_eq!(otro.length(), "2");
}

#[test]
fn ley_recuperacion_valores() {
    let mut log = String::new();
    let mut kv = Minikv::new_testing();
    kv.set(Some("a".to_string()), Some("1".to_string()), &mut log).unwrap();
    let data = kv.contenido_snapshot();
    let mut log2 = String::new();
    kv.set(Some("b".to_string()), Some("2".to_string()), &mut log2).unwrap();
    kv.set(Some("a".to_string()), None, &mut log2).unwrap();
    let otro = Minikv::new(String::new(), String::new(), &data, &log2).unwrap();
    assert_eq!(otro.length(), "1");
    assert_eq!(otro.get(Some("b".to_string())), Ok("2".to_string()));
}
