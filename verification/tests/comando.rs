use minikv_server::comando::Comando;

#[test]
fn comando_1_argumento() {
    let args: Vec<String> = vec!["length".to_string()];
    let comando = Comando::parsear_comando(&args);
    assert!(comando.clave.is_none());
    assert!(comando.valor.is_none());
}

#[test]
fn comando_2_argumentos() {
    let args: Vec<String> = vec!["get".to_string(), "clave 1".to_string()];
    let comando = Comando::parsear_comando(&args);
    assert!(comando.clave == Some(String::from("clave 1")));
    assert!(comando.valor.is_none());
}

#[test]
fn comando_3_argumentos() {
    let args: Vec<String> = vec![
        "set".to_string(),
        "clave 2".to_string(),
        "valor 2".to_string(),
    ];
    let comando = Comando::parsear_comando(&args);
    assert!(comando.clave == Some(String::from("clave 2")));
    assert!(comando.valor == Some(String::from("valor 2")));
}

#[test]
fn comando_sin_argumentos_tiene_nombre_vacio() {
    let args: Vec<String> = vec![];
    let comando = Comando::parsear_comando(&args);
    assert_eq!(comando.nombre, "");
    assert!(comando.clave.is_none());
    assert!(comando.valor.is_none());
}

#[test]
fn comando_ignora_palabras_de_mas() {
    let args: Vec<String> = vec![
        "set".to_string(),
        "a".to_string(),
        "b".to_string(),
        "c".to_string(),
    ];
    let comando = Comando::parsear_comando(&args);
    assert_eq!(comando.nombre, "set");
    assert_eq!(comando.clave, Some("a".to_string()));
    assert_eq!(comando.valor, Some("b".to_string()));
}

#[test]
fn comando_new_solo_nombre() {
    let comando = Comando::new("length".to_string());
    assert_eq!(comando.nombre, "length");
    assert!(comando.clave.is_none());
    assert!(comando.valor.is_none());
}

#[test]
fn es_escritura_recorta_espacios() {
    assert!(Comando::new("  set\t".to_string()).es_escritura());
    assert!(!Comando::new("get".to_string()).es_escritura());
    assert!(!Comando::new("sett".to_string()).es_escritura());
}
