use minikv_server::comando::Comando;
use minikv_server::minikv::{
    append_log, leer_par_exec, parsear_linea_y_construir_comando, resultado_de_escritura, Minikv,
};
use minikv_server::minikv_errors::{ClientError, MinikvError, ServerError};

fn args(palabras: &[&str]) -> Vec<String> {
    palabras.iter().map(|p| p.to_string()).collect()
}

#[test]
fn set_y_get_test() {
    let mut log = String::new();
    let mut mini_kv = Minikv::new_testing();
    mini_kv
        .set(
            Some("clave 1".to_string()),
            Some("valor 1".to_string()),
            &mut log,
        )
        .unwrap();
    assert_eq!(
        mini_kv.get(Some("clave 1".to_string())).unwrap(),
        "valor 1".to_string()
    );
    mini_kv
        .set(
            Some("\"hola\"".to_string()),
            Some("\"mundo\"".to_string()),
            &mut log,
        )
        .unwrap();
    assert_eq!(
        mini_kv.get(Some("\"hola\"".to_string())).unwrap(),
        "\"mundo\"".to_string()
    );
}

#[test]
fn length_test() {
    let mut log = String::new();
    let mut mini_kv = Minikv::new_testing();
    assert_eq!(mini_kv.length(), "0".to_string());
    mini_kv
        .set(
            Some("clave 1".to_string()),
            Some("valor 1".to_string()),
            &mut log,
        )
        .unwrap();
    assert_eq!(mini_kv.length(), "1".to_string());
    mini_kv
        .set(
            Some("clave 1".to_string()),
            Some("valor A".to_string()),
            &mut log,
        )
        .unwrap();
    assert_eq!(mini_kv.length(), "1".to_string());
}

#[test]
fn obtener_data_test() {
    let contenido = "\"clave 1\" \"valor 1\"\n\"Rayuela\" \"Cortazar\"";
    let mut mini_kv = Minikv::new_testing();
    let _ = mini_kv.obtener_data(contenido);
    assert_eq!(mini_kv.get(Some("clave 1".to_string())).unwrap(), "valor 1");
    assert_eq!(
        mini_kv.get(Some("Rayuela".to_string())).unwrap(),
        "Cortazar"
    );
}

#[test]
fn aplicar_log_test() {
    let contenido = "set \"Ficciones\" \"Borges\"\nset \"Martin Fierro\" \"Hernandez\"";
    let mut mini_kv = Minikv::new_testing();
    let _ = mini_kv.aplicar_log(contenido);
    println!("{:?}", mini_kv.diccionario);
    assert_eq!(
        mini_kv.get(Some("Ficciones".to_string())).unwrap(),
        "Borges"
    );
    assert_eq!(
        mini_kv.get(Some("Martin Fierro".to_string())).unwrap(),
        "Hernandez"
    );
}

#[test]
fn snapshot_test() {
    let kv = Minikv::new(
        "tests/.snapshot_test.log".to_string(),
        "tests/.snapshot_test.data".to_string(),
        "",
        "",
    )
    .unwrap();
    let comando_args = vec![
        "set".to_string(),
        "\"clave 1\"".to_string(),
        "\"valor 1\"".to_string(),
    ];
    let comando = Comando::parsear_comando(&comando_args);
    let mut datos = None;
    let _ = kv.ejecutar_comando(comando, &mut datos);
    let contenido = kv.contenido_snapshot();
    for linea in contenido.lines() {
        assert_eq!(linea, "\"\\\"clave 1\\\"\" \"\\\"valor 1\\\"\"");
    }
}

// ---------------------------------------------------------------------

#[test]
fn set_sin_clave_es_error_y_no_escribe() {
    let mut log = String::new();
    let mut kv = Minikv::new_testing();
    let r = kv.set(None, Some("v".to_string()), &mut log);
    assert_eq!(r, Err(MinikvError::Client(ClientError::MissingArgument)));
    assert_eq!(log, "");
    assert_eq!(kv.length(), "0");
}

#[test]
fn set_escribe_la_linea_de_log() {
    let mut log = String::new();
    let mut kv = Minikv::new_testing();
    assert_eq!(
        kv.set(Some("a\"b".to_string()), Some("c".to_string()), &mut log),
        Ok("OK".to_string())
    );
    kv.set(Some("a\"b".to_string()), None, &mut log).unwrap();
    assert_eq!(log, "set \"a\\\"b\" \"c\"\nset \"a\\\"b\"\n");
}

#[test]
fn set_sin_valor_borra() {
    let mut log = String::new();
    let mut kv = Minikv::new_testing();
    kv.set(Some("k".to_string()), Some("v".to_string()), &mut log).unwrap();
    kv.set(Some("otra".to_string()), Some("w".to_string()), &mut log).unwrap();
    kv.set(Some("k".to_string()), None, &mut log).unwrap();
    assert_eq!(
        kv.get(Some("k".to_string())),
        Err(MinikvError::Client(ClientError::NotFound))
    );
    assert_eq!(kv.get(Some("otra".to_string())), Ok("w".to_string()));
    assert_eq!(kv.length(), "1");
    kv.set(Some("nunca".to_string()), None, &mut log).unwrap();
    assert_eq!(kv.length(), "1");
}

#[test]
fn get_sin_clave_y_get_devuelve_lo_guardado() {
    let mut log = String::new();
    let mut kv = Minikv::new_testing();
    assert_eq!(
        kv.get(None),
        Err(MinikvError::Client(ClientError::MissingArgument))
    );
    kv.set(Some("k".to_string()), Some("a\\\"b".to_string()), &mut log).unwrap();
    assert_eq!(kv.get(Some("k".to_string())), Ok("a\\\"b".to_string()));
}

#[test]
fn length_de_muchas_claves() {
    let mut log = String::new();
    let mut kv = Minikv::new_testing();
    for i in 0..123 {
        kv.set(Some(format!("k{}", i)), Some("v".to_string()), &mut log).unwrap();
    }
    assert_eq!(kv.length(), "123");
}

#[test]
fn ejecutar_comando_respuestas() {
    let mut log = String::new();
    let mut kv = Minikv::new_testing();
    kv.set(Some("k".to_string()), Some("v".to_string()), &mut log).unwrap();
    let mut datos = Some("viejo".to_string());
    assert_eq!(
        kv.ejecutar_comando(Comando::parsear_comando(&args(&[" get ", "k"])), &mut datos),
        Ok("v".to_string())
    );
    assert_eq!(datos, None);
    assert_eq!(
        kv.ejecutar_comando(Comando::parsear_comando(&args(&["get", "k", "x"])), &mut datos),
        Err(MinikvError::Client(ClientError::ExtraArgument))
    );
    assert_eq!(
        kv.ejecutar_comando(Comando::parsear_comando(&args(&["get", "no"])), &mut datos),
        Err(MinikvError::Client(ClientError::NotFound))
    );
    assert_eq!(
        kv.ejecutar_comando(Comando::parsear_comando(&args(&["length"])), &mut datos),
        Ok("1".to_string())
    );
    assert_eq!(
        kv.ejecutar_comando(Comando::parsear_comando(&args(&["length", "k"])), &mut datos),
        Err(MinikvError::Client(ClientError::ExtraArgument))
    );
    assert_eq!(
        kv.ejecutar_comando(Comando::parsear_comando(&args(&["snapshot", "k"])), &mut datos),
        Err(MinikvError::Client(ClientError::ExtraArgument))
    );
    assert_eq!(datos, None);
    assert_eq!(
        kv.ejecutar_comando(Comando::parsear_comando(&args(&["set", "k", "v"])), &mut datos),
        Err(MinikvError::Client(ClientError::UnknownCommand))
    );
    assert_eq!(
        kv.ejecutar_comando(Comando::parsear_comando(&args(&["snapshot"])), &mut datos),
        Ok("OK".to_string())
    );
    assert_eq!(datos, Some("\"k\" \"v\"\n".to_string()));
}

#[test]
fn contenido_snapshot_escapa_comillas() {
    let mut log = String::new();
    let mut kv = Minikv::new_testing();
    // the plain line would lose the value's closing quote: the exact form
    kv.set(Some("\"clave 1\"".to_string()), Some("\"valor 1\"".to_string()), &mut log)
        .unwrap();
    kv.set(Some("b".to_string()), Some("2".to_string()), &mut log).unwrap();
    kv.set(Some("a\\b".to_string()), Some("x \"y\" z".to_string()), &mut log).unwrap();
    assert_eq!(
        kv.contenido_snapshot(),
        "!\"\\\"clave 1\\\"\" \"\\\"valor 1\\\"\"!\n\"b\" \"2\"\n\"a\\b\" \"x \\\"y\\\" z\"\n"
    );
}

#[test]
fn snapshot_y_recuperacion() {
    let mut log = String::new();
    let mut kv = Minikv::new_testing();
    kv.set(Some("a b".to_string()), Some("uno \"dos\" tres".to_string()), &mut log)
        .unwrap();
    kv.set(Some("c".to_string()), Some("x".to_string()), &mut log).unwrap();
    let data = kv.contenido_snapshot();
    let otro = Minikv::new("l".to_string(), "d".to_string(), &data, "").unwrap();
    assert_eq!(otro.length(), "2");
    assert_eq!(
        otro.get(Some("a b".to_string())),
        Ok("uno \"dos\" tres".to_string())
    );
    assert_eq!(otro.get(Some("c".to_string())), Ok("x".to_string()));
    assert_eq!(otro.ruta_log, "l");
    assert_eq!(otro.ruta_data, "d");
}

#[test]
fn reconstruccion_desde_el_log() {
    let mut log = String::new();
    let mut kv = Minikv::new_testing();
    kv.set(Some("a".to_string()), Some("1".to_string()), &mut log).unwrap();
    kv.set(Some("b".to_string()), Some("con \"comillas\" y mas".to_string()), &mut log)
        .unwrap();
    kv.set(Some("c".to_string()), Some("termina en \"".to_string()), &mut log)
        .unwrap();
    kv.set(Some("a".to_string()), None, &mut log).unwrap();
    let otro = Minikv::new("l".to_string(), "d".to_string(), "", &log).unwrap();
    assert_eq!(
        otro.get(Some("a".to_string())),
        Err(MinikvError::Client(ClientError::NotFound))
    );
    assert_eq!(
        otro.get(Some("b".to_string())),
        Ok("con \"comillas\" y mas".to_string())
    );
    assert_eq!(otro.get(Some("c".to_string())), Ok("termina en \"".to_string()));
    assert_eq!(otro.length(), "2");
}

#[test]
fn new_errores_de_archivos() {
    assert_eq!(
        Minikv::new("l".into(), "d".into(), "sin comillas", "").err(),
        Some(MinikvError::Server(ServerError::InvalidDataFile))
    );
    assert_eq!(
        Minikv::new("l".into(), "d".into(), "\"solo una parte\"", "").err(),
        Some(MinikvError::Server(ServerError::InvalidDataFile))
    );
    assert_eq!(
        Minikv::new("l".into(), "d".into(), "\"a\" \"b\"\r\n", "get \"a\"").err(),
        Some(MinikvError::Server(ServerError::InvalidLogFile))
    );
    let kv = Minikv::new("l".into(), "d".into(), "\"a\" \"b\"\r\n\"c\" \"d\"\n", "set \"a\"\n").unwrap();
    assert_eq!(kv.length(), "1");
    assert_eq!(kv.get(Some("c".to_string())), Ok("d".to_string()));
}

#[test]
fn obtener_data_se_detiene_en_la_primera_linea_invalida() {
    let mut kv = Minikv::new_testing();
    let r = kv.obtener_data("\"a\" \"1\"\nmal\n\"b\" \"2\"\n");
    assert_eq!(r, Err(MinikvError::Server(ServerError::InvalidDataFile)));
    assert_eq!(kv.get(Some("a".to_string())), Ok("1".to_string()));
    assert_eq!(
        kv.get(Some("b".to_string())),
        Err(MinikvError::Client(ClientError::NotFound))
    );
}

#[test]
fn aplicar_log_lee_clave_y_valor_escapados() {
    let mut kv = Minikv::new_testing();
    kv.aplicar_log("set \"k\\\"x\" \"v\\\"w\"\n").unwrap();
    assert_eq!(kv.get(Some("k\"x".to_string())), Ok("v\"w".to_string()));
    assert_eq!(
        kv.aplicar_log("borrar \"k\"\n"),
        Err(MinikvError::Server(ServerError::InvalidLogFile))
    );
}

#[test]
fn parsear_linea_de_log() {
    let c = parsear_linea_y_construir_comando("set \"k\" \"v\"").unwrap();
    assert_eq!(c.nombre, "set ");
    assert_eq!(c.clave, Some("k".to_string()));
    assert_eq!(c.valor, Some("v".to_string()));
    let c = parsear_linea_y_construir_comando("set \"k\"").unwrap();
    assert_eq!(c.clave, Some("k".to_string()));
    assert_eq!(c.valor, None);
    // any line after `set ` reads as the plain form does
    let c = parsear_linea_y_construir_comando("set ").unwrap();
    assert_eq!(c.clave, Some("".to_string()));
    assert_eq!(c.valor, None);
    let c = parsear_linea_y_construir_comando("set x").unwrap();
    assert_eq!(c.clave, Some("x".to_string()));
    assert_eq!(c.valor, None);
    let c = parsear_linea_y_construir_comando("set \"k\" \"v\" \"w\"").unwrap();
    assert_eq!(c.clave, Some("k".to_string()));
    assert_eq!(c.valor, Some("v".to_string()));
    let c = parsear_linea_y_construir_comando("set \"a\\b\" \"c\\\"d\"").unwrap();
    assert_eq!(c.clave, Some("a\\b".to_string()));
    assert_eq!(c.valor, Some("c\"d".to_string()));
    // the exact form
    let c = parsear_linea_y_construir_comando("set! \"a\\\\b\\n\" \"\\\"\"").unwrap();
    assert_eq!(c.clave, Some("a\\b\n".to_string()));
    assert_eq!(c.valor, Some("\"".to_string()));
    assert!(parsear_linea_y_construir_comando("set! \"k\" x").is_err());
    assert!(parsear_linea_y_construir_comando("get \"k\"").is_err());
    assert!(parsear_linea_y_construir_comando("set").is_err());
}

#[test]
fn append_log_formatos() {
    let mut log = String::from("x");
    append_log("k\"", &Some("v\"w".to_string()), &mut log);
    append_log("a\\b", &None, &mut log);
    assert_eq!(log, "xset \"k\\\"\" \"v\\\"w\"\nset \"a\\b\"\n");
    // where the plain line would not read back, the exact form
    let mut log = String::new();
    append_log("k", &Some("v\"".to_string()), &mut log);
    append_log("\"", &None, &mut log);
    append_log("a\\b", &Some("c\nd".to_string()), &mut log);
    assert_eq!(
        log,
        "set! \"k\" \"v\\\"\"\nset! \"\\\"\"\nset! \"a\\\\b\" \"c\\nd\"\n"
    );
}

#[test]
fn lineas_sueltas_de_archivos() {
    // lines that the plain reading accepts though no write produces them
    let kv = Minikv::new(
        "l".into(),
        "d".into(),
        "\"a\" \"b\" \"c\"\n\"d\" \"e\n\"a\\b\" \"c\"\n",
        "set x\nset \"d\" \"f\" \"g\"\n",
    )
    .unwrap();
    assert_eq!(kv.get(Some("a".to_string())), Ok("b".to_string()));
    assert_eq!(kv.get(Some("d".to_string())), Ok("f".to_string()));
    assert_eq!(kv.get(Some("a\\b".to_string())), Ok("c".to_string()));
    assert_eq!(kv.length(), "3");
    let mut kv2 = Minikv::new_testing();
    kv2.obtener_data("\"x\" \"1\"\n").unwrap();
    kv2.aplicar_log("set x\n").unwrap();
    assert_eq!(kv2.length(), "0");
}

#[test]
fn set_tras_registro_respeta_el_registro() {
    let mut kv = Minikv::new_testing();
    assert_eq!(
        kv.set_tras_registro(Some("k".to_string()), Some("v".to_string()), false),
        Err(MinikvError::Server(ServerError::InvalidDataFile))
    );
    assert_eq!(kv.length(), "0");
    assert_eq!(
        kv.set_tras_registro(None, Some("v".to_string()), false),
        Err(MinikvError::Client(ClientError::MissingArgument))
    );
    assert_eq!(
        kv.set_tras_registro(Some("k".to_string()), Some("v".to_string()), true),
        Ok("OK".to_string())
    );
    assert_eq!(kv.get(Some("k".to_string())), Ok("v".to_string()));
    assert_eq!(
        kv.set_tras_registro(Some("k".to_string()), None, true),
        Ok("OK".to_string())
    );
    assert_eq!(kv.length(), "0");
}

#[test]
fn resultado_de_escritura_fallida() {
    assert_eq!(
        resultado_de_escritura(false, Ok("OK".to_string())),
        Err(MinikvError::Server(ServerError::InvalidDataFile))
    );
    assert_eq!(
        resultado_de_escritura(true, Ok("OK".to_string())),
        Ok("OK".to_string())
    );
    assert_eq!(
        resultado_de_escritura(true, Err(MinikvError::Client(ClientError::NotFound))),
        Err(MinikvError::Client(ClientError::NotFound))
    );
}

#[test]
fn leer_par_de_lineas() {
    let v: Vec<char> = "\"a\\\"b\" \"c\"".chars().collect();
    assert_eq!(
        leer_par_exec(&v, 0),
        Some(("a\"b".to_string(), Some("c".to_string())))
    );
    let v: Vec<char> = "xx\"a\"".chars().collect();
    assert_eq!(leer_par_exec(&v, 2), Some(("a".to_string(), None)));
    let v: Vec<char> = "\"a\"\"b\"".chars().collect();
    assert_eq!(leer_par_exec(&v, 0), None);
}

#[test]
fn snapshot_con_barras_saltos_y_comillas() {
    let mut log = String::new();
    let mut kv = Minikv::new_testing();
    let pares = [
        ("\"hola\"", "\"mundo\""),
        ("k\" ", "v"),
        ("", ""),
        ("a\\", "b\\\""),
        ("linea\nnueva", "\r\n\r"),
    ];
    for (k, v) in pares {
        kv.set(Some(k.to_string()), Some(v.to_string()), &mut log).unwrap();
    }
    let otro = Minikv::new("l".into(), "d".into(), &kv.contenido_snapshot(), "").unwrap();
    let desde_log = Minikv::new("l".into(), "d".into(), "", &log).unwrap();
    for (k, v) in pares {
        assert_eq!(otro.get(Some(k.to_string())), Ok(v.to_string()));
        assert_eq!(desde_log.get(Some(k.to_string())), Ok(v.to_string()));
    }
    assert_eq!(otro.length(), "5");
    assert_eq!(desde_log.length(), "5");
}
