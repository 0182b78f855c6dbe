use minikv_server::texto::{
    agregar_caracter, agregar_texto, cadena, caracteres, desescapado, dividir, dividir_lineas,
    es_espacio_exec, escapado, escapado_todo, leer_cadena, limites, numeral, recortar_espacios,
    sin_salto, tramo,
};

#[test]
fn agregar_caracter_agrega_al_final() {
    let mut s = String::from("ab");
    agregar_caracter(&mut s, 'ñ');
    assert_eq!(s, "abñ");
    agregar_texto(&mut s, "xy");
    assert_eq!(s, "abñxy");
}

#[test]
fn caracteres_y_cadena() {
    let v = caracteres("añb");
    assert_eq!(v, vec!['a', 'ñ', 'b']);
    assert_eq!(cadena(&v, 1, 3), "ñb");
}

#[test]
fn numerales() {
    assert_eq!(numeral(0), "0");
    assert_eq!(numeral(7), "7");
    assert_eq!(numeral(10), "10");
    assert_eq!(numeral(4096), "4096");
    assert_eq!(numeral(usize::MAX), format!("{}", usize::MAX));
}

#[test]
fn escapar_comillas_barras_y_saltos() {
    assert_eq!(escapado_todo("a\"b\\c\nd"), "a\\\"b\\\\c\\nd");
    assert_eq!(escapado_todo(""), "");
}

#[test]
fn escapar_solo_comillas() {
    assert_eq!(escapado("a\"b\\c\nd"), "a\\\"b\\c\nd");
    assert_eq!(desescapado("a\\\"b\\\\\""), "a\"b\\\"");
    assert_eq!(desescapado(&escapado("\\\"x\\")), "\\\"x\\");
}

#[test]
fn dividir_por_separador() {
    let v = caracteres("a\" \"b\" \"\" \"");
    assert_eq!(dividir(&v, 0, v.len()), vec!["a", "b", "", ""]);
    let v = caracteres("sin separador");
    assert_eq!(dividir(&v, 0, v.len()), vec!["sin separador"]);
}

#[test]
fn tramos_y_saltos() {
    let v = caracteres("abcd");
    assert_eq!(tramo(&v, 1, 3), vec!['b', 'c']);
    assert!(sin_salto(&v));
    assert!(!sin_salto(&caracteres("a\nb")));
}

#[test]
fn leer_cadena_desescapa_hasta_la_comilla() {
    let v = caracteres("\"a\\\"b\\\\\\nc\" resto");
    assert_eq!(leer_cadena(&v, 1), Some(("a\"b\\\nc".to_string(), 11)));
    let v = caracteres("\"sin cierre\\\"");
    assert_eq!(leer_cadena(&v, 1), None);
    let v = caracteres("\"x\\");
    assert_eq!(leer_cadena(&v, 1), None);
}

#[test]
fn leer_cadena_de_lo_escapado() {
    let original = "k\" \\ \"\n\" \"";
    let texto = format!("\"{}\"", escapado_todo(original));
    let v = caracteres(&texto);
    assert_eq!(leer_cadena(&v, 1), Some((original.to_string(), v.len())));
}

#[test]
fn recortes() {
    assert_eq!(recortar_espacios(" \t\u{3000}hola mundo\n\u{85}"), "hola mundo");
    assert_eq!(recortar_espacios("   "), "");
    assert!(es_espacio_exec('\u{2009}'));
    assert!(!es_espacio_exec('\u{200B}'));
    let v = caracteres("  a b\t");
    assert_eq!(limites(&v, 0, v.len(), false), (2, 5));
    let v = caracteres("   ");
    let (a, b) = limites(&v, 0, v.len(), false);
    assert_eq!(a, b);
    let v = caracteres("\"\"a\"b\"");
    assert_eq!(limites(&v, 0, v.len(), true), (2, 5));
}

#[test]
fn lineas_como_bufread() {
    assert_eq!(dividir_lineas(""), Vec::<String>::new());
    assert_eq!(dividir_lineas("\n"), vec![""]);
    assert_eq!(dividir_lineas("a\r\nb"), vec!["a", "b"]);
    assert_eq!(dividir_lineas("a\nb\n"), vec!["a", "b"]);
    assert_eq!(dividir_lineas("a\r"), vec!["a\r"]);
    assert_eq!(dividir_lineas("\n\nc"), vec!["", "", "c"]);
}
