//! The server's side of the line protocol: how a request line is split into
//! words, and what the server does about an error.
use crate::comando::opcion;
use crate::minikv_errors::{ClientError, MinikvError, ServerError};
use crate::texto::{
    agregar_caracter, agregar_texto, caracteres, blanco, limites, recortar, recortar_espacios,
    vistas,
};
use vstd::prelude::*;

verus! {

/// The words of `s`, read after the words `args` and the partial word
/// `actual`. Words are separated by spaces outside double quotes; quotes
/// are dropped, and a backslash takes the next character as it is. A
/// separating space ends a word only when the word is not all white space.
pub open spec fn palabras_desde(
    s: Seq<char>,
    args: Seq<Seq<char>>,
    actual: Seq<char>,
    entre_comillas: bool,
    escapado: bool,
) -> Seq<Seq<char>>
    decreases s.len(),
{
    if s.len() == 0 {
        if actual.len() > 0 {
            args.push(actual)
        } else {
            args
        }
    } else {
        let c = s[0];
        let resto = s.drop_first();
        if escapado {
            palabras_desde(resto, args, actual.push(c), entre_comillas, false)
        } else if c == '\\' {
            palabras_desde(resto, args, actual, entre_comillas, true)
        } else if c == '"' {
            palabras_desde(resto, args, actual, !entre_comillas, false)
        } else if c == ' ' && !entre_comillas {
            if recortar(actual, blanco()).len() > 0 {
                palabras_desde(resto, args.push(actual), seq![], entre_comillas, false)
            } else {
                palabras_desde(resto, args, actual, entre_comillas, false)
            }
        } else {
            palabras_desde(resto, args, actual.push(c), entre_comillas, false)
        }
    }
}

/// The words of a request line, trimmed of white space first.
pub open spec fn palabras(linea: Seq<char>) -> Seq<Seq<char>> {
    palabras_desde(recortar(linea, blanco()), seq![], seq![], false, false)
}

/// Splits a request line into its words; more than three is an error.
pub fn parsear_linea(line: String) -> (r: Result<Vec<String>, MinikvError>)
    ensures
        match r {
            Ok(args) => vistas(args@) == palabras(line@) && palabras(line@).len() <= 3,
            Err(e) => palabras(line@).len() > 3 && e == MinikvError::Client(
                ClientError::ExtraArgument,
            ),
        },
{
    let v = caracteres(line.as_str());
    let (a, b) = limites(&v, 0, v.len(), false);
    assert(v@.subrange(0, v@.len() as int) =~= v@);
    let ghost t = v@.subrange(a as int, b as int);
    let mut args: Vec<String> = Vec::new();
    let mut actual = String::new();
    let mut entre_comillas = false;
    let mut escapado = false;
    let mut i = a;
    assert(t.skip(0) =~= t);
    assert(vistas(args@) =~= Seq::<Seq<char>>::empty());
    while i < b
        invariant
            a <= i <= b <= v.len(),
            t == v@.subrange(a as int, b as int),
            t == recortar(line@, blanco()),
            palabras(line@) == palabras_desde(
                t.skip(i - a),
                vistas(args@),
                actual@,
                entre_comillas,
                escapado,
            ),
        decreases b - i,
    {
        let ghost resto = t.skip(i - a);
        assert(resto.drop_first() =~= t.skip(i - a + 1));
        assert(resto[0] == v@[i as int]);
        let c = v[i];
        if escapado {
            agregar_caracter(&mut actual, c);
            escapado = false;
        } else if c == '\\' {
            escapado = true;
        } else if c == '"' {
            entre_comillas = !entre_comillas;
        } else if c == ' ' && !entre_comillas {
            let recortada = recortar_espacios(actual.as_str());
            if !recortada.as_str().is_empty() {
                let ghost antes = args@;
                args.push(actual);
                assert(vistas(args@) =~= vistas(antes).push(actual@));
                actual = String::new();
            }
        } else {
            agregar_caracter(&mut actual, c);
        }
        i = i + 1;
    }
    assert(t.skip(b - a) =~= Seq::<char>::empty());
    if !actual.as_str().is_empty() {
        let ghost antes = args@;
        args.push(actual);
        assert(vistas(args@) =~= vistas(antes).push(actual@));
    }
    if args.len() > 3 {
        return Err(MinikvError::from(ClientError::ExtraArgument));
    }
    Ok(args)
}

/// The line that tells a client of an error: `ERROR "<message>"` and a
/// line break.
pub open spec fn aviso_de_error(texto: Seq<char>) -> Seq<char> {
    "ERROR \""@ + texto + "\"\n"@
}

/// What the server does about an error: what it answers the client, what
/// it writes on its own error output, whether it warns the listener that
/// accepts connections, and whether it goes on serving the connection.
pub struct AccionError {
    pub respuesta: Option<String>,
    pub registro: Option<String>,
    pub aviso: Option<ServerError>,
    pub continuar: bool,
}

/// The text of `ERROR "<texto>"` followed by `fin`.
fn linea_error(texto: &str, fin: &str) -> (r: String)
    ensures
        r@ == "ERROR \""@ + texto@ + fin@,
{
    let mut r = String::new();
    agregar_texto(&mut r, "ERROR \"");
    agregar_texto(&mut r, texto);
    agregar_texto(&mut r, fin);
    assert(r@ =~= "ERROR \""@ + texto@ + fin@);
    r
}

/// Decides what to do about an error: a client's or a connection's error
/// is answered and the connection goes on (a connection's is also written
/// on the error output); a server's error is written on the error output,
/// passed to the listener, and ends the connection.
pub fn evaluar_error(error: MinikvError) -> (r: AccionError)
    ensures
        match error {
            MinikvError::Client(e) => {
                &&& opcion(r.respuesta) == Some(aviso_de_error(e.texto()))
                &&& r.registro is None
                &&& r.aviso is None
                &&& r.continuar
            },
            MinikvError::Communication(e) => {
                &&& opcion(r.respuesta) == Some(aviso_de_error(e.texto()))
                &&& opcion(r.registro) == Some(
                    "ERROR \""@ + aviso_de_error(e.texto()) + "\""@,
                )
                &&& r.aviso is None
                &&& r.continuar
            },
            MinikvError::Server(e) => {
                &&& r.respuesta is None
                &&& opcion(r.registro) == Some("ERROR \""@ + e.texto() + "\""@)
                &&& r.aviso == Some(e)
                &&& !r.continuar
            },
        },
{
    match error {
        MinikvError::Client(e) => {
            let m = e.mensaje();
            let respuesta = linea_error(m.as_str(), "\"\n");
            AccionError { respuesta: Some(respuesta), registro: None, aviso: None, continuar: true }
        },
        MinikvError::Communication(e) => {
            let m = e.mensaje();
            let mensaje = linea_error(m.as_str(), "\"\n");
            let registro = linea_error(mensaje.as_str(), "\"");
            AccionError {
                respuesta: Some(mensaje),
                registro: Some(registro),
                aviso: None,
                continuar: true,
            }
        },
        MinikvError::Server(e) => {
            let m = e.mensaje();
            let registro = linea_error(m.as_str(), "\"");
            AccionError { respuesta: None, registro: Some(registro), aviso: Some(e), continuar: false }
        },
    }
}

} // verus!
