//! A command of the protocol: a name, and an optional key and value.
use crate::texto::{blanco, recortar, recortar_espacios};
use vstd::prelude::*;
use vstd::string::StringExecFns;

verus! {

/// The view of an optional string.
pub open spec fn opcion(o: Option<String>) -> Option<Seq<char>> {
    match o {
        Some(s) => Some(s@),
        None => None,
    }
}

/// What a valid command can hold.
pub struct Comando {
    pub nombre: String,
    pub clave: Option<String>,
    pub valor: Option<String>,
}

impl Comando {
    /// A command with the name `nombre_comando`, and neither key nor value.
    pub fn new(nombre_comando: String) -> (c: Comando)
        ensures
            c.nombre@ == nombre_comando@,
            c.clave is None,
            c.valor is None,
    {
        Comando { nombre: nombre_comando, clave: None, valor: None }
    }

    /// The command whose name, key and value are the first three words of
    /// `args`, as far as there are any (the name is empty if there is none).
    pub fn parsear_comando(args: &[String]) -> (c: Comando)
        ensures
            c.nombre@ == (if args@.len() > 0 {
                args@[0]@
            } else {
                Seq::<char>::empty()
            }),
            opcion(c.clave) == (if args@.len() > 1 {
                Some(args@[1]@)
            } else {
                None
            }),
            opcion(c.valor) == (if args@.len() > 2 {
                Some(args@[2]@)
            } else {
                None
            }),
    {
        let keyword = if args.len() > 0 {
            args[0].clone()
        } else {
            String::new()
        };
        let mut comando = Comando::new(keyword);
        if args.len() > 1 {
            comando.clave = Some(args[1].clone());
        }
        if args.len() > 2 {
            comando.valor = Some(args[2].clone());
        }
        comando
    }

    /// Whether the command writes: its name, trimmed of white space, is `set`.
    pub fn es_escritura(&self) -> (r: bool)
        ensures
            r == (recortar(self.nombre@, blanco()) == "set"@),
    {
        let nombre = recortar_espacios(self.nombre.as_str());
        nombre == String::from_str("set")
    }
}

} // verus!
