//! The key-value store: its commands, the lines of its append-only log and
//! of its snapshot file, and how it is rebuilt from both.
use crate::comando::{opcion, Comando};
use crate::diccionario::Diccionario;
use crate::minikv_errors::{ClientError, MinikvError, ServerError};
use crate::texto::{
    agregar_escapado, agregar_escapado_todo, agregar_texto, blanco, caracteres, comilla, decimal,
    desescapado, desescapar, dividir, dividir_lineas, escapar, escapar_todo, leer_cadena,
    leer_escapado, limites, lineas, numeral, partes, recortar, recortar_espacios, sin_salto, tramo,
    vistas,
};
use vstd::prelude::*;
use vstd::string::StringExecFns;

verus! {

// ---------------------------------------------------------------------
// The log and snapshot formats
// ---------------------------------------------------------------------

/// The log line of a write in its plain form: `set "key" "value"` for an
/// association, `set "key"` for a removal, each `"` of key and value
/// written `\"`.
pub open spec fn linea_log_simple(clave: Seq<char>, valor: Option<Seq<char>>) -> Seq<char> {
    match valor {
        Some(v) => seq!['s', 'e', 't', ' ', '"'] + escapar(clave) + seq!['"', ' ', '"'] + escapar(v)
            + seq!['"', '\n'],
        None => seq!['s', 'e', 't', ' ', '"'] + escapar(clave) + seq!['"', '\n'],
    }
}

/// The log line of a write in its exact form, for writes that the plain
/// form does not carry back: `set! ` and the key and value quoted, with
/// `"`, `\` and line breaks escaped (`escapar_todo`).
pub open spec fn linea_log_exacta(clave: Seq<char>, valor: Option<Seq<char>>) -> Seq<char> {
    match valor {
        Some(v) => seq!['s', 'e', 't', '!', ' ', '"'] + escapar_todo(clave) + seq!['"', ' ', '"']
            + escapar_todo(v) + seq!['"', '\n'],
        None => seq!['s', 'e', 't', '!', ' ', '"'] + escapar_todo(clave) + seq!['"', '\n'],
    }
}

/// Whether a log line starts with `set `.
pub open spec fn empieza_con_set(linea: Seq<char>) -> bool {
    linea.len() >= 4 && linea[0] == 's' && linea[1] == 'e' && linea[2] == 't' && linea[3] == ' '
}

/// Whether a log line starts with `set! `, the mark of the exact form.
pub open spec fn empieza_con_set_exacto(linea: Seq<char>) -> bool {
    linea.len() >= 5 && linea[0] == 's' && linea[1] == 'e' && linea[2] == 't' && linea[3] == '!'
        && linea[4] == ' '
}

/// How a plain log line reads: after `set `, trimmed of quotes at both
/// ends and split at each `" "`; the first piece is the key, the second,
/// if there is one, the value, each with `\"` read as `"`. Any line that
/// starts with `set ` reads so.
pub open spec fn leer_log_simple(linea: Seq<char>) -> Option<(Seq<char>, Option<Seq<char>>)> {
    if empieza_con_set(linea) {
        let p = partes(recortar(linea.skip(4), comilla()));
        Some(
            (
                desescapar(p[0]),
                if p.len() > 1 {
                    Some(desescapar(p[1]))
                } else {
                    None
                },
            ),
        )
    } else {
        None
    }
}

/// Whether the plain log line of a write holds no line break of its own
/// and reads back as that write.
pub open spec fn log_simple_fiel(clave: Seq<char>, valor: Option<Seq<char>>) -> bool {
    &&& !clave.contains('\n')
    &&& match valor {
        Some(v) => !v.contains('\n'),
        None => true,
    }
    &&& leer_log_simple(linea_log_simple(clave, valor).drop_last()) == Some((clave, valor))
}

/// The log line of a write: the plain form wherever it carries the write
/// back, the exact form elsewhere.
pub open spec fn linea_log(clave: Seq<char>, valor: Option<Seq<char>>) -> Seq<char> {
    if log_simple_fiel(clave, valor) {
        linea_log_simple(clave, valor)
    } else {
        linea_log_exacta(clave, valor)
    }
}

/// A quoted key, optionally followed by a space and a quoted value, and
/// nothing else: the key and the value read back; `None` for any other
/// text.
pub open spec fn leer_par(r: Seq<char>) -> Option<(Seq<char>, Option<Seq<char>>)> {
    if r.len() > 0 && r[0] == '"' {
        match leer_escapado(r.drop_first(), seq![]) {
            None => None,
            Some((k, r1)) => if r1.len() == 0 {
                Some((k, None))
            } else if r1.len() >= 2 && r1[0] == ' ' && r1[1] == '"' {
                match leer_escapado(r1.skip(2), seq![]) {
                    Some((v, r2)) => if r2.len() == 0 {
                        Some((k, Some(v)))
                    } else {
                        None
                    },
                    None => None,
                }
            } else {
                None
            },
        }
    } else {
        None
    }
}

/// The key and optional value that a log line names, or `None` if it is
/// not a log line: a line in the exact form reads as that form does;
/// any other line starting with `set ` reads as a plain line.
pub open spec fn comando_de_log(linea: Seq<char>) -> Option<(Seq<char>, Option<Seq<char>>)> {
    if empieza_con_set_exacto(linea) {
        leer_par(linea.skip(5))
    } else {
        leer_log_simple(linea)
    }
}

/// The map after one log line, or `None` if the line is not a log line.
pub open spec fn aplicar_linea_log(m: Map<Seq<char>, Seq<char>>, linea: Seq<char>) -> Option<
    Map<Seq<char>, Seq<char>>,
> {
    match comando_de_log(linea) {
        Some((k, Some(v))) => Some(m.insert(k, v)),
        Some((k, None)) => Some(m.remove(k)),
        None => None,
    }
}

/// The map after the log lines `ls`, applied in order, and whether all of
/// them were log lines; the first line that is not ends the replay.
pub open spec fn aplicar_lineas_log(m: Map<Seq<char>, Seq<char>>, ls: Seq<Seq<char>>) -> (
    Map<Seq<char>, Seq<char>>,
    bool,
)
    decreases ls.len(),
{
    if ls.len() == 0 {
        (m, true)
    } else {
        match aplicar_linea_log(m, ls[0]) {
            Some(m2) => aplicar_lineas_log(m2, ls.drop_first()),
            None => (m, false),
        }
    }
}

/// The line of the snapshot file for one pair in its plain form:
/// `"key" "value"`, each `"` written `\"`.
pub open spec fn linea_data_simple(clave: Seq<char>, valor: Seq<char>) -> Seq<char> {
    seq!['"'] + escapar(clave) + seq!['"', ' ', '"'] + escapar(valor) + seq!['"', '\n']
}

/// The line of the snapshot file for one pair in its exact form, for pairs
/// that the plain form does not carry back: `!"key" "value"!`, with `"`,
/// `\` and line breaks escaped.
pub open spec fn linea_data_exacta(clave: Seq<char>, valor: Seq<char>) -> Seq<char> {
    seq!['!', '"'] + escapar_todo(clave) + seq!['"', ' ', '"'] + escapar_todo(valor) + seq![
        '"',
        '!',
        '\n',
    ]
}

/// How a plain snapshot line reads: trimmed of quotes at both ends and
/// split at each `" "`; the first two pieces are key and value, each with
/// `\"` read as `"`. A line with no quote to trim at either end, or with
/// fewer than two pieces, is invalid.
pub open spec fn leer_data_simple(linea: Seq<char>) -> Option<(Seq<char>, Seq<char>)> {
    let t = recortar(linea, comilla());
    let p = partes(t);
    if t == linea {
        None
    } else if p.len() >= 2 {
        Some((desescapar(p[0]), desescapar(p[1])))
    } else {
        None
    }
}

/// Whether the plain snapshot line of a pair holds no line break of its
/// own and reads back as that pair.
pub open spec fn data_simple_fiel(clave: Seq<char>, valor: Seq<char>) -> bool {
    &&& !clave.contains('\n')
    &&& !valor.contains('\n')
    &&& leer_data_simple(linea_data_simple(clave, valor).drop_last()) == Some((clave, valor))
}

/// The line of the snapshot file for one pair: the plain form wherever it
/// carries the pair back, the exact form elsewhere.
pub open spec fn linea_data(clave: Seq<char>, valor: Seq<char>) -> Seq<char> {
    if data_simple_fiel(clave, valor) {
        linea_data_simple(clave, valor)
    } else {
        linea_data_exacta(clave, valor)
    }
}

/// Whether a snapshot line is in the exact form: it starts and ends with `!`.
pub open spec fn es_data_exacta(linea: Seq<char>) -> bool {
    linea.len() >= 2 && linea[0] == '!' && linea.last() == '!'
}

/// The snapshot file of the pairs `s`, one line each, in order.
pub open spec fn texto_snapshot(s: Seq<(Seq<char>, Seq<char>)>) -> Seq<char>
    decreases s.len(),
{
    if s.len() == 0 {
        seq![]
    } else {
        linea_data(s[0].0, s[0].1) + texto_snapshot(s.drop_first())
    }
}

/// The pair that a line of the snapshot file holds: a line in the exact
/// form reads as that form does; any other line reads as a plain line.
pub open spec fn par_de_data(linea: Seq<char>) -> Option<(Seq<char>, Seq<char>)> {
    if es_data_exacta(linea) {
        match leer_par(linea.subrange(1, linea.len() - 1)) {
            Some((k, Some(v))) => Some((k, v)),
            _ => None,
        }
    } else {
        leer_data_simple(linea)
    }
}

/// The map after the snapshot lines `ls`, loaded in order, and whether all
/// of them were valid; the first invalid line ends the loading.
pub open spec fn cargar_lineas_data(m: Map<Seq<char>, Seq<char>>, ls: Seq<Seq<char>>) -> (
    Map<Seq<char>, Seq<char>>,
    bool,
)
    decreases ls.len(),
{
    if ls.len() == 0 {
        (m, true)
    } else {
        match par_de_data(ls[0]) {
            Some((k, v)) => cargar_lineas_data(m.insert(k, v), ls.drop_first()),
            None => (m, false),
        }
    }
}

// ---------------------------------------------------------------------
// Answers
// ---------------------------------------------------------------------

/// The view of an answer.
pub open spec fn vista_resultado(r: Result<String, MinikvError>) -> Result<Seq<char>, MinikvError> {
    match r {
        Ok(s) => Ok(s@),
        Err(e) => Err(e),
    }
}

/// The answer to a read of `clave`: the value held for it.
pub open spec fn resultado_get(m: Map<Seq<char>, Seq<char>>, clave: Option<Seq<char>>) -> Result<
    Seq<char>,
    MinikvError,
> {
    match clave {
        None => Err(MinikvError::Client(ClientError::MissingArgument)),
        Some(c) => if m.contains_key(c) {
            Ok(m[c])
        } else {
            Err(MinikvError::Client(ClientError::NotFound))
        },
    }
}

/// The name of a command as it is matched: trimmed of white space.
pub open spec fn nombre_de(c: &Comando) -> Seq<char> {
    recortar(c.nombre@, blanco())
}

/// Whether a command asks for a snapshot, and with nothing more.
pub open spec fn pide_snapshot(c: &Comando) -> bool {
    nombre_de(c) == "snapshot"@ && c.clave is None
}

/// The key-value store.
pub struct Minikv {
    pub ruta_log: String,
    pub ruta_data: String,
    pub diccionario: Diccionario,
}

impl View for Minikv {
    type V = Map<Seq<char>, Seq<char>>;

    /// The keys and values held.
    open spec fn view(&self) -> Map<Seq<char>, Seq<char>> {
        self.diccionario@
    }
}

impl Minikv {
    /// The dictionary keeps no key twice.
    pub open spec fn bien_formado(&self) -> bool {
        self.diccionario.bien_formado()
    }

    /// The answer to a read-only command.
    pub open spec fn resultado_ejecutar(&self, c: &Comando) -> Result<Seq<char>, MinikvError> {
        let n = nombre_de(c);
        if n == "get"@ {
            if c.valor is Some {
                Err(MinikvError::Client(ClientError::ExtraArgument))
            } else {
                resultado_get(self@, opcion(c.clave))
            }
        } else if n == "snapshot"@ {
            if c.clave is Some {
                Err(MinikvError::Client(ClientError::ExtraArgument))
            } else {
                Ok("OK"@)
            }
        } else if n == "length"@ {
            if c.clave is Some {
                Err(MinikvError::Client(ClientError::ExtraArgument))
            } else {
                Ok(decimal(self@.dom().len()))
            }
        } else {
            Err(MinikvError::Client(ClientError::UnknownCommand))
        }
    }

    /// An empty store with empty file paths.
    pub fn new_testing() -> (kv: Minikv)
        ensures
            kv.bien_formado(),
            kv@ == Map::<Seq<char>, Seq<char>>::empty(),
            kv.ruta_log@ == Seq::<char>::empty(),
            kv.ruta_data@ == Seq::<char>::empty(),
    {
        Minikv { ruta_log: String::new(), ruta_data: String::new(), diccionario: Diccionario::new() }
    }

    /// The store with the given file paths, rebuilt from the contents of its
    /// snapshot file and then of its log.
    pub fn new(log: String, data: String, contenido_data: &str, contenido_log: &str) -> (r: Result<
        Minikv,
        MinikvError,
    >)
        ensures
            ({
                let (m1, ok1) = cargar_lineas_data(
                    Map::<Seq<char>, Seq<char>>::empty(),
                    lineas(contenido_data@),
                );
                let (m2, ok2) = aplicar_lineas_log(m1, lineas(contenido_log@));
                match r {
                    Ok(kv) => ok1 && ok2 && kv.bien_formado() && kv@ == m2 && kv.ruta_log@ == log@
                        && kv.ruta_data@ == data@,
                    Err(e) => (!ok1 && e == MinikvError::Server(ServerError::InvalidDataFile)) || (
                    ok1 && !ok2 && e == MinikvError::Server(ServerError::InvalidLogFile)),
                }
            }),
    {
        let mut kv = Minikv { ruta_log: log, ruta_data: data, diccionario: Diccionario::new() };
        match kv.obtener_data(contenido_data) {
            Ok(()) => {},
            Err(e) => {
                return Err(e);
            },
        }
        match kv.aplicar_log(contenido_log) {
            Ok(()) => {},
            Err(e) => {
                return Err(e);
            },
        }
        Ok(kv)
    }

    /// Loads the lines of a snapshot file into the store.
    pub fn obtener_data(&mut self, contenido: &str) -> (r: Result<(), MinikvError>)
        requires
            old(self).bien_formado(),
        ensures
            final(self).bien_formado(),
            final(self).ruta_log == old(self).ruta_log,
            final(self).ruta_data == old(self).ruta_data,
            (final(self)@, r is Ok) == cargar_lineas_data(old(self)@, lineas(contenido@)),
            r is Err ==> r == Err::<(), MinikvError>(MinikvError::Server(ServerError::InvalidDataFile)),
    {
        let ls = dividir_lineas(contenido);
        let ghost todas = vistas(ls@);
        let mut i: usize = 0;
        assert(todas.skip(0) =~= todas);
        while i < ls.len()
            invariant
                i <= ls.len(),
                todas == vistas(ls@),
                todas == lineas(contenido@),
                self.bien_formado(),
                self.ruta_log == old(self).ruta_log,
                self.ruta_data == old(self).ruta_data,
                cargar_lineas_data(old(self)@, todas) == cargar_lineas_data(self@, todas.skip(i as int)),
            decreases ls.len() - i,
        {
            let ghost resto = todas.skip(i as int);
            assert(resto.drop_first() =~= todas.skip(i + 1));
            assert(resto[0] == ls@[i as int]@);
            let v = caracteres(ls[i].as_str());
            match par_de_data_exec(&v) {
                Some((clave, valor)) => {
                    self.diccionario.insert(clave, valor);
                },
                _ => {
                    return Err(MinikvError::from(ServerError::InvalidDataFile));
                },
            }
            i = i + 1;
        }
        assert(todas.skip(i as int) =~= Seq::<Seq<char>>::empty());
        Ok(())
    }

    /// Replays the lines of a log on the store.
    pub fn aplicar_log(&mut self, contenido: &str) -> (r: Result<(), MinikvError>)
        requires
            old(self).bien_formado(),
        ensures
            final(self).bien_formado(),
            final(self).ruta_log == old(self).ruta_log,
            final(self).ruta_data == old(self).ruta_data,
            (final(self)@, r is Ok) == aplicar_lineas_log(old(self)@, lineas(contenido@)),
            r is Err ==> r == Err::<(), MinikvError>(MinikvError::Server(ServerError::InvalidLogFile)),
    {
        let ls = dividir_lineas(contenido);
        let ghost todas = vistas(ls@);
        let mut i: usize = 0;
        assert(todas.skip(0) =~= todas);
        while i < ls.len()
            invariant
                i <= ls.len(),
                todas == vistas(ls@),
                todas == lineas(contenido@),
                self.bien_formado(),
                self.ruta_log == old(self).ruta_log,
                self.ruta_data == old(self).ruta_data,
                aplicar_lineas_log(old(self)@, todas) == aplicar_lineas_log(self@, todas.skip(i as int)),
            decreases ls.len() - i,
        {
            let ghost resto = todas.skip(i as int);
            assert(resto.drop_first() =~= todas.skip(i + 1));
            assert(resto[0] == ls@[i as int]@);
            let comando = match parsear_linea_y_construir_comando(ls[i].as_str()) {
                Ok(c) => c,
                Err(e) => {
                    return Err(e);
                },
            };
            if let Some(c) = comando.clave {
                match comando.valor {
                    Some(v) => {
                        self.diccionario.insert(c, v);
                    },
                    None => {
                        self.diccionario.remove(&c);
                    },
                }
            } else {
                return Err(MinikvError::from(ServerError::InvalidLogFile));
            }
            i = i + 1;
        }
        assert(todas.skip(i as int) =~= Seq::<Seq<char>>::empty());
        Ok(())
    }

    /// Answers a read-only command: `get`, `snapshot` or `length`. For a
    /// snapshot, `datos_snapshot` receives the text of the snapshot file
    /// that the caller is to write; it is `None` otherwise.
    pub fn ejecutar_comando(&self, comando: Comando, datos_snapshot: &mut Option<String>) -> (r:
        Result<String, MinikvError>)
        requires
            self.bien_formado(),
        ensures
            vista_resultado(r) == self.resultado_ejecutar(&comando),
            opcion(*final(datos_snapshot)) == (if pide_snapshot(&comando) {
                Some(texto_snapshot(self.diccionario.pares()))
            } else {
                None
            }),
    {
        proof {
            reveal_strlit("get");
            reveal_strlit("snapshot");
            reveal_strlit("length");
            assert("get"@.len() == 3);
            assert("snapshot"@.len() == 8);
            assert("get"@ != "snapshot"@);
        }
        let ghost c0 = comando;
        *datos_snapshot = None;
        let nombre = recortar_espacios(comando.nombre.as_str());
        if nombre == String::from_str("get") {
            if comando.valor.is_some() {
                Err(MinikvError::from(ClientError::ExtraArgument))
            } else {
                self.get(comando.clave)
            }
        } else if nombre == String::from_str("snapshot") {
            if comando.clave.is_some() {
                Err(MinikvError::from(ClientError::ExtraArgument))
            } else {
                *datos_snapshot = Some(self.contenido_snapshot());
                Ok(String::from_str("OK"))
            }
        } else if nombre == String::from_str("length") {
            if comando.clave.is_some() {
                Err(MinikvError::from(ClientError::ExtraArgument))
            } else {
                Ok(self.length())
            }
        } else {
            Err(MinikvError::from(ClientError::UnknownCommand))
        }
    }

    /// With a key and a value, holds the value for the key; with a key
    /// alone, drops the key. The write is first appended to the log
    /// `archivo`. Without a key, nothing changes.
    pub fn set(&mut self, clave: Option<String>, valor: Option<String>, archivo: &mut String) -> (r:
        Result<String, MinikvError>)
        requires
            old(self).bien_formado(),
        ensures
            final(self).bien_formado(),
            final(self).ruta_log == old(self).ruta_log,
            final(self).ruta_data == old(self).ruta_data,
            match clave {
                None => {
                    &&& r == Err::<String, MinikvError>(
                        MinikvError::Client(ClientError::MissingArgument),
                    )
                    &&& final(self)@ == old(self)@
                    &&& final(archivo)@ == old(archivo)@
                },
                Some(c) => {
                    &&& vista_resultado(r) == Ok::<Seq<char>, MinikvError>("OK"@)
                    &&& final(archivo)@ == old(archivo)@ + linea_log(c@, opcion(valor))
                    &&& final(self)@ == match valor {
                        Some(v) => old(self)@.insert(c@, v@),
                        None => old(self)@.remove(c@),
                    }
                },
            },
    {
        if let Some(c) = clave {
            append_log(c.as_str(), &valor, archivo);
            match valor {
                Some(v) => {
                    self.diccionario.insert(c, v);
                },
                None => {
                    self.diccionario.remove(&c);
                },
            }
        } else {
            return Err(MinikvError::from(ClientError::MissingArgument));
        }
        Ok(String::from_str("OK"))
    }

    /// A write whose log line the caller has already tried to store, with
    /// `registrado` telling whether that worked: without a key, a missing
    /// argument; with a key whose line was not stored, an invalid data file
    /// and no change; otherwise the write, as `set` makes it.
    pub fn set_tras_registro(&mut self, clave: Option<String>, valor: Option<String>, registrado: bool) -> (r:
        Result<String, MinikvError>)
        requires
            old(self).bien_formado(),
        ensures
            final(self).bien_formado(),
            final(self).ruta_log == old(self).ruta_log,
            final(self).ruta_data == old(self).ruta_data,
            match clave {
                None => {
                    &&& r == Err::<String, MinikvError>(
                        MinikvError::Client(ClientError::MissingArgument),
                    )
                    &&& final(self)@ == old(self)@
                },
                Some(c) => if registrado {
                    &&& vista_resultado(r) == Ok::<Seq<char>, MinikvError>("OK"@)
                    &&& final(self)@ == match valor {
                        Some(v) => old(self)@.insert(c@, v@),
                        None => old(self)@.remove(c@),
                    }
                } else {
                    &&& r == Err::<String, MinikvError>(
                        MinikvError::Server(ServerError::InvalidDataFile),
                    )
                    &&& final(self)@ == old(self)@
                },
            },
    {
        if clave.is_none() {
            return Err(MinikvError::from(ClientError::MissingArgument));
        }
        if !registrado {
            return resultado_de_escritura(false, Ok(String::new()));
        }
        if let Some(c) = clave {
            match valor {
                Some(v) => {
                    self.diccionario.insert(c, v);
                },
                None => {
                    self.diccionario.remove(&c);
                },
            }
        }
        Ok(String::from_str("OK"))
    }

    /// The value held for the key.
    pub fn get(&self, clave: Option<String>) -> (r: Result<String, MinikvError>)
        requires
            self.bien_formado(),
        ensures
            vista_resultado(r) == resultado_get(self@, opcion(clave)),
    {
        if let Some(c) = clave {
            match self.diccionario.get(&c) {
                Some(valor) => Ok(valor.clone()),
                None => Err(MinikvError::from(ClientError::NotFound)),
            }
        } else {
            Err(MinikvError::from(ClientError::MissingArgument))
        }
    }

    /// The text of the snapshot file: one line per pair held.
    pub fn contenido_snapshot(&self) -> (r: String)
        ensures
            r@ == texto_snapshot(self.diccionario.pares()),
    {
        let ghost s = self.diccionario.pares();
        let mut r = String::new();
        let mut i: usize = 0;
        let n = self.diccionario.len();
        assert(s.skip(0) =~= s);
        while i < n
            invariant
                i <= n,
                n == s.len(),
                s == self.diccionario.pares(),
                texto_snapshot(s) == r@ + texto_snapshot(s.skip(i as int)),
            decreases n - i,
        {
            let ghost antes = r@;
            let (k, v) = self.diccionario.entrada(i);
            agregar_linea_data(&mut r, k, v);
            proof {
                assert(s.skip(i as int).drop_first() =~= s.skip(i + 1));
                assert(r@ =~= antes + linea_data(s[i as int].0, s[i as int].1));
            }
            i = i + 1;
        }
        assert(s.skip(i as int) =~= Seq::<(Seq<char>, Seq<char>)>::empty());
        assert(r@ =~= texto_snapshot(s));
        r
    }

    /// The number of keys held, in decimal.
    pub fn length(&self) -> (r: String)
        requires
            self.bien_formado(),
        ensures
            r@ == decimal(self@.dom().len()),
    {
        numeral(self.diccionario.len())
    }
}

/// Whether what a line read back is the key `clave` and the value `valor`.
fn mismo_par(leido: &Option<(String, Option<String>)>, clave: &str, valor: &Option<String>) -> (r:
    bool)
    ensures
        r == (vista_par(*leido) == Some((clave@, opcion(*valor)))),
{
    match leido {
        None => false,
        Some((k, vo)) => {
            let c = String::from_str(clave);
            if !(*k == c) {
                return false;
            }
            match (vo, valor) {
                (Some(a), Some(b)) => *a == *b,
                (None, None) => true,
                _ => false,
            }
        },
    }
}

/// Appends to `archivo` the log line of a write of `valor` for `clave`.
pub fn append_log(clave: &str, valor: &Option<String>, archivo: &mut String)
    ensures
        final(archivo)@ == old(archivo)@ + linea_log(clave@, opcion(*valor)),
{
    let ghost vo = opcion(*valor);
    let kc = caracteres(clave);
    proof {
        reveal_strlit("set \"");
        reveal_strlit("set! \"");
        reveal_strlit("\" \"");
        reveal_strlit("\"");
        reveal_strlit("\"\n");
        reveal_strlit("\n");
        assert(kc@.subrange(0, kc@.len() as int) =~= kc@);
    }
    let mut simple = String::new();
    agregar_texto(&mut simple, "set \"");
    agregar_escapado(&mut simple, &kc, 0, kc.len());
    let mut sin_saltos = sin_salto(&kc);
    match valor {
        Some(v) => {
            let vc = caracteres(v.as_str());
            assert(vc@.subrange(0, vc@.len() as int) =~= vc@);
            agregar_texto(&mut simple, "\" \"");
            agregar_escapado(&mut simple, &vc, 0, vc.len());
            agregar_texto(&mut simple, "\"");
            sin_saltos = sin_saltos && sin_salto(&vc);
        },
        None => {
            agregar_texto(&mut simple, "\"");
        },
    }
    assert(simple@ =~= linea_log_simple(clave@, vo).drop_last());
    let sc = caracteres(simple.as_str());
    let leido = leer_log_simple_exec(&sc);
    let fiel = sin_saltos && mismo_par(&leido, clave, valor);
    if fiel {
        agregar_texto(archivo, simple.as_str());
        agregar_texto(archivo, "\n");
        assert(linea_log_simple(clave@, vo) =~= linea_log_simple(clave@, vo).drop_last() + "\n"@);
        assert(archivo@ =~= old(archivo)@ + linea_log(clave@, vo));
    } else {
        agregar_texto(archivo, "set! \"");
        agregar_escapado_todo(archivo, &kc, 0, kc.len());
        match valor {
            Some(v) => {
                let vc = caracteres(v.as_str());
                assert(vc@.subrange(0, vc@.len() as int) =~= vc@);
                agregar_texto(archivo, "\" \"");
                agregar_escapado_todo(archivo, &vc, 0, vc.len());
                agregar_texto(archivo, "\"\n");
            },
            None => {
                agregar_texto(archivo, "\"\n");
            },
        }
        assert(archivo@ =~= old(archivo)@ + linea_log(clave@, vo));
    }
}

/// Appends to `r` the snapshot line of the pair `clave`, `valor`.
pub fn agregar_linea_data(r: &mut String, clave: &String, valor: &String)
    ensures
        final(r)@ == old(r)@ + linea_data(clave@, valor@),
{
    let kc = caracteres(clave.as_str());
    let vc = caracteres(valor.as_str());
    proof {
        reveal_strlit("\"");
        reveal_strlit("!\"");
        reveal_strlit("\" \"");
        reveal_strlit("\"!\n");
        reveal_strlit("\n");
        assert(kc@.subrange(0, kc@.len() as int) =~= kc@);
        assert(vc@.subrange(0, vc@.len() as int) =~= vc@);
    }
    let mut simple = String::new();
    agregar_texto(&mut simple, "\"");
    agregar_escapado(&mut simple, &kc, 0, kc.len());
    agregar_texto(&mut simple, "\" \"");
    agregar_escapado(&mut simple, &vc, 0, vc.len());
    agregar_texto(&mut simple, "\"");
    assert(simple@ =~= linea_data_simple(clave@, valor@).drop_last());
    let sc = caracteres(simple.as_str());
    let fiel = sin_salto(&kc) && sin_salto(&vc) && match leer_data_simple_exec(&sc) {
        Some((k, v)) => k == *clave && v == *valor,
        None => false,
    };
    if fiel {
        agregar_texto(r, simple.as_str());
        agregar_texto(r, "\n");
        assert(linea_data_simple(clave@, valor@) =~= linea_data_simple(clave@, valor@).drop_last()
            + "\n"@);
        assert(r@ =~= old(r)@ + linea_data(clave@, valor@));
    } else {
        agregar_texto(r, "!\"");
        agregar_escapado_todo(r, &kc, 0, kc.len());
        agregar_texto(r, "\" \"");
        agregar_escapado_todo(r, &vc, 0, vc.len());
        agregar_texto(r, "\"!\n");
        assert(r@ =~= old(r)@ + linea_data(clave@, valor@));
    }
}

/// The command that a log line names: `set` with the key and, if there is
/// one, the value; an error if the line is not a log line.
pub fn parsear_linea_y_construir_comando(linea: &str) -> (r: Result<Comando, MinikvError>)
    ensures
        match r {
            Ok(c) => {
                &&& c.nombre@ == "set "@
                &&& c.clave is Some
                &&& comando_de_log(linea@) == Some((c.clave->0@, opcion(c.valor)))
            },
            Err(e) => comando_de_log(linea@) is None && e == MinikvError::Server(
                ServerError::InvalidLogFile,
            ),
        },
{
    let v = caracteres(linea);
    let leido = if v.len() >= 5 && v[0] == 's' && v[1] == 'e' && v[2] == 't' && v[3] == '!' && v[4]
        == ' ' {
        leer_par_exec(&v, 5)
    } else {
        leer_log_simple_exec(&v)
    };
    match leido {
        Some((clave, valor)) => Ok(
            Comando { nombre: String::from_str("set "), clave: Some(clave), valor: valor },
        ),
        None => Err(MinikvError::from(ServerError::InvalidLogFile)),
    }
}

/// Reads a plain log line (`leer_log_simple`).
pub fn leer_log_simple_exec(v: &Vec<char>) -> (r: Option<(String, Option<String>)>)
    ensures
        vista_par(r) == leer_log_simple(v@),
{
    if !(v.len() >= 4 && v[0] == 's' && v[1] == 'e' && v[2] == 't' && v[3] == ' ') {
        return None;
    }
    let (a, b) = limites(v, 4, v.len(), true);
    assert(v@.subrange(4, v@.len() as int) =~= v@.skip(4));
    let par = dividir(v, a, b);
    let ghost p = partes(recortar(v@.skip(4), comilla()));
    proof {
        crate::texto::lema_partes_no_vacias(recortar(v@.skip(4), comilla()));
        assert(vistas(par@) == p);
        assert(vistas(par@)[0] == par@[0]@);
    }
    let clave = desescapado(par[0].as_str());
    let valor = if par.len() > 1 {
        proof {
            assert(vistas(par@)[1] == par@[1]@);
        }
        Some(desescapado(par[1].as_str()))
    } else {
        None
    };
    Some((clave, valor))
}

/// The view of a pair.
pub open spec fn vista_par_data(p: Option<(String, String)>) -> Option<(Seq<char>, Seq<char>)> {
    match p {
        Some((k, v)) => Some((k@, v@)),
        None => None,
    }
}

/// Reads a plain snapshot line (`leer_data_simple`).
pub fn leer_data_simple_exec(v: &Vec<char>) -> (r: Option<(String, String)>)
    ensures
        vista_par_data(r) == leer_data_simple(v@),
{
    let (a, b) = limites(v, 0, v.len(), true);
    assert(v@.subrange(0, v@.len() as int) =~= v@);
    if a == 0 && b == v.len() {
        return None;
    }
    assert(v@.subrange(a as int, b as int) != v@) by {
        assert(v@.subrange(a as int, b as int).len() != v@.len());
    }
    let par = dividir(v, a, b);
    if par.len() >= 2 {
        proof {
            assert(vistas(par@)[0] == par@[0]@);
            assert(vistas(par@)[1] == par@[1]@);
        }
        Some((desescapado(par[0].as_str()), desescapado(par[1].as_str())))
    } else {
        None
    }
}

/// Reads a snapshot line (`par_de_data`).
pub fn par_de_data_exec(v: &Vec<char>) -> (r: Option<(String, String)>)
    ensures
        vista_par_data(r) == par_de_data(v@),
{
    if v.len() >= 2 && v[0] == '!' && v[v.len() - 1] == '!' {
        let medio = tramo(v, 1, v.len() - 1);
        assert(medio@.skip(0) =~= medio@);
        match leer_par_exec(&medio, 0) {
            Some((k, Some(valor))) => Some((k, valor)),
            _ => None,
        }
    } else {
        leer_data_simple_exec(v)
    }
}

/// The view of a key and optional value.
pub open spec fn vista_par(p: Option<(String, Option<String>)>) -> Option<(Seq<char>, Option<Seq<char>>)> {
    match p {
        Some((k, v)) => Some((k@, opcion(v))),
        None => None,
    }
}

/// Reads `v[desde..]` as a quoted key, optionally followed by a space and
/// a quoted value, and nothing else.
pub fn leer_par_exec(v: &Vec<char>, desde: usize) -> (r: Option<(String, Option<String>)>)
    requires
        desde <= v.len(),
    ensures
        vista_par(r) == leer_par(v@.skip(desde as int)),
{
    let ghost r0 = v@.skip(desde as int);
    if !(desde < v.len() && v[desde] == '"') {
        return None;
    }
    assert(r0.drop_first() =~= v@.skip(desde + 1));
    match leer_cadena(v, desde + 1) {
        None => None,
        Some((clave, i)) => {
            if i == v.len() {
                assert(v@.skip(i as int).len() == 0);
                return Some((clave, None));
            }
            let ghost r1 = v@.skip(i as int);
            if !(v.len() - i >= 2 && v[i] == ' ' && v[i + 1] == '"') {
                return None;
            }
            assert(r1.skip(2) =~= v@.skip(i + 2));
            match leer_cadena(v, i + 2) {
                None => None,
                Some((valor, j)) => {
                    if j == v.len() {
                        assert(v@.skip(j as int).len() == 0);
                        Some((clave, Some(valor)))
                    } else {
                        None
                    }
                },
            }
        },
    }
}

/// The answer to a write once its log line was, or failed to be, stored:
/// a failed store is an invalid data file.
pub fn resultado_de_escritura(escrito: bool, resultado: Result<String, MinikvError>) -> (r: Result<
    String,
    MinikvError,
>)
    ensures
        r == if escrito {
            resultado
        } else {
            Err(MinikvError::Server(ServerError::InvalidDataFile))
        },
{
    if escrito {
        resultado
    } else {
        Err(MinikvError::from(ServerError::InvalidDataFile))
    }
}

} // verus!
