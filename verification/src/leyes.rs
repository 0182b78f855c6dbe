//! What holds of the store across its operations.
use crate::diccionario::{claves_distintas, lema_mapa_de_en, mapa_de};
use crate::minikv::{
    aplicar_linea_log, aplicar_lineas_log, cargar_lineas_data, comando_de_log,
    data_simple_fiel, empieza_con_set_exacto, es_data_exacta, leer_par, linea_data,
    linea_data_exacta, linea_data_simple, linea_log, linea_log_exacta, linea_log_simple,
    log_simple_fiel, par_de_data, resultado_get, texto_snapshot,
};
use crate::minikv_errors::{ClientError, MinikvError};
use crate::texto::{
    comilla, decimal, empieza_con_separador, escapar, escapar_todo, lema_desescapar_escapar,
    lema_escapado_sin_separador, lema_escapar_extremos, lema_escapar_sin_salto,
    lema_escapar_todo_sin_salto, lema_leer_escapado, lema_lineas_tramo, lema_partes_dos,
    lema_partes_sin_separador, lineas, partes, quitar_der, quitar_izq, recortar, separador,
    sin_retorno,
};
use vstd::prelude::*;

verus! {

/// A read of a key just set gives back the value set.
pub proof fn ley_get_tras_set(m: Map<Seq<char>, Seq<char>>, clave: Seq<char>, valor: Seq<char>)
    ensures
        resultado_get(m.insert(clave, valor), Some(clave)) == Ok::<Seq<char>, MinikvError>(valor),
{
}

/// A read of a key just removed finds nothing.
pub proof fn ley_get_tras_borrar(m: Map<Seq<char>, Seq<char>>, clave: Seq<char>)
    ensures
        resultado_get(m.remove(clave), Some(clave)) == Err::<Seq<char>, MinikvError>(
            MinikvError::Client(ClientError::NotFound),
        ),
{
}

/// A write of one key leaves the reads of every other key as they were.
pub proof fn ley_otras_claves(
    m: Map<Seq<char>, Seq<char>>,
    clave: Seq<char>,
    valor: Option<Seq<char>>,
    otra: Seq<char>,
)
    requires
        otra != clave,
    ensures
        resultado_get(
            match valor {
                Some(v) => m.insert(clave, v),
                None => m.remove(clave),
            },
            Some(otra),
        ) == resultado_get(m, Some(otra)),
{
}

/// Setting a key that is not held adds one to the count of keys; setting
/// one that is held leaves the count as it was.
pub proof fn ley_cantidad_tras_set(m: Map<Seq<char>, Seq<char>>, clave: Seq<char>, valor: Seq<char>)
    requires
        m.dom().finite(),
    ensures
        m.insert(clave, valor).dom().len() == if m.contains_key(clave) {
            m.dom().len()
        } else {
            m.dom().len() + 1
        },
        decimal(m.insert(clave, valor).dom().len()) == if m.contains_key(clave) {
            decimal(m.dom().len())
        } else {
            decimal(m.dom().len() + 1)
        },
{
    if m.contains_key(clave) {
        assert(m.insert(clave, valor).dom() =~= m.dom());
    }
}

/// Removing a key that is held takes one from the count of keys; removing
/// one that is not held leaves the count as it was.
pub proof fn ley_cantidad_tras_borrar(m: Map<Seq<char>, Seq<char>>, clave: Seq<char>)
    requires
        m.dom().finite(),
    ensures
        m.remove(clave).dom().len() == if m.contains_key(clave) {
            m.dom().len() - 1
        } else {
            m.dom().len() as int
        },
{
    if !m.contains_key(clave) {
        assert(m.remove(clave).dom() =~= m.dom());
    }
}

// ---------------------------------------------------------------------
// Rebuilding the store from its files
// ---------------------------------------------------------------------

/// The log text of the writes `ws`, one line each, in order.
pub open spec fn texto_log(ws: Seq<(Seq<char>, Option<Seq<char>>)>) -> Seq<char>
    decreases ws.len(),
{
    if ws.len() == 0 {
        seq![]
    } else {
        linea_log(ws[0].0, ws[0].1) + texto_log(ws.drop_first())
    }
}

/// The map after the writes `ws`, in order: a value is held for its key,
/// a missing value removes the key.
pub open spec fn reconstruir(m: Map<Seq<char>, Seq<char>>, ws: Seq<(Seq<char>, Option<Seq<char>>)>) -> Map<
    Seq<char>,
    Seq<char>,
>
    decreases ws.len(),
{
    if ws.len() == 0 {
        m
    } else {
        let m2 = match ws[0].1 {
            Some(v) => m.insert(ws[0].0, v),
            None => m.remove(ws[0].0),
        };
        reconstruir(m2, ws.drop_first())
    }
}

/// The map after inserting the pairs `s` in order.
pub open spec fn insertar_todos(m: Map<Seq<char>, Seq<char>>, s: Seq<(Seq<char>, Seq<char>)>) -> Map<
    Seq<char>,
    Seq<char>,
>
    decreases s.len(),
{
    if s.len() == 0 {
        m
    } else {
        insertar_todos(m.insert(s[0].0, s[0].1), s.drop_first())
    }
}

/// A write by `set` is a log of one write: its line is that log's text,
/// and its effect on the map is that log's replay.
pub proof fn ley_set_es_una_escritura(
    m: Map<Seq<char>, Seq<char>>,
    clave: Seq<char>,
    valor: Option<Seq<char>>,
)
    ensures
        texto_log(seq![(clave, valor)]) == linea_log(clave, valor),
        reconstruir(m, seq![(clave, valor)]) == match valor {
            Some(v) => m.insert(clave, v),
            None => m.remove(clave),
        },
{
    let ws = seq![(clave, valor)];
    let vacia = Seq::<(Seq<char>, Option<Seq<char>>)>::empty();
    assert(ws.drop_first() =~= vacia);
    assert(ws[0] == (clave, valor));
    assert(texto_log(vacia) == Seq::<char>::empty());
    let m2 = match valor {
        Some(v) => m.insert(clave, v),
        None => m.remove(clave),
    };
    assert(reconstruir(m2, vacia) == m2);
    assert(texto_log(ws) =~= linea_log(clave, valor));
}

/// Writes made one run after another log and replay as one run: their log
/// texts join, and their replays follow each other.
pub proof fn ley_escrituras_encadenadas(
    m: Map<Seq<char>, Seq<char>>,
    ws1: Seq<(Seq<char>, Option<Seq<char>>)>,
    ws2: Seq<(Seq<char>, Option<Seq<char>>)>,
)
    ensures
        texto_log(ws1 + ws2) == texto_log(ws1) + texto_log(ws2),
        reconstruir(m, ws1 + ws2) == reconstruir(reconstruir(m, ws1), ws2),
    decreases ws1.len(),
{
    if ws1.len() == 0 {
        assert(ws1 + ws2 =~= ws2);
        assert(texto_log(ws1) =~= Seq::<char>::empty());
        assert(texto_log(ws1) + texto_log(ws2) =~= texto_log(ws2));
    } else {
        let m2 = match ws1[0].1 {
            Some(v) => m.insert(ws1[0].0, v),
            None => m.remove(ws1[0].0),
        };
        ley_escrituras_encadenadas(m2, ws1.drop_first(), ws2);
        assert((ws1 + ws2).drop_first() =~= ws1.drop_first() + ws2);
        assert((ws1 + ws2)[0] == ws1[0]);
        assert(texto_log(ws1 + ws2) =~= texto_log(ws1) + texto_log(ws2));
    }
}

proof fn lema_concat_sin(x: Seq<char>, y: Seq<char>, c: char)
    requires
        !x.contains(c),
        !y.contains(c),
    ensures
        !(x + y).contains(c),
{
    if (x + y).contains(c) {
        let i = choose|i: int| 0 <= i < (x + y).len() && (x + y)[i] == c;
        if i < x.len() {
            assert(x[i] == c);
        } else {
            assert(y[i - x.len()] == c);
        }
    }
}

proof fn lema_literal_sin(x: Seq<char>, c: char)
    requires
        forall|i: int| 0 <= i < x.len() ==> x[i] != c,
    ensures
        !x.contains(c),
{
}

/// A quoted key and value, written escaped, read back as they were.
proof fn lema_leer_par(k: Seq<char>, valor: Option<Seq<char>>)
    ensures
        leer_par(
            match valor {
                Some(v) => seq!['"'] + escapar_todo(k) + seq!['"', ' ', '"'] + escapar_todo(v) + seq!['"'],
                None => seq!['"'] + escapar_todo(k) + seq!['"'],
            },
        ) == Some((k, valor)),
{
    let ek = escapar_todo(k);
    match valor {
        Some(v) => {
            let ev = escapar_todo(v);
            let r = seq!['"'] + ek + seq!['"', ' ', '"'] + ev + seq!['"'];
            let r1 = seq![' ', '"'] + ev + seq!['"'];
            assert(r.drop_first() =~= ek + seq!['"'] + r1);
            lema_leer_escapado(k, r1, seq![]);
            assert(seq![] + k =~= k);
            assert(r1.skip(2) =~= ev + seq!['"'] + Seq::<char>::empty());
            lema_leer_escapado(v, Seq::<char>::empty(), seq![]);
            assert(seq![] + v =~= v);
        },
        None => {
            let r = seq!['"'] + ek + seq!['"'];
            assert(r.drop_first() =~= ek + seq!['"'] + Seq::<char>::empty());
            lema_leer_escapado(k, Seq::<char>::empty(), seq![]);
            assert(seq![] + k =~= k);
        },
    }
}

/// The log line of an association, replayed, holds the value for the key.
pub proof fn ley_linea_log_escritura(m: Map<Seq<char>, Seq<char>>, k: Seq<char>, v: Seq<char>)
    ensures
        aplicar_linea_log(m, linea_log(k, Some(v)).drop_last()) == Some(m.insert(k, v)),
{
    lema_lee_linea_log(k, Some(v));
}

/// The log line of a removal, replayed, removes the key.
pub proof fn ley_linea_log_borrado(m: Map<Seq<char>, Seq<char>>, k: Seq<char>)
    ensures
        aplicar_linea_log(m, linea_log(k, None).drop_last()) == Some(m.remove(k)),
{
    lema_lee_linea_log(k, None);
}

/// A log line reads back as its write.
proof fn lema_lee_linea_log(k: Seq<char>, valor: Option<Seq<char>>)
    ensures
        comando_de_log(linea_log(k, valor).drop_last()) == Some((k, valor)),
{
    if log_simple_fiel(k, valor) {
        let linea = linea_log_simple(k, valor).drop_last();
        assert(linea[3] == ' ');
        assert(!empieza_con_set_exacto(linea));
    } else {
        let cuerpo = match valor {
            Some(v) => seq!['"'] + escapar_todo(k) + seq!['"', ' ', '"'] + escapar_todo(v) + seq!['"'],
            None => seq!['"'] + escapar_todo(k) + seq!['"'],
        };
        let linea = linea_log_exacta(k, valor).drop_last();
        assert(linea =~= seq!['s', 'e', 't', '!', ' '] + cuerpo);
        assert(linea.skip(5) =~= cuerpo);
        lema_leer_par(k, valor);
    }
}

/// A log line has no line break but the one that ends it, and no `\r`
/// before that one.
proof fn lema_linea_log_forma(k: Seq<char>, valor: Option<Seq<char>>)
    ensures
        linea_log(k, valor) == linea_log(k, valor).drop_last() + seq!['\n'],
        !linea_log(k, valor).drop_last().contains('\n'),
        sin_retorno(linea_log(k, valor).drop_last()) == linea_log(k, valor).drop_last(),
{
    let l = linea_log(k, valor);
    assert(l =~= l.drop_last() + seq!['\n']);
    let simple = log_simple_fiel(k, valor);
    let ek = if simple {
        lema_escapar_sin_salto(k);
        escapar(k)
    } else {
        lema_escapar_todo_sin_salto(k);
        escapar_todo(k)
    };
    let cabeza = if simple {
        seq!['s', 'e', 't', ' ', '"']
    } else {
        seq!['s', 'e', 't', '!', ' ', '"']
    };
    lema_literal_sin(cabeza, '\n');
    lema_concat_sin(cabeza, ek, '\n');
    match valor {
        Some(v) => {
            let ev = if simple {
                lema_escapar_sin_salto(v);
                escapar(v)
            } else {
                lema_escapar_todo_sin_salto(v);
                escapar_todo(v)
            };
            lema_literal_sin(seq!['"', ' ', '"'], '\n');
            lema_literal_sin(seq!['"'], '\n');
            lema_concat_sin(cabeza + ek, seq!['"', ' ', '"'], '\n');
            lema_concat_sin(cabeza + ek + seq!['"', ' ', '"'], ev, '\n');
            lema_concat_sin(cabeza + ek + seq!['"', ' ', '"'] + ev, seq!['"'], '\n');
            assert(l.drop_last() =~= cabeza + ek + seq!['"', ' ', '"'] + ev + seq!['"']);
        },
        None => {
            lema_literal_sin(seq!['"'], '\n');
            lema_concat_sin(cabeza + ek, seq!['"'], '\n');
            assert(l.drop_last() =~= cabeza + ek + seq!['"']);
        },
    }
}

/// A write whose plain log line reads back: a key that is not empty and
/// does not end with a quote and a space, and a value that is not empty
/// and does not end with a quote (for a removal, a key that is not empty
/// and does not end with a quote), none of them with a line break.
pub open spec fn escritura_simple(k: Seq<char>, valor: Option<Seq<char>>) -> bool {
    &&& k.len() > 0
    &&& !k.contains('\n')
    &&& match valor {
        Some(v) => par_simple(k, v),
        None => k.last() != '"',
    }
}

/// A pair whose plain lines read back: a key that is not empty and does
/// not end with a quote and a space, and a value that is not empty and
/// does not end with a quote, neither with a line break.
pub open spec fn par_simple(k: Seq<char>, v: Seq<char>) -> bool {
    &&& k.len() > 0
    &&& v.len() > 0
    &&& v.last() != '"'
    &&& !(k.len() >= 2 && k[k.len() - 2] == '"' && k.last() == ' ')
    &&& !k.contains('\n')
    &&& !v.contains('\n')
}

/// A text between quotes, neither starting nor ending with one, is what
/// trimming the quotes leaves.
proof fn lema_entre_comillas(x: Seq<char>)
    requires
        x.len() > 0,
        x[0] != '"',
        x.last() != '"',
    ensures
        recortar(seq!['"'] + x + seq!['"'], comilla()) == x,
{
    let p = comilla();
    let s = seq!['"'] + x + seq!['"'];
    assert(s.drop_first() =~= x + seq!['"']);
    assert((x + seq!['"'])[0] == x[0]);
    assert(quitar_izq(x + seq!['"'], p) == x + seq!['"']);
    assert(quitar_izq(s, p) == x + seq!['"']);
    assert((x + seq!['"']).drop_last() =~= x);
    assert(quitar_der(x, p) == x);
}

/// An escaped key, a separator and an escaped value split back into the
/// escaped key and value.
proof fn lema_separacion(k: Seq<char>, v: Seq<char>)
    requires
        par_simple(k, v),
    ensures
        partes(escapar(k) + separador() + escapar(v)) == seq![escapar(k), escapar(v)],
{
    let ek = escapar(k);
    let ev = escapar(v);
    let s = ek + separador() + ev;
    lema_escapar_extremos(k);
    lema_escapar_extremos(k.drop_last());
    assert forall|i: int| 0 <= i < ek.len() implies !empieza_con_separador(#[trigger] s.skip(i)) by {
        if empieza_con_separador(s.skip(i)) {
            assert(s[i] == s.skip(i)[0]);
            assert(s[i + 1] == s.skip(i)[1]);
            assert(s[i + 2] == s.skip(i)[2]);
            if i + 2 < ek.len() {
                lema_escapado_sin_separador(k, i);
                assert(ek.skip(i)[0] == ek[i]);
                assert(ek.skip(i)[1] == ek[i + 1]);
                assert(ek.skip(i)[2] == ek[i + 2]);
            } else if i + 2 == ek.len() {
                let e1 = escapar(k.drop_last());
                let e2 = escapar(seq![k.last()]);
                assert(ek.last() == ' ');
                assert(k.last() == ' ');
                let u = seq![k.last()];
                assert(u.drop_first() =~= Seq::<char>::empty());
                assert(escapar(u.drop_first()) =~= Seq::<char>::empty());
                assert(u[0] == ' ');
                assert(e2 =~= seq![' ']);
                assert(e1 + e2 == ek);
                assert(e1.len() == ek.len() - 1);
                assert(e1.len() > 0);
                assert(k.drop_last().len() > 0);
                assert(e1.last() == ek[i]);
                assert(k.drop_last().last() == k[k.len() - 2]);
            } else {
                assert(s[i + 1] == '"');
            }
        }
    }
    assert forall|i: int| 0 <= i < ev.len() implies !empieza_con_separador(#[trigger] ev.skip(i)) by {
        lema_escapado_sin_separador(v, i);
    }
    lema_partes_dos(ek, ev);
}

/// The log line of a write in the plain form, where that form reads back,
/// is the line written: the plain form stands for every such write.
pub proof fn ley_formato_simple_log(k: Seq<char>, valor: Option<Seq<char>>)
    requires
        escritura_simple(k, valor),
    ensures
        log_simple_fiel(k, valor),
        linea_log(k, valor) == linea_log_simple(k, valor),
{
    let ek = escapar(k);
    lema_escapar_extremos(k);
    lema_desescapar_escapar(k);
    match valor {
        Some(v) => {
            let ev = escapar(v);
            let x = ek + separador() + ev;
            let linea = linea_log_simple(k, valor).drop_last();
            lema_escapar_extremos(v);
            lema_desescapar_escapar(v);
            assert(linea =~= seq!['s', 'e', 't', ' '] + (seq!['"'] + x + seq!['"']));
            assert(linea.skip(4) =~= seq!['"'] + x + seq!['"']);
            assert(x[0] == ek[0]);
            assert(x.last() == ev.last());
            lema_entre_comillas(x);
            lema_separacion(k, v);
        },
        None => {
            let linea = linea_log_simple(k, valor).drop_last();
            assert(linea =~= seq!['s', 'e', 't', ' '] + (seq!['"'] + ek + seq!['"']));
            assert(linea.skip(4) =~= seq!['"'] + ek + seq!['"']);
            lema_entre_comillas(ek);
            assert forall|i: int| 0 <= i < ek.len() implies !empieza_con_separador(
                #[trigger] ek.skip(i),
            ) by {
                lema_escapado_sin_separador(k, i);
            }
            lema_partes_sin_separador(ek, seq![], ek.len() as int);
            assert(ek.skip(ek.len() as int) =~= Seq::<char>::empty());
            assert(seq![] + ek.take(ek.len() as int) =~= ek);
            assert(partes(ek) =~= seq![ek]);
        },
    }
}

/// The snapshot line of a pair in the plain form, where that form reads
/// back, is the line written: the plain form stands for every such pair.
pub proof fn ley_formato_simple_data(k: Seq<char>, v: Seq<char>)
    requires
        par_simple(k, v),
    ensures
        data_simple_fiel(k, v),
        linea_data(k, v) == linea_data_simple(k, v),
{
    let ek = escapar(k);
    let ev = escapar(v);
    let x = ek + separador() + ev;
    let linea = linea_data_simple(k, v).drop_last();
    lema_escapar_extremos(k);
    lema_escapar_extremos(v);
    assert(linea =~= seq!['"'] + x + seq!['"']);
    assert(x[0] == ek[0]);
    assert(x.last() == ev.last());
    lema_entre_comillas(x);
    assert(recortar(linea, comilla()) != linea) by {
        assert(recortar(linea, comilla()).len() != linea.len());
    }
    lema_separacion(k, v);
    lema_desescapar_escapar(k);
    lema_desescapar_escapar(v);
}

/// Replaying the log text of any writes rebuilds the map they leave, and
/// meets no invalid line.
pub proof fn ley_reconstruccion_log(m: Map<Seq<char>, Seq<char>>, ws: Seq<(Seq<char>, Option<Seq<char>>)>)
    ensures
        aplicar_lineas_log(m, lineas(texto_log(ws))) == (reconstruir(m, ws), true),
    decreases ws.len(),
{
    if ws.len() == 0 {
        assert(lineas(texto_log(ws)) =~= Seq::<Seq<char>>::empty());
    } else {
        let (k, valor) = ws[0];
        let a = linea_log(k, valor).drop_last();
        let resto = ws.drop_first();
        lema_linea_log_forma(k, valor);
        lema_lineas_tramo(a, texto_log(resto), seq![]);
        assert(texto_log(ws) =~= a + seq!['\n'] + texto_log(resto));
        assert(seq![] + a =~= a);
        let ls = lineas(texto_log(ws));
        assert(ls == seq![a] + lineas(texto_log(resto)));
        assert(ls[0] == a);
        assert(ls.drop_first() =~= lineas(texto_log(resto)));
        let m2 = match valor {
            Some(v) => m.insert(k, v),
            None => m.remove(k),
        };
        match valor {
            Some(v) => ley_linea_log_escritura(m, k, v),
            None => ley_linea_log_borrado(m, k),
        }
        ley_reconstruccion_log(m2, resto);
    }
}

/// The snapshot line of a pair loads back that pair.
pub proof fn ley_linea_data(k: Seq<char>, v: Seq<char>)
    ensures
        par_de_data(linea_data(k, v).drop_last()) == Some((k, v)),
{
    if data_simple_fiel(k, v) {
        let linea = linea_data_simple(k, v).drop_last();
        assert(linea[0] == '"');
        assert(!es_data_exacta(linea));
    } else {
        let cuerpo = seq!['"'] + escapar_todo(k) + seq!['"', ' ', '"'] + escapar_todo(v) + seq!['"'];
        let linea = linea_data_exacta(k, v).drop_last();
        assert(linea =~= seq!['!'] + cuerpo + seq!['!']);
        assert(es_data_exacta(linea));
        assert(linea.subrange(1, linea.len() - 1) =~= cuerpo);
        lema_leer_par(k, Some(v));
    }
}

/// A snapshot line has no line break but the one that ends it, and no
/// `\r` before that one.
proof fn lema_linea_data_forma(k: Seq<char>, v: Seq<char>)
    ensures
        linea_data(k, v) == linea_data(k, v).drop_last() + seq!['\n'],
        !linea_data(k, v).drop_last().contains('\n'),
        sin_retorno(linea_data(k, v).drop_last()) == linea_data(k, v).drop_last(),
{
    let l = linea_data(k, v);
    assert(l =~= l.drop_last() + seq!['\n']);
    let simple = data_simple_fiel(k, v);
    let (ek, ev) = if simple {
        lema_escapar_sin_salto(k);
        lema_escapar_sin_salto(v);
        (escapar(k), escapar(v))
    } else {
        lema_escapar_todo_sin_salto(k);
        lema_escapar_todo_sin_salto(v);
        (escapar_todo(k), escapar_todo(v))
    };
    let cabeza = if simple {
        seq!['"']
    } else {
        seq!['!', '"']
    };
    let cola = if simple {
        seq!['"']
    } else {
        seq!['"', '!']
    };
    lema_literal_sin(cabeza, '\n');
    lema_literal_sin(cola, '\n');
    lema_literal_sin(seq!['"', ' ', '"'], '\n');
    lema_concat_sin(cabeza, ek, '\n');
    lema_concat_sin(cabeza + ek, seq!['"', ' ', '"'], '\n');
    lema_concat_sin(cabeza + ek + seq!['"', ' ', '"'], ev, '\n');
    lema_concat_sin(cabeza + ek + seq!['"', ' ', '"'] + ev, cola, '\n');
    assert(l.drop_last() =~= cabeza + ek + seq!['"', ' ', '"'] + ev + cola);
}

/// Loading the snapshot text of any pairs inserts them in order, and meets
/// no invalid line.
pub proof fn ley_carga_snapshot(m: Map<Seq<char>, Seq<char>>, s: Seq<(Seq<char>, Seq<char>)>)
    ensures
        cargar_lineas_data(m, lineas(texto_snapshot(s))) == (insertar_todos(m, s), true),
    decreases s.len(),
{
    if s.len() == 0 {
        assert(lineas(texto_snapshot(s)) =~= Seq::<Seq<char>>::empty());
    } else {
        let (k, v) = s[0];
        let a = linea_data(k, v).drop_last();
        let resto = s.drop_first();
        lema_linea_data_forma(k, v);
        lema_lineas_tramo(a, texto_snapshot(resto), seq![]);
        assert(texto_snapshot(s) =~= a + seq!['\n'] + texto_snapshot(resto));
        assert(seq![] + a =~= a);
        let ls = lineas(texto_snapshot(s));
        assert(ls[0] == a);
        assert(ls.drop_first() =~= lineas(texto_snapshot(resto)));
        ley_linea_data(k, v);
        ley_carga_snapshot(m.insert(k, v), resto);
    }
}

/// Inserting pairs with distinct keys in order is taking their map over
/// the map inserted into.
proof fn lema_insertar_todos(m: Map<Seq<char>, Seq<char>>, s: Seq<(Seq<char>, Seq<char>)>)
    requires
        claves_distintas(s),
    ensures
        insertar_todos(m, s) == m.union_prefer_right(mapa_de(s)),
    decreases s.len(),
{
    if s.len() == 0 {
        assert(mapa_de(s) =~= Map::<Seq<char>, Seq<char>>::empty());
        assert(m.union_prefer_right(mapa_de(s)) =~= m);
    } else {
        let r = s.drop_first();
        let (k, v) = s[0];
        assert(claves_distintas(r)) by {
            assert forall|i: int, j: int|
                0 <= i < r.len() && 0 <= j < r.len() && i != j implies #[trigger] r[i].0
                != #[trigger] r[j].0 by {
                assert(r[i] == s[i + 1] && r[j] == s[j + 1]);
            }
        }
        lema_insertar_todos(m.insert(k, v), r);
        assert(!mapa_de(r).contains_key(k)) by {
            if mapa_de(r).contains_key(k) {
                let j = choose|j: int| 0 <= j < r.len() && #[trigger] r[j].0 == k;
                assert(s[j + 1].0 == k);
            }
        }
        assert(mapa_de(s) =~= mapa_de(r).insert(k, v)) by {
            assert forall|x: Seq<char>| #[trigger] mapa_de(s).contains_key(x) <==> mapa_de(
                r,
            ).insert(k, v).contains_key(x) by {
                if mapa_de(s).contains_key(x) && x != k {
                    let j = choose|j: int| 0 <= j < s.len() && #[trigger] s[j].0 == x;
                    assert(r[j - 1].0 == x);
                }
                if mapa_de(r).contains_key(x) {
                    let j = choose|j: int| 0 <= j < r.len() && #[trigger] r[j].0 == x;
                    assert(s[j + 1].0 == x);
                }
                if x == k {
                    assert(s[0].0 == x);
                }
            }
            assert forall|x: Seq<char>| #[trigger] mapa_de(s).contains_key(x) implies mapa_de(
                s,
            )[x] == mapa_de(r).insert(k, v)[x] by {
                if x == k {
                    lema_mapa_de_en(s, 0);
                } else {
                    let j = choose|j: int| 0 <= j < r.len() && #[trigger] r[j].0 == x;
                    lema_mapa_de_en(r, j);
                    assert(s[j + 1] == r[j]);
                    lema_mapa_de_en(s, j + 1);
                }
            }
        }
        assert(m.insert(k, v).union_prefer_right(mapa_de(r)) =~= m.union_prefer_right(
            mapa_de(r).insert(k, v),
        ));
    }
}

/// Loading the snapshot of a dictionary, with an empty log after it,
/// gives back the dictionary's map.
pub proof fn ley_snapshot(s: Seq<(Seq<char>, Seq<char>)>)
    requires
        claves_distintas(s),
    ensures
        cargar_lineas_data(Map::empty(), lineas(texto_snapshot(s))) == (mapa_de(s), true),
        aplicar_lineas_log(mapa_de(s), lineas(Seq::<char>::empty())) == (mapa_de(s), true),
{
    ley_carga_snapshot(Map::empty(), s);
    lema_insertar_todos(Map::empty(), s);
    assert(Map::<Seq<char>, Seq<char>>::empty().union_prefer_right(mapa_de(s)) =~= mapa_de(s));
    assert(lineas(Seq::<char>::empty()) =~= Seq::<Seq<char>>::empty());
}

/// A store rebuilt from the snapshot of a dictionary, and then from the
/// log of the writes made after it, holds the dictionary's map with those
/// writes made on it.
pub proof fn ley_recuperacion(
    s: Seq<(Seq<char>, Seq<char>)>,
    ws: Seq<(Seq<char>, Option<Seq<char>>)>,
)
    requires
        claves_distintas(s),
    ensures
        ({
            let (m1, ok1) = cargar_lineas_data(Map::empty(), lineas(texto_snapshot(s)));
            let (m2, ok2) = aplicar_lineas_log(m1, lineas(texto_log(ws)));
            ok1 && ok2 && m2 == reconstruir(mapa_de(s), ws)
        }),
{
    ley_snapshot(s);
    ley_reconstruccion_log(mapa_de(s), ws);
}

/// A store rebuilt from an empty snapshot file and the log of any writes
/// holds the map those writes make on an empty store.
pub proof fn ley_reconstruccion_desde_cero(ws: Seq<(Seq<char>, Option<Seq<char>>)>)
    ensures
        ({
            let (m1, ok1) = cargar_lineas_data(Map::empty(), lineas(Seq::<char>::empty()));
            let (m2, ok2) = aplicar_lineas_log(m1, lineas(texto_log(ws)));
            ok1 && ok2 && m2 == reconstruir(Map::empty(), ws)
        }),
{
    assert(lineas(Seq::<char>::empty()) =~= Seq::<Seq<char>>::empty());
    ley_reconstruccion_log(Map::empty(), ws);
}

} // verus!
