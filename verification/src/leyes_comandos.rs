//! What the commands answer, how a request line splits into words, and
//! what counts as white space, stated over all inputs.
use crate::comando::Comando;
use crate::minikv::Minikv;
use crate::minikv_errors::{ClientError, MinikvError};
use crate::protocolo::{palabras, palabras_desde};
use crate::texto::{blanco, decimal, digito, es_espacio, quitar_der, quitar_izq, recortar};
use vstd::prelude::*;

verus! {

// ---------------------------------------------------------------------
// White space
// ---------------------------------------------------------------------

/// No printable ASCII character but the space is white space; the space,
/// the tab, the line break, the carriage return and the ideographic space
/// are.
pub proof fn ley_espacios(c: char)
    ensures
        0x21 <= c as u32 <= 0x7e ==> !es_espacio(c),
        es_espacio(' '),
        es_espacio('\t'),
        es_espacio('\n'),
        es_espacio('\r'),
        es_espacio('\u{3000}'),
{
}

/// Trimming white space from a text that ends with a character that is
/// not white space keeps that character at the end.
pub proof fn ley_recorte_conserva_el_final(s: Seq<char>)
    requires
        s.len() > 0,
        !es_espacio(s.last()),
    ensures
        recortar(s, blanco()).len() > 0,
        recortar(s, blanco()).last() == s.last(),
{
    lema_quitar_izq_conserva(s);
    let t = quitar_izq(s, blanco());
    assert(quitar_der(t, blanco()) == t);
}

proof fn lema_quitar_izq_conserva(s: Seq<char>)
    requires
        s.len() > 0,
        !es_espacio(s.last()),
    ensures
        quitar_izq(s, blanco()).len() > 0,
        quitar_izq(s, blanco()).last() == s.last(),
    decreases s.len(),
{
    if blanco()(s[0]) {
        assert(s.len() > 1);
        assert(s.drop_first().last() == s.last());
        lema_quitar_izq_conserva(s.drop_first());
    }
}

/// A text that neither starts nor ends with white space is its own trim.
proof fn lema_recorte_sin_bordes(s: Seq<char>)
    requires
        s.len() > 0,
        !es_espacio(s[0]),
        !es_espacio(s.last()),
    ensures
        recortar(s, blanco()) == s,
{
    assert(quitar_izq(s, blanco()) == s);
    assert(quitar_der(s, blanco()) == s);
}

// ---------------------------------------------------------------------
// Decimal numerals
// ---------------------------------------------------------------------

/// The value of a decimal digit.
pub open spec fn valor_digito(c: char) -> int {
    c as int - '0' as int
}

/// Whether every character of `s` is a decimal digit.
pub open spec fn solo_digitos(s: Seq<char>) -> bool {
    forall|i: int| 0 <= i < s.len() ==> '0' <= #[trigger] s[i] <= '9'
}

/// The number a text of decimal digits stands for, read from left to right.
pub open spec fn valor_decimal(s: Seq<char>) -> int
    decreases s.len(),
{
    if s.len() == 0 {
        0
    } else {
        valor_decimal(s.drop_last()) * 10 + valor_digito(s.last())
    }
}

proof fn lema_digito(d: nat)
    requires
        d < 10,
    ensures
        '0' <= digito(d) <= '9',
        valor_digito(digito(d)) == d,
{
}

/// The numeral of `n` is a text of decimal digits, with no leading zero,
/// that stands for `n`.
pub proof fn ley_decimal(n: nat)
    ensures
        decimal(n).len() > 0,
        solo_digitos(decimal(n)),
        decimal(n).len() > 1 ==> decimal(n)[0] != '0',
        valor_decimal(decimal(n)) == n,
    decreases n,
{
    if n < 10 {
        lema_digito(n);
        let s = decimal(n);
        assert(s.drop_last() =~= Seq::<char>::empty());
        assert(valor_decimal(s.drop_last()) == 0);
        assert(s.last() == digito(n));
        assert(valor_decimal(s) == valor_digito(digito(n)));
    } else {
        ley_decimal(n / 10);
        lema_digito(n % 10);
        let s = decimal(n);
        let a = decimal(n / 10);
        assert(s.drop_last() =~= a);
        assert(s[0] == a[0]);
        assert(s.last() == digito(n % 10));
        assert(valor_decimal(s) == valor_decimal(a) * 10 + valor_digito(digito(n % 10)));
        vstd::arithmetic::div_mod::lemma_fundamental_div_mod(n as int, 10);
        assert(valor_digito(digito(n % 10)) == n % 10);
        assert(valor_decimal(a) == n / 10);
        assert(valor_decimal(s) == n);
        assert forall|i: int| 0 <= i < s.len() implies '0' <= #[trigger] s[i] <= '9' by {
            if i < a.len() {
                assert(s[i] == a[i]);
            }
        }
        assert(n / 10 > 0);
        if a.len() == 1 {
            assert(a.last() == a[0]);
            assert(a.drop_last() =~= Seq::<char>::empty());
            assert(valor_decimal(a.drop_last()) == 0);
            assert(valor_decimal(a) == valor_digito(a[0]));
            assert(a[0] != '0');
        }
    }
}

// ---------------------------------------------------------------------
// The commands
// ---------------------------------------------------------------------

proof fn lema_nombre(c: &Comando, nombre: Seq<char>)
    requires
        c.nombre@ == nombre,
        nombre.len() > 0,
        !es_espacio(nombre[0]),
        !es_espacio(nombre.last()),
    ensures
        crate::minikv::nombre_de(c) == nombre,
{
    lema_recorte_sin_bordes(nombre);
}

/// `get` with a key and no value answers exactly the value held for the
/// key, or that the key is not found.
pub proof fn ley_comando_get(kv: &Minikv, c: &Comando)
    requires
        c.nombre@ == "get"@,
        c.clave is Some,
        c.valor is None,
    ensures
        kv@.contains_key(c.clave->0@) ==> kv.resultado_ejecutar(c) == Ok::<
            Seq<char>,
            MinikvError,
        >(kv@[c.clave->0@]),
        !kv@.contains_key(c.clave->0@) ==> kv.resultado_ejecutar(c) == Err::<
            Seq<char>,
            MinikvError,
        >(MinikvError::Client(ClientError::NotFound)),
{
    reveal_strlit("get");
    lema_nombre(c, "get"@);
}

/// `length` with no key answers the decimal numeral of the number of keys
/// held: digits, without a leading zero, that stand for that number.
pub proof fn ley_comando_length(kv: &Minikv, c: &Comando)
    requires
        c.nombre@ == "length"@,
        c.clave is None,
    ensures
        kv.resultado_ejecutar(c) is Ok,
        ({
            let s = kv.resultado_ejecutar(c)->Ok_0;
            &&& s.len() > 0
            &&& solo_digitos(s)
            &&& s.len() > 1 ==> s[0] != '0'
            &&& valor_decimal(s) == kv@.dom().len()
        }),
{
    reveal_strlit("length");
    reveal_strlit("get");
    reveal_strlit("snapshot");
    assert("length"@ != "get"@);
    assert("length"@ != "snapshot"@);
    lema_nombre(c, "length"@);
    ley_decimal(kv@.dom().len());
}

/// `snapshot` with no key answers `OK`, whatever the store holds, the
/// empty store included.
pub proof fn ley_comando_snapshot(kv: &Minikv, c: &Comando)
    requires
        c.nombre@ == "snapshot"@,
        c.clave is None,
    ensures
        kv.resultado_ejecutar(c) == Ok::<Seq<char>, MinikvError>(seq!['O', 'K']),
        crate::minikv::pide_snapshot(c),
{
    reveal_strlit("snapshot");
    reveal_strlit("get");
    reveal_strlit("OK");
    assert("snapshot"@ != "get"@);
    assert("OK"@ =~= seq!['O', 'K']);
    lema_nombre(c, "snapshot"@);
}

// ---------------------------------------------------------------------
// Request lines
// ---------------------------------------------------------------------

/// Characters that the splitting of a request line adds to the current
/// word as they are: no quote, no backslash, and, outside quotes, no space.
pub open spec fn literales(x: Seq<char>, entre_comillas: bool) -> bool {
    forall|i: int|
        0 <= i < x.len() ==> #[trigger] x[i] != '"' && x[i] != '\\' && (entre_comillas || x[i]
            != ' ')
}

proof fn lema_literales(
    x: Seq<char>,
    resto: Seq<char>,
    args: Seq<Seq<char>>,
    actual: Seq<char>,
    entre_comillas: bool,
)
    requires
        literales(x, entre_comillas),
    ensures
        palabras_desde(x + resto, args, actual, entre_comillas, false) == palabras_desde(
            resto,
            args,
            actual + x,
            entre_comillas,
            false,
        ),
    decreases x.len(),
{
    if x.len() == 0 {
        assert(x + resto =~= resto);
        assert(actual + x =~= actual);
    } else {
        let s = x + resto;
        assert(s[0] == x[0]);
        assert(s.drop_first() =~= x.drop_first() + resto);
        assert(literales(x.drop_first(), entre_comillas)) by {
            assert forall|i: int| 0 <= i < x.drop_first().len() implies #[trigger] x.drop_first()[i]
                != '"' && x.drop_first()[i] != '\\' && (entre_comillas || x.drop_first()[i]
                != ' ') by {
                assert(x.drop_first()[i] == x[i + 1]);
            }
        }
        lema_literales(x.drop_first(), resto, args, actual.push(x[0]), entre_comillas);
        assert(actual.push(x[0]) + x.drop_first() =~= actual + x);
    }
}

/// A request `set "key" "value"`, with key and value free of quotes and
/// backslashes and neither all white space, splits into exactly `set`, the
/// key and the value: inside quotes every other character is kept as it is.
pub proof fn ley_palabras_set(k: Seq<char>, w: Seq<char>)
    requires
        literales(k, true),
        literales(w, true),
        recortar(k, blanco()).len() > 0,
        recortar(w, blanco()).len() > 0,
    ensures
        palabras(seq!['s', 'e', 't', ' ', '"'] + k + seq!['"', ' ', '"'] + w + seq!['"']) == seq![
            seq!['s', 'e', 't'],
            k,
            w,
        ],
{
    let set = seq!['s', 'e', 't'];
    let linea = seq!['s', 'e', 't', ' ', '"'] + k + seq!['"', ' ', '"'] + w + seq!['"'];
    lema_recorte_sin_bordes(linea);
    assert(recortar(set, blanco()) == set) by {
        lema_recorte_sin_bordes(set);
    }
    let vacio = Seq::<char>::empty();
    let ninguna = Seq::<Seq<char>>::empty();
    let r1 = seq![' ', '"'] + k + seq!['"', ' ', '"'] + w + seq!['"'];
    let r2 = seq!['"'] + k + seq!['"', ' ', '"'] + w + seq!['"'];
    let r3 = k + seq!['"', ' ', '"'] + w + seq!['"'];
    let r4 = seq!['"', ' ', '"'] + w + seq!['"'];
    let r5 = seq![' ', '"'] + w + seq!['"'];
    let r6 = seq!['"'] + w + seq!['"'];
    let r7 = w + seq!['"'];
    let fin = seq!['"'];
    let a1 = ninguna.push(set);
    let a2 = a1.push(k);
    assert(w.len() > 0) by {
        if w.len() == 0 {
            assert(recortar(w, blanco()) =~= w);
        }
    }
    // "set"
    assert(linea =~= set + r1);
    assert(literales(set, false));
    lema_literales(set, r1, ninguna, vacio, false);
    assert(vacio + set =~= set);
    assert(palabras(linea) == palabras_desde(r1, ninguna, set, false, false));
    // the space after it ends the word
    assert(r1[0] == ' ');
    assert(r1.drop_first() =~= r2);
    assert(palabras_desde(r1, ninguna, set, false, false) == palabras_desde(r2, a1, vacio, false, false));
    // the opening quote
    assert(r2[0] == '"');
    assert(r2.drop_first() =~= r3);
    assert(palabras_desde(r2, a1, vacio, false, false) == palabras_desde(r3, a1, vacio, true, false));
    // the key
    assert(r3 =~= k + r4);
    lema_literales(k, r4, a1, vacio, true);
    assert(vacio + k =~= k);
    assert(palabras_desde(r3, a1, vacio, true, false) == palabras_desde(r4, a1, k, true, false));
    // the closing quote
    assert(r4[0] == '"');
    assert(r4.drop_first() =~= r5);
    assert(palabras_desde(r4, a1, k, true, false) == palabras_desde(r5, a1, k, false, false));
    // the space ends the key
    assert(r5[0] == ' ');
    assert(r5.drop_first() =~= r6);
    assert(palabras_desde(r5, a1, k, false, false) == palabras_desde(r6, a2, vacio, false, false));
    // the opening quote of the value
    assert(r6[0] == '"');
    assert(r6.drop_first() =~= r7);
    assert(palabras_desde(r6, a2, vacio, false, false) == palabras_desde(r7, a2, vacio, true, false));
    // the value
    lema_literales(w, fin, a2, vacio, true);
    assert(vacio + w =~= w);
    assert(palabras_desde(r7, a2, vacio, true, false) == palabras_desde(fin, a2, w, true, false));
    // the closing quote, and the end
    assert(fin[0] == '"');
    assert(fin.drop_first() =~= vacio);
    assert(palabras_desde(fin, a2, w, true, false) == palabras_desde(vacio, a2, w, false, false));
    assert(palabras_desde(vacio, a2, w, false, false) == a2.push(w));
    assert(a2.push(w) =~= seq![set, k, w]);
}

} // verus!
