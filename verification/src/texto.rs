//! Character-level text handling shared by the store, its files and the
//! line protocol: trimming, escaping, splitting and line breaking, each
//! stated over `Seq<char>`.
use vstd::prelude::*;

verus! {

// ---------------------------------------------------------------------
// Specifications
// ---------------------------------------------------------------------

/// Unicode `White_Space`, the set that `char::is_whitespace` tests.
pub open spec fn es_espacio(c: char) -> bool {
    let n = c as u32;
    ||| 0x09 <= n <= 0x0d
    ||| n == 0x20
    ||| n == 0x85
    ||| n == 0xa0
    ||| n == 0x1680
    ||| 0x2000 <= n <= 0x200a
    ||| n == 0x2028
    ||| n == 0x2029
    ||| n == 0x202f
    ||| n == 0x205f
    ||| n == 0x3000
}

/// The predicate that a trim of white space removes.
pub open spec fn blanco() -> spec_fn(char) -> bool {
    |c: char| es_espacio(c)
}

/// The predicate that a trim of quotes removes.
pub open spec fn comilla() -> spec_fn(char) -> bool {
    |c: char| c == '"'
}

/// The predicate a trim removes: the double quote, or white space.
pub open spec fn criterio(comillas: bool) -> spec_fn(char) -> bool {
    if comillas {
        comilla()
    } else {
        blanco()
    }
}

/// `s` without its longest prefix of characters satisfying `p`.
pub open spec fn quitar_izq(s: Seq<char>, p: spec_fn(char) -> bool) -> Seq<char>
    decreases s.len(),
{
    if s.len() > 0 && p(s[0]) {
        quitar_izq(s.drop_first(), p)
    } else {
        s
    }
}

/// `s` without its longest suffix of characters satisfying `p`.
pub open spec fn quitar_der(s: Seq<char>, p: spec_fn(char) -> bool) -> Seq<char>
    decreases s.len(),
{
    if s.len() > 0 && p(s.last()) {
        quitar_der(s.drop_last(), p)
    } else {
        s
    }
}

/// `s` trimmed on both ends by `p` (`str::trim_matches`, `str::trim`).
pub open spec fn recortar(s: Seq<char>, p: spec_fn(char) -> bool) -> Seq<char> {
    quitar_der(quitar_izq(s, p), p)
}

/// `s` with every `"` written as `\"`.
pub open spec fn escapar(s: Seq<char>) -> Seq<char>
    decreases s.len(),
{
    if s.len() == 0 {
        seq![]
    } else if s[0] == '"' {
        seq!['\\', '"'] + escapar(s.drop_first())
    } else {
        seq![s[0]] + escapar(s.drop_first())
    }
}

/// `s` with every `\"`, read from left to right, written as `"`.
pub open spec fn desescapar(s: Seq<char>) -> Seq<char>
    decreases s.len(),
{
    if s.len() == 0 {
        seq![]
    } else if s.len() >= 2 && s[0] == '\\' && s[1] == '"' {
        seq!['"'] + desescapar(s.skip(2))
    } else {
        seq![s[0]] + desescapar(s.drop_first())
    }
}

/// Whether `s` starts with the separator `" "` (quote, space, quote).
pub open spec fn empieza_con_separador(s: Seq<char>) -> bool {
    s.len() >= 3 && s[0] == '"' && s[1] == ' ' && s[2] == '"'
}

/// The pieces of `s` between separators `" "`, found from left to right,
/// the first of them preceded by `actual`.
pub open spec fn partes_desde(s: Seq<char>, actual: Seq<char>) -> Seq<Seq<char>>
    decreases s.len(),
{
    if s.len() == 0 {
        seq![actual]
    } else if empieza_con_separador(s) {
        seq![actual] + partes_desde(s.skip(3), seq![])
    } else {
        partes_desde(s.drop_first(), actual.push(s[0]))
    }
}

/// `s` split at each separator `" "` (`str::split`): never empty.
pub open spec fn partes(s: Seq<char>) -> Seq<Seq<char>> {
    partes_desde(s, seq![])
}

/// Splitting never gives an empty list of pieces.
pub proof fn lema_partes_no_vacias(s: Seq<char>)
    ensures
        partes(s).len() > 0,
{
    lema_partes_desde_no_vacias(s, seq![]);
}

proof fn lema_partes_desde_no_vacias(s: Seq<char>, actual: Seq<char>)
    ensures
        partes_desde(s, actual).len() > 0,
    decreases s.len(),
{
    if s.len() == 0 {
    } else if empieza_con_separador(s) {
        lema_partes_desde_no_vacias(s.skip(3), seq![]);
    } else {
        lema_partes_desde_no_vacias(s.drop_first(), actual.push(s[0]));
    }
}

/// `s` in the exact form of the files: a quote as `\"`, a backslash as `\\` and a
/// line break as `\n`; every other character as it is.
pub open spec fn escapar_todo(s: Seq<char>) -> Seq<char>
    decreases s.len(),
{
    if s.len() == 0 {
        seq![]
    } else {
        tramo_escapado(s[0]) + escapar_todo(s.drop_first())
    }
}

/// How one character is written inside quotes.
pub open spec fn tramo_escapado(c: char) -> Seq<char> {
    if c == '"' {
        seq!['\\', '"']
    } else if c == '\\' {
        seq!['\\', '\\']
    } else if c == '\n' {
        seq!['\\', 'n']
    } else {
        seq![c]
    }
}

/// The character that a backslash followed by `c` stands for.
pub open spec fn escapado_de(c: char) -> char {
    if c == 'n' {
        '\n'
    } else {
        c
    }
}

/// Reads a quoted text whose opening quote is already read, after the
/// characters `leido`: a backslash takes the next character (`\n` a line
/// break), an unescaped quote ends it. Gives the text and what follows
/// the closing quote, or `None` if the text does not end.
pub open spec fn leer_escapado(s: Seq<char>, leido: Seq<char>) -> Option<(Seq<char>, Seq<char>)>
    decreases s.len(),
{
    if s.len() == 0 {
        None
    } else if s[0] == '"' {
        Some((leido, s.drop_first()))
    } else if s[0] == '\\' {
        if s.len() >= 2 {
            leer_escapado(s.skip(2), leido.push(escapado_de(s[1])))
        } else {
            None
        }
    } else {
        leer_escapado(s.drop_first(), leido.push(s[0]))
    }
}

/// A line without the `\r` that ended it, if it had one.
pub open spec fn sin_retorno(a: Seq<char>) -> Seq<char> {
    if a.len() > 0 && a.last() == '\r' {
        a.drop_last()
    } else {
        a
    }
}

/// The lines of `s` after the partial line `actual`, as a buffered reader
/// gives them: each ended by `\n` and a `\r` before it dropped, the last
/// one kept only when it is not empty.
pub open spec fn lineas_desde(s: Seq<char>, actual: Seq<char>) -> Seq<Seq<char>>
    decreases s.len(),
{
    if s.len() == 0 {
        if actual.len() == 0 {
            seq![]
        } else {
            seq![actual]
        }
    } else if s[0] == '\n' {
        seq![sin_retorno(actual)] + lineas_desde(s.drop_first(), seq![])
    } else {
        lineas_desde(s.drop_first(), actual.push(s[0]))
    }
}

/// The lines of the text `s`.
pub open spec fn lineas(s: Seq<char>) -> Seq<Seq<char>> {
    lineas_desde(s, seq![])
}

/// The decimal digit for `d < 10`.
pub open spec fn digito(d: nat) -> char {
    if d == 0 {
        '0'
    } else if d == 1 {
        '1'
    } else if d == 2 {
        '2'
    } else if d == 3 {
        '3'
    } else if d == 4 {
        '4'
    } else if d == 5 {
        '5'
    } else if d == 6 {
        '6'
    } else if d == 7 {
        '7'
    } else if d == 8 {
        '8'
    } else {
        '9'
    }
}

/// The decimal numeral of `n`, without leading zeros.
pub open spec fn decimal(n: nat) -> Seq<char>
    decreases n,
{
    if n < 10 {
        seq![digito(n)]
    } else {
        decimal(n / 10).push(digito(n % 10))
    }
}

// ---------------------------------------------------------------------
// Facts about escaping, splitting and line breaking
// ---------------------------------------------------------------------

/// Escaping leaves the line breaks of a text as they are.
pub proof fn lema_escapar_sin_salto(s: Seq<char>)
    requires
        !s.contains('\n'),
    ensures
        !escapar(s).contains('\n'),
    decreases s.len(),
{
    if s.len() > 0 {
        lema_escapar_sin_salto(s.drop_first());
        assert(!s.drop_first().contains('\n')) by {
            if s.drop_first().contains('\n') {
                let i = choose|i: int| 0 <= i < s.drop_first().len() && s.drop_first()[i] == '\n';
                assert(s[i + 1] == '\n');
            }
        }
        let e = escapar(s);
        let r = escapar(s.drop_first());
        if e.contains('\n') {
            let i = choose|i: int| 0 <= i < e.len() && e[i] == '\n';
            if s[0] == '"' {
                if i >= 2 {
                    assert(r[i - 2] == '\n');
                }
            } else {
                if i >= 1 {
                    assert(r[i - 1] == '\n');
                } else {
                    assert(s[0] == '\n');
                }
            }
        }
    }
}

/// Escaping distributes over concatenation.
pub proof fn lema_escapar_concat(a: Seq<char>, b: Seq<char>)
    ensures
        escapar(a + b) == escapar(a) + escapar(b),
    decreases a.len(),
{
    if a.len() == 0 {
        assert(a + b =~= b);
        assert(escapar(a) =~= Seq::<char>::empty());
        assert(escapar(a) + escapar(b) =~= escapar(b));
    } else {
        lema_escapar_concat(a.drop_first(), b);
        assert((a + b).drop_first() =~= a.drop_first() + b);
        assert((a + b)[0] == a[0]);
        if a[0] == '"' {
            assert(escapar(a + b) =~= escapar(a) + escapar(b));
        } else {
            assert(escapar(a + b) =~= escapar(a) + escapar(b));
        }
    }
}

/// An escaped text never starts with a quote, is empty only if the text
/// is, and ends with the text's last character.
pub proof fn lema_escapar_extremos(s: Seq<char>)
    ensures
        escapar(s).len() >= s.len(),
        escapar(s).len() > 0 ==> escapar(s)[0] != '"',
        s.len() > 0 ==> escapar(s).len() > 0 && escapar(s).last() == s.last(),
        s.len() > 0 ==> escapar(s.drop_last()) + escapar(seq![s.last()]) == escapar(s),
    decreases s.len(),
{
    if s.len() > 0 {
        lema_escapar_extremos(s.drop_first());
        lema_escapar_concat(s.drop_last(), seq![s.last()]);
        assert(s.drop_last() + seq![s.last()] =~= s);
        let u = seq![s.last()];
        assert(u.drop_first() =~= Seq::<char>::empty());
        assert(escapar(u.drop_first()) =~= Seq::<char>::empty());
        if s.last() == '"' {
            assert(escapar(u) =~= seq!['\\', '"']);
        } else {
            assert(escapar(u) =~= seq![s.last()]);
        }
    }
}

/// In an escaped text every quote comes right after a backslash.
pub proof fn lema_escapar_comillas(s: Seq<char>, j: int)
    requires
        0 <= j < escapar(s).len(),
        escapar(s)[j] == '"',
    ensures
        j > 0,
        escapar(s)[j - 1] == '\\',
    decreases s.len(),
{
    let r = escapar(s.drop_first());
    lema_escapar_extremos(s.drop_first());
    if s[0] == '"' {
        if j >= 2 {
            lema_escapar_comillas(s.drop_first(), j - 2);
        }
    } else {
        if j >= 1 {
            lema_escapar_comillas(s.drop_first(), j - 1);
        }
    }
}

/// Unescaping undoes escaping.
pub proof fn lema_desescapar_escapar(s: Seq<char>)
    ensures
        desescapar(escapar(s)) == s,
    decreases s.len(),
{
    if s.len() > 0 {
        let r = escapar(s.drop_first());
        lema_desescapar_escapar(s.drop_first());
        lema_escapar_extremos(s.drop_first());
        let e = escapar(s);
        if s[0] == '"' {
            assert(e =~= seq!['\\', '"'] + r);
            assert(e.skip(2) =~= r);
            assert(desescapar(e) =~= s);
        } else if s[0] == '\\' {
            assert(e =~= seq!['\\'] + r);
            assert(e.drop_first() =~= r);
            assert(desescapar(e) =~= s);
        } else {
            assert(e =~= seq![s[0]] + r);
            assert(e.drop_first() =~= r);
            assert(desescapar(e) =~= s);
        }
    }
}

/// Splitting reads past a stretch in which no separator starts.
pub proof fn lema_partes_sin_separador(s: Seq<char>, actual: Seq<char>, n: int)
    requires
        0 <= n <= s.len(),
        forall|i: int| 0 <= i < n ==> !empieza_con_separador(#[trigger] s.skip(i)),
    ensures
        partes_desde(s, actual) == partes_desde(s.skip(n), actual + s.take(n)),
    decreases n,
{
    if n == 0 {
        assert(s.skip(0) =~= s);
        assert(actual + s.take(0) =~= actual);
    } else {
        assert(s.skip(0) =~= s);
        let t = s.drop_first();
        assert forall|i: int| 0 <= i < n - 1 implies !empieza_con_separador(#[trigger] t.skip(i)) by {
            assert(t.skip(i) =~= s.skip(i + 1));
        }
        lema_partes_sin_separador(t, actual.push(s[0]), n - 1);
        assert(t.skip(n - 1) =~= s.skip(n));
        assert(actual.push(s[0]) + t.take(n - 1) =~= actual + s.take(n));
    }
}

/// The separator `" "`.
pub open spec fn separador() -> Seq<char> {
    seq!['"', ' ', '"']
}

/// A text with a separator between two stretches in which none starts
/// splits into those two stretches.
pub proof fn lema_partes_dos(a: Seq<char>, b: Seq<char>)
    requires
        forall|i: int| 0 <= i < a.len() ==> !empieza_con_separador(#[trigger] (a + separador() + b).skip(i)),
        forall|i: int| 0 <= i < b.len() ==> !empieza_con_separador(#[trigger] b.skip(i)),
    ensures
        partes(a + separador() + b) == seq![a, b],
{
    let s = a + separador() + b;
    lema_partes_sin_separador(s, seq![], a.len() as int);
    assert(seq![] + s.take(a.len() as int) =~= a);
    let u = s.skip(a.len() as int);
    assert(u =~= separador() + b);
    assert(empieza_con_separador(u));
    assert(u.skip(3) =~= b);
    lema_partes_sin_separador(b, seq![], b.len() as int);
    assert(b.skip(b.len() as int) =~= Seq::<char>::empty());
    assert(seq![] + b.take(b.len() as int) =~= b);
    assert(partes_desde(b, seq![]) =~= seq![b]);
    assert(partes(s) =~= seq![a, b]);
}

/// No separator starts inside an escaped text.
pub proof fn lema_escapado_sin_separador(s: Seq<char>, i: int)
    requires
        0 <= i < escapar(s).len(),
    ensures
        !empieza_con_separador(escapar(s).skip(i)),
{
    let e = escapar(s);
    if empieza_con_separador(e.skip(i)) {
        assert(e[i + 2] == e.skip(i)[2]);
        assert(e[i + 1] == e.skip(i)[1]);
        lema_escapar_comillas(s, i + 2);
    }
}

/// An escaped text holds no line break.
pub proof fn lema_escapar_todo_sin_salto(s: Seq<char>)
    ensures
        !escapar_todo(s).contains('\n'),
    decreases s.len(),
{
    if s.len() > 0 {
        lema_escapar_todo_sin_salto(s.drop_first());
        let e = escapar_todo(s);
        let p = tramo_escapado(s[0]);
        let r = escapar_todo(s.drop_first());
        assert(e == p + r);
        if e.contains('\n') {
            let i = choose|i: int| 0 <= i < e.len() && e[i] == '\n';
            if i >= p.len() {
                assert(r[i - p.len()] == '\n');
            }
        }
    }
}

/// Reading a quoted text back gives what was escaped, and leaves what
/// follows the closing quote.
pub proof fn lema_leer_escapado(s: Seq<char>, resto: Seq<char>, leido: Seq<char>)
    ensures
        leer_escapado(escapar_todo(s) + seq!['"'] + resto, leido) == Some((leido + s, resto)),
    decreases s.len(),
{
    let t = escapar_todo(s) + seq!['"'] + resto;
    if s.len() == 0 {
        assert(escapar_todo(s) =~= Seq::<char>::empty());
        assert(t =~= seq!['"'] + resto);
        assert(t.drop_first() =~= resto);
        assert(leido + s =~= leido);
    } else {
        let c = s[0];
        let u = escapar_todo(s.drop_first()) + seq!['"'] + resto;
        lema_leer_escapado(s.drop_first(), resto, leido.push(c));
        assert(leido.push(c) + s.drop_first() =~= leido + s);
        if c == '"' || c == '\\' || c == '\n' {
            assert(t =~= tramo_escapado(c) + u);
            assert(t.skip(2) =~= u);
        } else {
            assert(t =~= seq![c] + u);
            assert(t.drop_first() =~= u);
        }
    }
}

/// A text with no line break and no closing `\r`, followed by a line break,
/// is one line.
pub proof fn lema_lineas_tramo(a: Seq<char>, resto: Seq<char>, actual: Seq<char>)
    requires
        !a.contains('\n'),
    ensures
        lineas_desde(a + seq!['\n'] + resto, actual) == seq![sin_retorno(actual + a)]
            + lineas_desde(resto, seq![]),
    decreases a.len(),
{
    let s = a + seq!['\n'] + resto;
    if a.len() == 0 {
        assert(s[0] == '\n');
        assert(s.drop_first() =~= resto);
        assert(actual + a =~= actual);
    } else {
        assert(s[0] == a[0]);
        assert(a[0] != '\n') by {
            if a[0] == '\n' {
                assert(a.contains('\n'));
            }
        }
        assert(!a.drop_first().contains('\n')) by {
            if a.drop_first().contains('\n') {
                let i = choose|i: int| 0 <= i < a.drop_first().len() && a.drop_first()[i] == '\n';
                assert(a[i + 1] == '\n');
            }
        }
        assert(s.drop_first() =~= a.drop_first() + seq!['\n'] + resto);
        lema_lineas_tramo(a.drop_first(), resto, actual.push(a[0]));
        assert(actual.push(a[0]) + a.drop_first() =~= actual + a);
    }
}

/// The views of a vector of strings.
pub open spec fn vistas(v: Seq<String>) -> Seq<Seq<char>> {
    v.map_values(|x: String| x@)
}

// ---------------------------------------------------------------------
// Executable functions
// ---------------------------------------------------------------------

/// Appends one character to a string: a call of `String::push`.
/// Trusted to leave the old characters in place and add `c` after them.
#[verifier::external_body]
pub fn agregar_caracter(s: &mut String, c: char)
    ensures
        final(s)@ == old(s)@.push(c),
{
    s.push(c);
}

/// The characters of `s`, in order.
pub fn caracteres(s: &str) -> (v: Vec<char>)
    ensures
        v@ == s@,
{
    let mut v: Vec<char> = Vec::new();
    for c in it: s.chars()
        invariant
            v@ == it.seq().take(it.index() as int),
            it.seq() == s@,
    {
        v.push(c);
    }
    v
}

/// The string made of `v[desde..hasta]`.
pub fn cadena(v: &Vec<char>, desde: usize, hasta: usize) -> (r: String)
    requires
        desde <= hasta <= v.len(),
    ensures
        r@ == v@.subrange(desde as int, hasta as int),
{
    let mut r = String::new();
    let mut i = desde;
    while i < hasta
        invariant
            desde <= i <= hasta <= v.len(),
            r@ == v@.subrange(desde as int, i as int),
        decreases hasta - i,
    {
        agregar_caracter(&mut r, v[i]);
        assert(v@.subrange(desde as int, i + 1) =~= v@.subrange(desde as int, i as int).push(v@[i as int]));
        i = i + 1;
    }
    r
}

/// The characters `v[desde..hasta]`.
pub fn tramo(v: &Vec<char>, desde: usize, hasta: usize) -> (r: Vec<char>)
    requires
        desde <= hasta <= v.len(),
    ensures
        r@ == v@.subrange(desde as int, hasta as int),
{
    let mut r: Vec<char> = Vec::new();
    let mut i = desde;
    while i < hasta
        invariant
            desde <= i <= hasta <= v.len(),
            r@ == v@.subrange(desde as int, i as int),
        decreases hasta - i,
    {
        r.push(v[i]);
        assert(v@.subrange(desde as int, i + 1) =~= v@.subrange(desde as int, i as int).push(v@[i as int]));
        i = i + 1;
    }
    r
}

/// Whether `v` holds no line break.
pub fn sin_salto(v: &Vec<char>) -> (r: bool)
    ensures
        r == !v@.contains('\n'),
{
    let mut i: usize = 0;
    while i < v.len()
        invariant
            i <= v.len(),
            forall|j: int| 0 <= j < i ==> v@[j] != '\n',
        decreases v.len() - i,
    {
        if v[i] == '\n' {
            assert(v@[i as int] == '\n');
            return false;
        }
        i = i + 1;
    }
    true
}

/// Appends `v[desde..hasta]` to `r`.
pub fn agregar_tramo(r: &mut String, v: &Vec<char>, desde: usize, hasta: usize)
    requires
        desde <= hasta <= v.len(),
    ensures
        final(r)@ == old(r)@ + v@.subrange(desde as int, hasta as int),
{
    let mut i = desde;
    while i < hasta
        invariant
            desde <= i <= hasta <= v.len(),
            r@ == old(r)@ + v@.subrange(desde as int, i as int),
        decreases hasta - i,
    {
        agregar_caracter(r, v[i]);
        assert(v@.subrange(desde as int, i + 1) =~= v@.subrange(desde as int, i as int).push(v@[i as int]));
        i = i + 1;
    }
}

/// Appends all of `s` to `r`.
pub fn agregar_texto(r: &mut String, s: &str)
    ensures
        final(r)@ == old(r)@ + s@,
{
    let v = caracteres(s);
    agregar_tramo(r, &v, 0, v.len());
    assert(v@.subrange(0, v@.len() as int) =~= v@);
}

/// Whether `c` is white space (`char::is_whitespace`).
pub fn es_espacio_exec(c: char) -> (r: bool)
    ensures
        r == es_espacio(c),
{
    let n = c as u32;
    (0x09 <= n && n <= 0x0d) || n == 0x20 || n == 0x85 || n == 0xa0 || n == 0x1680 || (0x2000
        <= n && n <= 0x200a) || n == 0x2028 || n == 0x2029 || n == 0x202f || n == 0x205f || n
        == 0x3000
}

/// Whether `c` is removed by the trim that `comillas` selects.
pub fn cumple(c: char, comillas: bool) -> (r: bool)
    ensures
        r == criterio(comillas)(c),
{
    if comillas {
        c == '"'
    } else {
        es_espacio_exec(c)
    }
}

proof fn lema_quitar_izq_paso(s: Seq<char>, i: int, p: spec_fn(char) -> bool)
    requires
        0 <= i < s.len(),
        p(s[i]),
    ensures
        quitar_izq(s.skip(i), p) == quitar_izq(s.skip(i + 1), p),
{
    assert(s.skip(i).drop_first() =~= s.skip(i + 1));
}

proof fn lema_quitar_der_paso(s: Seq<char>, a: int, b: int, p: spec_fn(char) -> bool)
    requires
        0 <= a < b <= s.len(),
        p(s[b - 1]),
    ensures
        quitar_der(s.subrange(a, b), p) == quitar_der(s.subrange(a, b - 1), p),
{
    assert(s.subrange(a, b).drop_last() =~= s.subrange(a, b - 1));
}

/// The bounds of `v[desde..hasta]` once trimmed by `criterio(comillas)`.
pub fn limites(v: &Vec<char>, desde: usize, hasta: usize, comillas: bool) -> (r: (usize, usize))
    requires
        desde <= hasta <= v.len(),
    ensures
        desde <= r.0 <= r.1 <= hasta,
        v@.subrange(r.0 as int, r.1 as int) == recortar(
            v@.subrange(desde as int, hasta as int),
            criterio(comillas),
        ),
{
    let ghost p = criterio(comillas);
    let ghost t = v@.subrange(desde as int, hasta as int);
    let mut a = desde;
    assert(t.skip(0) =~= t);
    while a < hasta && cumple(v[a], comillas)
        invariant
            desde <= a <= hasta <= v.len(),
            t == v@.subrange(desde as int, hasta as int),
            p == criterio(comillas),
            quitar_izq(t, p) == quitar_izq(t.skip(a - desde), p),
        decreases hasta - a,
    {
        proof {
            lema_quitar_izq_paso(t, a - desde, p);
        }
        a = a + 1;
    }
    proof {
        assert(t.skip(a - desde) =~= v@.subrange(a as int, hasta as int));
    }
    let mut b = hasta;
    while b > a && cumple(v[b - 1], comillas)
        invariant
            desde <= a <= b <= hasta <= v.len(),
            p == criterio(comillas),
            quitar_der(v@.subrange(a as int, hasta as int), p) == quitar_der(
                v@.subrange(a as int, b as int),
                p,
            ),
        decreases b - a,
    {
        proof {
            lema_quitar_der_paso(v@, a as int, b as int, p);
        }
        b = b - 1;
    }
    (a, b)
}

/// `s` without white space at either end (`str::trim`).
pub fn recortar_espacios(s: &str) -> (r: String)
    ensures
        r@ == recortar(s@, blanco()),
{
    let v = caracteres(s);
    let (a, b) = limites(&v, 0, v.len(), false);
    assert(v@.subrange(0, v@.len() as int) =~= v@);
    cadena(&v, a, b)
}

/// Appends `escapar(v[desde..hasta])` to `r`.
pub fn agregar_escapado(r: &mut String, v: &Vec<char>, desde: usize, hasta: usize)
    requires
        desde <= hasta <= v.len(),
    ensures
        final(r)@ == old(r)@ + escapar(v@.subrange(desde as int, hasta as int)),
{
    let ghost t = v@.subrange(desde as int, hasta as int);
    let mut i = desde;
    assert(t.skip(0) =~= t);
    while i < hasta
        invariant
            desde <= i <= hasta <= v.len(),
            t == v@.subrange(desde as int, hasta as int),
            old(r)@ + escapar(t) == r@ + escapar(t.skip(i - desde)),
        decreases hasta - i,
    {
        let ghost antes = r@;
        let c = v[i];
        assert(t.skip(i - desde).drop_first() =~= t.skip(i - desde + 1));
        if c == '"' {
            agregar_caracter(r, '\\');
            agregar_caracter(r, '"');
            assert(antes + escapar(t.skip(i - desde)) =~= r@ + escapar(t.skip(i - desde + 1)));
        } else {
            agregar_caracter(r, c);
            assert(antes + escapar(t.skip(i - desde)) =~= r@ + escapar(t.skip(i - desde + 1)));
        }
        i = i + 1;
    }
    assert(t.skip(hasta - desde) =~= Seq::<char>::empty());
    assert(r@ =~= old(r)@ + escapar(t));
}

/// `s` with every `"` written as `\"` (`str::replace('"', "\\\"")`).
pub fn escapado(s: &str) -> (r: String)
    ensures
        r@ == escapar(s@),
{
    let v = caracteres(s);
    let mut r = String::new();
    agregar_escapado(&mut r, &v, 0, v.len());
    assert(v@.subrange(0, v@.len() as int) =~= v@);
    assert(r@ =~= escapar(s@));
    r
}

/// The string `desescapar(v[desde..hasta])`.
pub fn desescapado_tramo(v: &Vec<char>, desde: usize, hasta: usize) -> (r: String)
    requires
        desde <= hasta <= v.len(),
    ensures
        r@ == desescapar(v@.subrange(desde as int, hasta as int)),
{
    let ghost t = v@.subrange(desde as int, hasta as int);
    let mut r = String::new();
    let mut i = desde;
    assert(t.skip(0) =~= t);
    while i < hasta
        invariant
            desde <= i <= hasta <= v.len(),
            t == v@.subrange(desde as int, hasta as int),
            desescapar(t) == r@ + desescapar(t.skip(i - desde)),
        decreases hasta - i,
    {
        let ghost antes = r@;
        let ghost resto = t.skip(i - desde);
        if i + 1 < hasta && v[i] == '\\' && v[i + 1] == '"' {
            agregar_caracter(&mut r, '"');
            assert(resto.skip(2) =~= t.skip(i - desde + 2));
            assert(antes + desescapar(resto) =~= r@ + desescapar(t.skip(i - desde + 2)));
            i = i + 2;
        } else {
            agregar_caracter(&mut r, v[i]);
            assert(resto.drop_first() =~= t.skip(i - desde + 1));
            assert(antes + desescapar(resto) =~= r@ + desescapar(t.skip(i - desde + 1)));
            i = i + 1;
        }
    }
    assert(t.skip(hasta - desde) =~= Seq::<char>::empty());
    assert(r@ =~= desescapar(t));
    r
}

/// `s` with every `\"` written as `"` (`str::replace("\\\"", "\"")`).
pub fn desescapado(s: &str) -> (r: String)
    ensures
        r@ == desescapar(s@),
{
    let v = caracteres(s);
    assert(v@.subrange(0, v@.len() as int) =~= v@);
    desescapado_tramo(&v, 0, v.len())
}

/// The pieces of `v[desde..hasta]` between separators `" "`.
pub fn dividir(v: &Vec<char>, desde: usize, hasta: usize) -> (r: Vec<String>)
    requires
        desde <= hasta <= v.len(),
    ensures
        vistas(r@) == partes(v@.subrange(desde as int, hasta as int)),
{
    let ghost t = v@.subrange(desde as int, hasta as int);
    let mut r: Vec<String> = Vec::new();
    let mut inicio = desde;
    let mut i = desde;
    assert(t.skip(0) =~= t);
    assert(v@.subrange(desde as int, desde as int) =~= Seq::<char>::empty());
    assert(vistas(r@) =~= Seq::<Seq<char>>::empty());
    while i < hasta
        invariant
            desde <= inicio <= i <= hasta <= v.len(),
            t == v@.subrange(desde as int, hasta as int),
            partes(t) == vistas(r@) + partes_desde(
                t.skip(i - desde),
                v@.subrange(inicio as int, i as int),
            ),
        decreases hasta - i,
    {
        let ghost resto = t.skip(i - desde);
        let ghost actual = v@.subrange(inicio as int, i as int);
        if hasta - i > 2 && v[i] == '"' && v[i + 1] == ' ' && v[i + 2] == '"' {
            let pieza = cadena(v, inicio, i);
            let ghost antes = r@;
            r.push(pieza);
            assert(resto.skip(3) =~= t.skip(i - desde + 3));
            assert(vistas(r@) =~= vistas(antes).push(actual));
            assert(v@.subrange(i + 3, i + 3) =~= Seq::<char>::empty());
            assert(vistas(antes) + partes_desde(resto, actual) =~= vistas(r@) + partes_desde(
                t.skip(i - desde + 3),
                v@.subrange(i + 3, i + 3),
            ));
            i = i + 3;
            inicio = i;
        } else {
            assert(resto.drop_first() =~= t.skip(i - desde + 1));
            assert(actual.push(resto[0]) =~= v@.subrange(inicio as int, i + 1));
            i = i + 1;
        }
    }
    let ultima = cadena(v, inicio, hasta);
    let ghost antes = r@;
    r.push(ultima);
    assert(t.skip(hasta - desde) =~= Seq::<char>::empty());
    assert(vistas(r@) =~= vistas(antes).push(v@.subrange(inicio as int, hasta as int)));
    assert(vistas(r@) =~= partes(t));
    r
}

/// Appends `escapar_todo(v[desde..hasta])` to `r`.
pub fn agregar_escapado_todo(r: &mut String, v: &Vec<char>, desde: usize, hasta: usize)
    requires
        desde <= hasta <= v.len(),
    ensures
        final(r)@ == old(r)@ + escapar_todo(v@.subrange(desde as int, hasta as int)),
{
    let ghost t = v@.subrange(desde as int, hasta as int);
    let mut i = desde;
    assert(t.skip(0) =~= t);
    while i < hasta
        invariant
            desde <= i <= hasta <= v.len(),
            t == v@.subrange(desde as int, hasta as int),
            old(r)@ + escapar_todo(t) == r@ + escapar_todo(t.skip(i - desde)),
        decreases hasta - i,
    {
        let ghost antes = r@;
        let c = v[i];
        assert(t.skip(i - desde).drop_first() =~= t.skip(i - desde + 1));
        assert(t.skip(i - desde)[0] == c);
        if c == '"' {
            agregar_caracter(r, '\\');
            agregar_caracter(r, '"');
        } else if c == '\\' {
            agregar_caracter(r, '\\');
            agregar_caracter(r, '\\');
        } else if c == '\n' {
            agregar_caracter(r, '\\');
            agregar_caracter(r, 'n');
        } else {
            agregar_caracter(r, c);
        }
        assert(r@ =~= antes + tramo_escapado(c));
        assert(antes + escapar_todo(t.skip(i - desde)) =~= r@ + escapar_todo(t.skip(i - desde + 1)));
        i = i + 1;
    }
    assert(t.skip(hasta - desde) =~= Seq::<char>::empty());
    assert(r@ =~= old(r)@ + escapar_todo(t));
}

/// `s` in the exact form of the files (`escapar_todo`).
pub fn escapado_todo(s: &str) -> (r: String)
    ensures
        r@ == escapar_todo(s@),
{
    let v = caracteres(s);
    let mut r = String::new();
    agregar_escapado_todo(&mut r, &v, 0, v.len());
    assert(v@.subrange(0, v@.len() as int) =~= v@);
    assert(r@ =~= escapar_todo(s@));
    r
}

/// Reads the quoted text that starts after the opening quote at
/// `v[desde - 1]`: the text, and the position after its closing quote.
pub fn leer_cadena(v: &Vec<char>, desde: usize) -> (r: Option<(String, usize)>)
    requires
        desde <= v.len(),
    ensures
        match r {
            Some((s, fin)) => desde < fin <= v.len() && leer_escapado(v@.skip(desde as int), seq![])
                == Some((s@, v@.skip(fin as int))),
            None => leer_escapado(v@.skip(desde as int), seq![]) is None,
        },
{
    let mut s = String::new();
    let mut i = desde;
    while i < v.len()
        invariant
            desde <= i <= v.len(),
            leer_escapado(v@.skip(desde as int), seq![]) == leer_escapado(v@.skip(i as int), s@),
        decreases v.len() - i,
    {
        let ghost resto = v@.skip(i as int);
        assert(resto[0] == v@[i as int]);
        assert(resto.drop_first() =~= v@.skip(i + 1));
        if v[i] == '"' {
            return Some((s, i + 1));
        } else if v[i] == '\\' {
            if v.len() - i >= 2 {
                let c = v[i + 1];
                assert(resto[1] == c);
                assert(resto.skip(2) =~= v@.skip(i + 2));
                let d = if c == 'n' {
                    '\n'
                } else {
                    c
                };
                agregar_caracter(&mut s, d);
                i = i + 2;
            } else {
                return None;
            }
        } else {
            agregar_caracter(&mut s, v[i]);
            i = i + 1;
        }
    }
    assert(v@.skip(i as int) =~= Seq::<char>::empty());
    None
}

/// The lines of `texto`, as `BufRead::lines` reads them.
pub fn dividir_lineas(texto: &str) -> (r: Vec<String>)
    ensures
        vistas(r@) == lineas(texto@),
{
    let v = caracteres(texto);
    let ghost t = v@;
    let mut r: Vec<String> = Vec::new();
    let mut inicio: usize = 0;
    let mut i: usize = 0;
    assert(t.skip(0) =~= t);
    assert(t.subrange(0, 0) =~= Seq::<char>::empty());
    assert(vistas(r@) =~= Seq::<Seq<char>>::empty());
    while i < v.len()
        invariant
            0 <= inicio <= i <= v.len(),
            t == v@,
            lineas(t) == vistas(r@) + lineas_desde(t.skip(i as int), t.subrange(inicio as int, i as int)),
        decreases v.len() - i,
    {
        let ghost resto = t.skip(i as int);
        let ghost actual = t.subrange(inicio as int, i as int);
        assert(resto.drop_first() =~= t.skip(i + 1));
        if v[i] == '\n' {
            let fin = if i > inicio && v[i - 1] == '\r' {
                i - 1
            } else {
                i
            };
            assert(t.subrange(inicio as int, fin as int) =~= sin_retorno(actual));
            let linea = cadena(&v, inicio, fin);
            let ghost antes = r@;
            r.push(linea);
            assert(vistas(r@) =~= vistas(antes).push(sin_retorno(actual)));
            assert(t.subrange(i + 1, i + 1) =~= Seq::<char>::empty());
            assert(vistas(antes) + lineas_desde(resto, actual) =~= vistas(r@) + lineas_desde(
                t.skip(i + 1),
                t.subrange(i + 1, i + 1),
            ));
            i = i + 1;
            inicio = i;
        } else {
            assert(actual.push(resto[0]) =~= t.subrange(inicio as int, i + 1));
            i = i + 1;
        }
    }
    assert(t.skip(i as int) =~= Seq::<char>::empty());
    if inicio < i {
        let ultima = cadena(&v, inicio, i);
        let ghost antes = r@;
        r.push(ultima);
        assert(vistas(r@) =~= vistas(antes).push(t.subrange(inicio as int, i as int)));
    } else {
        assert(vistas(r@) =~= vistas(r@) + Seq::<Seq<char>>::empty());
    }
    r
}

/// Appends the decimal numeral of `n` to `r`.
fn agregar_decimal(r: &mut String, n: usize)
    ensures
        final(r)@ == old(r)@ + decimal(n as nat),
    decreases n,
{
    if n >= 10 {
        agregar_decimal(r, n / 10);
    }
    let d = n % 10;
    let c = if d == 0 {
        '0'
    } else if d == 1 {
        '1'
    } else if d == 2 {
        '2'
    } else if d == 3 {
        '3'
    } else if d == 4 {
        '4'
    } else if d == 5 {
        '5'
    } else if d == 6 {
        '6'
    } else if d == 7 {
        '7'
    } else if d == 8 {
        '8'
    } else {
        '9'
    };
    let ghost antes = r@;
    agregar_caracter(r, c);
    assert(c == digito((n % 10) as nat));
    if n >= 10 {
        assert(r@ =~= old(r)@ + decimal(n as nat));
    } else {
        assert(r@ =~= old(r)@ + decimal(n as nat));
    }
}

/// The decimal numeral of `n` (`format!("{}", n)`).
pub fn numeral(n: usize) -> (r: String)
    ensures
        r@ == decimal(n as nat),
{
    let mut r = String::new();
    agregar_decimal(&mut r, n);
    assert(r@ =~= decimal(n as nat));
    r
}

} // verus!
