//! The store's dictionary from keys to values: a list of pairs in which no
//! key occurs twice, seen as a finite map.
use vstd::prelude::*;

verus! {

/// The map that a list of pairs with distinct keys stands for.
pub open spec fn mapa_de(s: Seq<(Seq<char>, Seq<char>)>) -> Map<Seq<char>, Seq<char>> {
    Map::new(
        |k: Seq<char>| exists|i: int| 0 <= i < s.len() && #[trigger] s[i].0 == k,
        |k: Seq<char>| s[choose|i: int| 0 <= i < s.len() && #[trigger] s[i].0 == k].1,
    )
}

/// No key occurs twice in `s`.
pub open spec fn claves_distintas(s: Seq<(Seq<char>, Seq<char>)>) -> bool {
    forall|i: int, j: int| 0 <= i < s.len() && 0 <= j < s.len() && i != j ==> #[trigger] s[i].0 != #[trigger] s[j].0
}

/// The keys of `s`, in order.
pub open spec fn claves(s: Seq<(Seq<char>, Seq<char>)>) -> Seq<Seq<char>> {
    s.map_values(|p: (Seq<char>, Seq<char>)| p.0)
}

/// In a list with distinct keys, the pair at `i` is what the map holds for its key.
pub proof fn lema_mapa_de_en(s: Seq<(Seq<char>, Seq<char>)>, i: int)
    requires
        claves_distintas(s),
        0 <= i < s.len(),
    ensures
        mapa_de(s).contains_key(s[i].0),
        mapa_de(s)[s[i].0] == s[i].1,
{
    let k = s[i].0;
    assert(mapa_de(s).dom().contains(k));
    let j = choose|j: int| 0 <= j < s.len() && #[trigger] s[j].0 == k;
    assert(s[j].0 == k);
    assert(j == i);
}

/// A map of a list with distinct keys has as many keys as the list has pairs.
pub proof fn lema_mapa_de_tamano(s: Seq<(Seq<char>, Seq<char>)>)
    requires
        claves_distintas(s),
    ensures
        mapa_de(s).dom().finite(),
        mapa_de(s).dom().len() == s.len(),
{
    let c = claves(s);
    assert(c.no_duplicates()) by {
        assert forall|i: int, j: int| 0 <= i < c.len() && 0 <= j < c.len() && i != j implies c[i]
            != c[j] by {
            assert(s[i].0 != s[j].0);
        }
    }
    assert(mapa_de(s).dom() =~= c.to_set()) by {
        assert forall|k: Seq<char>| mapa_de(s).dom().contains(k) implies c.to_set().contains(k) by {
            let i = choose|i: int| 0 <= i < s.len() && #[trigger] s[i].0 == k;
            assert(c[i] == k);
        }
        assert forall|k: Seq<char>| c.to_set().contains(k) implies mapa_de(s).dom().contains(k) by {
            let i = choose|i: int| 0 <= i < c.len() && c[i] == k;
            assert(s[i].0 == k);
        }
    }
    c.unique_seq_to_set();
}

/// A dictionary from strings to strings.
#[derive(Debug)]
pub struct Diccionario {
    entradas: Vec<(String, String)>,
}

impl Diccionario {
    /// The pairs of the dictionary, in the order in which they are kept.
    pub closed spec fn pares(&self) -> Seq<(Seq<char>, Seq<char>)> {
        self.entradas@.map_values(|p: (String, String)| (p.0@, p.1@))
    }

    /// No key is kept twice.
    pub open spec fn bien_formado(&self) -> bool {
        claves_distintas(self.pares())
    }

    /// An empty dictionary.
    pub fn new() -> (d: Diccionario)
        ensures
            d.bien_formado(),
            d@ == Map::<Seq<char>, Seq<char>>::empty(),
            d.pares() == Seq::<(Seq<char>, Seq<char>)>::empty(),
    {
        let d = Diccionario { entradas: Vec::new() };
        assert(d.pares() =~= Seq::<(Seq<char>, Seq<char>)>::empty());
        assert(d@ =~= Map::<Seq<char>, Seq<char>>::empty());
        d
    }

    /// The number of keys.
    pub fn len(&self) -> (n: usize)
        ensures
            n == self.pares().len(),
            self.bien_formado() ==> n == self@.dom().len(),
    {
        proof {
            if self.bien_formado() {
                lema_mapa_de_tamano(self.pares());
            }
        }
        self.entradas.len()
    }

    /// The key and value kept at position `i`.
    pub fn entrada(&self, i: usize) -> (r: (&String, &String))
        requires
            i < self.pares().len(),
        ensures
            r.0@ == self.pares()[i as int].0,
            r.1@ == self.pares()[i as int].1,
    {
        let p = &self.entradas[i];
        (&p.0, &p.1)
    }

    /// The position of `clave`, if the dictionary holds it.
    fn posicion(&self, clave: &String) -> (r: Option<usize>)
        requires
            self.bien_formado(),
        ensures
            match r {
                Some(i) => i < self.pares().len() && self.pares()[i as int].0 == clave@,
                None => !self@.contains_key(clave@),
            },
    {
        let mut i: usize = 0;
        while i < self.entradas.len()
            invariant
                i <= self.entradas.len(),
                forall|j: int| 0 <= j < i ==> #[trigger] self.pares()[j].0 != clave@,
            decreases self.entradas.len() - i,
        {
            if self.entradas[i].0 == *clave {
                return Some(i);
            }
            i = i + 1;
        }
        proof {
            if self@.contains_key(clave@) {
                let j = choose|j: int| 0 <= j < self.pares().len() && #[trigger] self.pares()[j].0 == clave@;
                assert(self.pares()[j].0 == clave@);
            }
        }
        None
    }

    /// The value held for `clave`.
    pub fn get(&self, clave: &String) -> (r: Option<&String>)
        requires
            self.bien_formado(),
        ensures
            match r {
                Some(v) => self@.contains_key(clave@) && self@[clave@] == v@,
                None => !self@.contains_key(clave@),
            },
    {
        match self.posicion(clave) {
            Some(i) => {
                proof {
                    lema_mapa_de_en(self.pares(), i as int);
                }
                Some(&self.entradas[i].1)
            },
            None => None,
        }
    }

    /// Holds `valor` for `clave`, in place of any value held before.
    pub fn insert(&mut self, clave: String, valor: String)
        requires
            old(self).bien_formado(),
        ensures
            final(self).bien_formado(),
            final(self)@ == old(self)@.insert(clave@, valor@),
    {
        let ghost k = clave@;
        let ghost v = valor@;
        let ghost s = self.pares();
        match self.posicion(&clave) {
            Some(i) => {
                self.entradas.set(i, (clave, valor));
                let ghost t = self.pares();
                assert(t =~= s.update(i as int, (k, v)));
                assert(claves_distintas(t));
                assert forall|x: Seq<char>| #[trigger] mapa_de(t).contains_key(x) <==> mapa_de(
                    s,
                ).insert(k, v).contains_key(x) by {
                    if x == k {
                        lema_mapa_de_en(t, i as int);
                    } else if mapa_de(s).contains_key(x) {
                        let j = choose|j: int| 0 <= j < s.len() && #[trigger] s[j].0 == x;
                        assert(t[j].0 == x);
                    } else if mapa_de(t).contains_key(x) {
                        let j = choose|j: int| 0 <= j < t.len() && #[trigger] t[j].0 == x;
                        assert(s[j].0 == x);
                    }
                }
                assert forall|x: Seq<char>| #[trigger] mapa_de(t).contains_key(x) implies mapa_de(
                    t,
                )[x] == mapa_de(s).insert(k, v)[x] by {
                    let j = choose|j: int| 0 <= j < t.len() && #[trigger] t[j].0 == x;
                    lema_mapa_de_en(t, j);
                    if j != i {
                        lema_mapa_de_en(s, j);
                    }
                }
                assert(mapa_de(t) =~= mapa_de(s).insert(k, v));
            },
            None => {
                self.entradas.push((clave, valor));
                let ghost t = self.pares();
                let ghost n = s.len() as int;
                assert(t =~= s.push((k, v)));
                assert(claves_distintas(t)) by {
                    assert forall|a: int, b: int|
                        0 <= a < t.len() && 0 <= b < t.len() && a != b implies #[trigger] t[a].0
                        != #[trigger] t[b].0 by {
                        if a == n {
                            assert(!mapa_de(s).contains_key(k));
                            assert(s[b].0 == t[b].0);
                        } else if b == n {
                            assert(!mapa_de(s).contains_key(k));
                            assert(s[a].0 == t[a].0);
                        }
                    }
                }
                assert forall|x: Seq<char>| #[trigger] mapa_de(t).contains_key(x) <==> mapa_de(
                    s,
                ).insert(k, v).contains_key(x) by {
                    if x == k {
                        lema_mapa_de_en(t, n);
                    } else if mapa_de(s).contains_key(x) {
                        let j = choose|j: int| 0 <= j < s.len() && #[trigger] s[j].0 == x;
                        assert(t[j].0 == x);
                    } else if mapa_de(t).contains_key(x) {
                        let j = choose|j: int| 0 <= j < t.len() && #[trigger] t[j].0 == x;
                        assert(s[j].0 == x);
                    }
                }
                assert forall|x: Seq<char>| #[trigger] mapa_de(t).contains_key(x) implies mapa_de(
                    t,
                )[x] == mapa_de(s).insert(k, v)[x] by {
                    let j = choose|j: int| 0 <= j < t.len() && #[trigger] t[j].0 == x;
                    lema_mapa_de_en(t, j);
                    if j != n {
                        lema_mapa_de_en(s, j);
                    }
                }
                assert(mapa_de(t) =~= mapa_de(s).insert(k, v));
            },
        }
    }

    /// Drops `clave` and its value, if the dictionary holds it.
    pub fn remove(&mut self, clave: &String)
        requires
            old(self).bien_formado(),
        ensures
            final(self).bien_formado(),
            final(self)@ == old(self)@.remove(clave@),
    {
        let ghost k = clave@;
        let ghost s = self.pares();
        match self.posicion(clave) {
            Some(i) => {
                self.entradas.remove(i);
                let ghost t = self.pares();
                assert(t =~= s.remove(i as int));
                assert(claves_distintas(t)) by {
                    assert forall|a: int, b: int|
                        0 <= a < t.len() && 0 <= b < t.len() && a != b implies #[trigger] t[a].0
                        != #[trigger] t[b].0 by {
                        let a2 = if a < i { a } else { a + 1 };
                        let b2 = if b < i { b } else { b + 1 };
                        assert(t[a] == s[a2]);
                        assert(t[b] == s[b2]);
                    }
                }
                assert forall|x: Seq<char>| #[trigger] mapa_de(t).contains_key(x) <==> mapa_de(
                    s,
                ).remove(k).contains_key(x) by {
                    if mapa_de(t).contains_key(x) {
                        let j = choose|j: int| 0 <= j < t.len() && #[trigger] t[j].0 == x;
                        let j2 = if j < i { j } else { j + 1 };
                        assert(s[j2].0 == x);
                        assert(s[i as int].0 == k);
                    }
                    if x != k && mapa_de(s).contains_key(x) {
                        let j = choose|j: int| 0 <= j < s.len() && #[trigger] s[j].0 == x;
                        if j < i {
                            assert(t[j].0 == x);
                        } else {
                            assert(j != i);
                            assert(t[j - 1].0 == x);
                        }
                    }
                }
                assert forall|x: Seq<char>| #[trigger] mapa_de(t).contains_key(x) implies mapa_de(
                    t,
                )[x] == mapa_de(s).remove(k)[x] by {
                    let j = choose|j: int| 0 <= j < t.len() && #[trigger] t[j].0 == x;
                    let j2 = if j < i { j } else { j + 1 };
                    lema_mapa_de_en(t, j);
                    lema_mapa_de_en(s, j2);
                }
                assert(mapa_de(t) =~= mapa_de(s).remove(k));
            },
            None => {
                assert(mapa_de(s) =~= mapa_de(s).remove(k));
            },
        }
    }
}

impl View for Diccionario {
    type V = Map<Seq<char>, Seq<char>>;

    /// The map that the pairs stand for.
    open spec fn view(&self) -> Map<Seq<char>, Seq<char>> {
        mapa_de(self.pares())
    }
}

} // verus!
