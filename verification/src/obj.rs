//! The line grammar of the mesh text format.
//!
//! A mesh file is read line by line. Around the surrounding white space, a line is
//! a comment (`#...`), a vertex (`v x y z`), a face (`f i0 i1 i2 ...`, where each
//! index may carry `/`-separated fields of which only the first counts), or
//! something else, which is ignored. This module decides what a line is and, for a
//! face, resolves its indices and splits it into triangles. Vertex coordinates are
//! handed out as text for the caller to convert.

use vstd::prelude::*;
use vstd::string::StrSliceExecFns;
use crate::geometria::Cara;

verus! {

/// Why a mesh could not be built from its text.
#[derive(Copy, Clone, Debug, PartialEq, Eq, Structural)]
pub enum ParseError {
    /// A vertex line with fewer than three coordinates, or with one that is not a
    /// number.
    MalformedVertex,
    /// A face with an index that is not an integer or that names no vertex.
    InvalidFaceIndex,
    /// A face line with fewer than three indices.
    DegenerateFace,
    /// A mesh without vertices or without faces.
    EmptyMesh,
}

/// The characters that separate words: those with the Unicode property
/// `White_Space`.
pub open spec fn es_espacio(c: char) -> bool {
    let n = c as u32;
    ||| 0x09 <= n <= 0x0D
    ||| n == 0x20
    ||| n == 0x85
    ||| n == 0xA0
    ||| n == 0x1680
    ||| 0x2000 <= n <= 0x200A
    ||| n == 0x2028
    ||| n == 0x2029
    ||| n == 0x202F
    ||| n == 0x205F
    ||| n == 0x3000
}

/// Tells whether `c` separates words.
#[verifier::when_used_as_spec(es_espacio)]
pub fn es_separador(c: char) -> (r: bool)
    ensures
        r == es_espacio(c),
{
    let n: u32 = c as u32;
    (0x09 <= n && n <= 0x0D) || n == 0x20 || n == 0x85 || n == 0xA0 || n == 0x1680 || (0x2000 <= n
        && n <= 0x200A) || n == 0x2028 || n == 0x2029 || n == 0x202F || n == 0x205F || n
        == 0x3000
}

/// `s` without the white space at its start.
pub open spec fn sin_espacios_iniciales(s: Seq<char>) -> Seq<char>
    decreases s.len(),
{
    if s.len() > 0 && es_espacio(s[0]) {
        sin_espacios_iniciales(s.drop_first())
    } else {
        s
    }
}

/// `s` without the white space at its end.
pub open spec fn sin_espacios_finales(s: Seq<char>) -> Seq<char>
    decreases s.len(),
{
    if s.len() > 0 && es_espacio(s.last()) {
        sin_espacios_finales(s.drop_last())
    } else {
        s
    }
}

/// `s` without the white space at either end.
pub open spec fn recortada(s: Seq<char>) -> Seq<char> {
    sin_espacios_finales(sin_espacios_iniciales(s))
}

/// The length of the word at the start of `s`: how many characters come before
/// the first separator.
pub open spec fn largo_palabra(s: Seq<char>) -> nat
    decreases s.len(),
{
    if s.len() == 0 || es_espacio(s[0]) {
        0
    } else {
        1 + largo_palabra(s.drop_first())
    }
}

/// The word at the start of `s` is no longer than `s`.
pub proof fn lemma_largo_palabra_bound(s: Seq<char>)
    ensures
        largo_palabra(s) <= s.len(),
    decreases s.len(),
{
    if s.len() > 0 && !es_espacio(s[0]) {
        lemma_largo_palabra_bound(s.drop_first());
    }
}

/// The words of `s`: its maximal runs of characters that are not separators, in
/// order.
pub open spec fn palabras(s: Seq<char>) -> Seq<Seq<char>>
    decreases s.len(),
    via palabras_decreases
{
    if s.len() == 0 {
        Seq::empty()
    } else if es_espacio(s[0]) {
        palabras(s.drop_first())
    } else {
        let n = largo_palabra(s) as int;
        seq![s.take(n)] + palabras(s.skip(n))
    }
}

#[via_fn]
proof fn palabras_decreases(s: Seq<char>) {
    lemma_largo_palabra_bound(s);
}

/// The word at the start of `s` holds no separator, and ends at a separator or at
/// the end of `s`.
pub proof fn lemma_palabra_inicial(s: Seq<char>)
    ensures
        largo_palabra(s) <= s.len(),
        forall|k: int| 0 <= k < largo_palabra(s) ==> !es_espacio(#[trigger] s[k]),
        largo_palabra(s) < s.len() ==> es_espacio(s[largo_palabra(s) as int]),
    decreases s.len(),
{
    if s.len() > 0 && !es_espacio(s[0]) {
        let r = s.drop_first();
        lemma_palabra_inicial(r);
        assert forall|k: int| 0 <= k < largo_palabra(s) implies !es_espacio(#[trigger] s[k]) by {
            if k > 0 {
                assert(s[k] == r[k - 1]);
            }
        }
        if largo_palabra(s) < s.len() {
            assert(s[largo_palabra(s) as int] == r[largo_palabra(r) as int]);
        }
    }
}

/// A word is not empty and holds no separator.
pub open spec fn es_palabra(w: Seq<char>) -> bool {
    w.len() > 0 && forall|j: int| 0 <= j < w.len() ==> !es_espacio(#[trigger] w[j])
}

/// Every one of the words of a text is a word.
pub proof fn lemma_palabras_son_palabras(s: Seq<char>)
    ensures
        forall|k: int| 0 <= k < palabras(s).len() ==> es_palabra(#[trigger] palabras(s)[k]),
    decreases s.len(),
{
    if s.len() == 0 {
    } else if es_espacio(s[0]) {
        lemma_palabras_son_palabras(s.drop_first());
        assert(palabras(s) == palabras(s.drop_first()));
    } else {
        let n = largo_palabra(s) as int;
        lemma_palabra_inicial(s);
        lemma_palabras_son_palabras(s.skip(n));
        let primera = s.take(n);
        let resto = palabras(s.skip(n));
        assert(palabras(s) == seq![primera] + resto);
        assert forall|j: int| 0 <= j < primera.len() implies !es_espacio(
            #[trigger] primera[j],
        ) by {
            assert(primera[j] == s[j]);
        }
        assert(es_palabra(primera));
        assert forall|k: int| 0 <= k < palabras(s).len() implies es_palabra(
            #[trigger] palabras(s)[k],
        ) by {
            if k > 0 {
                assert(palabras(s)[k] == resto[k - 1]);
            } else {
                assert(palabras(s)[k] == primera);
            }
        }
    }
}

/// A text without separators is its own single word.
pub proof fn lemma_palabra_sola(w: Seq<char>)
    requires
        es_palabra(w),
    ensures
        palabras(w) == seq![w],
{
    lemma_largo_completo(w);
    let n = largo_palabra(w) as int;
    assert(w.take(n) == w);
    assert(w.skip(n) == Seq::<char>::empty());
    assert(palabras(w.skip(n)) == Seq::<Seq<char>>::empty());
    assert(seq![w] + Seq::<Seq<char>>::empty() == seq![w]);
}

/// The first word of a text without separators is the whole text.
proof fn lemma_largo_completo(w: Seq<char>)
    requires
        forall|j: int| 0 <= j < w.len() ==> !es_espacio(#[trigger] w[j]),
    ensures
        largo_palabra(w) == w.len(),
    decreases w.len(),
{
    if w.len() > 0 {
        let r = w.drop_first();
        assert forall|j: int| 0 <= j < r.len() implies !es_espacio(#[trigger] r[j]) by {
            assert(r[j] == w[j + 1]);
        }
        lemma_largo_completo(r);
    }
}

/// The words that a list of spans cuts out of `cs`.
pub open spec fn palabras_de_tramos(cs: Seq<char>, tramos: Seq<(usize, usize)>) -> Seq<Seq<char>> {
    Seq::new(tramos.len(), |k: int| cs.subrange(tramos[k].0 as int, tramos[k].1 as int))
}

/// Finds where the text of `cs` starts and ends once the white space around it is
/// left out.
fn limites(cs: &Vec<char>) -> (r: (usize, usize))
    ensures
        r.0 <= r.1 <= cs@.len(),
        recortada(cs@) == cs@.subrange(r.0 as int, r.1 as int),
{
    let n: usize = cs.len();
    let mut ini: usize = 0;
    assert(cs@.skip(0) == cs@);
    while ini < n && es_separador(cs[ini])
        invariant
            ini <= n,
            n == cs@.len(),
            sin_espacios_iniciales(cs@) == sin_espacios_iniciales(cs@.skip(ini as int)),
        decreases n - ini,
    {
        assert(cs@.skip(ini as int).drop_first() == cs@.skip(ini + 1));
        ini += 1;
    }
    let ghost resto: Seq<char> = cs@.skip(ini as int);
    assert(sin_espacios_iniciales(resto) == resto);
    let mut fin: usize = n;
    assert(resto.take(n - ini) == resto);
    while fin > ini && es_separador(cs[fin - 1])
        invariant
            ini <= fin <= n,
            n == cs@.len(),
            resto == cs@.skip(ini as int),
            sin_espacios_finales(resto) == sin_espacios_finales(resto.take(fin - ini)),
        decreases fin,
    {
        assert(resto.take(fin - ini).drop_last() == resto.take(fin - ini - 1));
        fin -= 1;
    }
    proof {
        let t: Seq<char> = resto.take(fin - ini);
        assert(sin_espacios_finales(t) == t);
        assert(t == cs@.subrange(ini as int, fin as int));
    }
    (ini, fin)
}

/// Splits the characters of `cs` from `desde` up to `hasta` into words and returns
/// where each word starts and ends.
fn trocear(cs: &Vec<char>, desde: usize, hasta: usize) -> (tramos: Vec<(usize, usize)>)
    requires
        desde <= hasta <= cs@.len(),
    ensures
        palabras_de_tramos(cs@, tramos@) == palabras(cs@.subrange(desde as int, hasta as int)),
        forall|k: int|
            0 <= k < tramos@.len() ==> desde <= (#[trigger] tramos@[k]).0 < tramos@[k].1 <= hasta,
{
    let mut tramos: Vec<(usize, usize)> = Vec::new();
    let mut p: usize = desde;
    let ghost todo: Seq<char> = cs@.subrange(desde as int, hasta as int);
    assert(palabras_de_tramos(cs@, tramos@) + palabras(cs@.subrange(p as int, hasta as int))
        == palabras(todo));
    while p < hasta
        invariant
            desde <= p <= hasta <= cs@.len(),
            todo == cs@.subrange(desde as int, hasta as int),
            palabras(todo) == palabras_de_tramos(cs@, tramos@) + palabras(
                cs@.subrange(p as int, hasta as int),
            ),
            forall|k: int|
                0 <= k < tramos@.len() ==> desde <= (#[trigger] tramos@[k]).0 < tramos@[k].1
                    <= hasta,
        decreases hasta - p,
    {
        let ghost u: Seq<char> = cs@.subrange(p as int, hasta as int);
        if es_separador(cs[p]) {
            assert(u.drop_first() == cs@.subrange(p + 1, hasta as int));
            p += 1;
        } else {
            let mut q: usize = p + 1;
            assert(u.drop_first() == cs@.subrange(q as int, hasta as int));
            while q < hasta && !es_separador(cs[q])
                invariant
                    p < q <= hasta <= cs@.len(),
                    u == cs@.subrange(p as int, hasta as int),
                    largo_palabra(u) == (q - p) + largo_palabra(
                        cs@.subrange(q as int, hasta as int),
                    ),
                decreases hasta - q,
            {
                assert(cs@.subrange(q as int, hasta as int).drop_first() == cs@.subrange(
                    q + 1,
                    hasta as int,
                ));
                q += 1;
            }
            proof {
                let n: int = q - p;
                assert(largo_palabra(u) == n);
                assert(u.take(n) == cs@.subrange(p as int, q as int));
                assert(u.skip(n) == cs@.subrange(q as int, hasta as int));
                let previos: Seq<Seq<char>> = palabras_de_tramos(cs@, tramos@);
                let siguientes: Seq<Seq<char>> = palabras_de_tramos(cs@, tramos@.push((p, q)));
                assert(siguientes == previos.push(u.take(n)));
                assert(previos + (seq![u.take(n)] + palabras(u.skip(n))) == previos.push(
                    u.take(n),
                ) + palabras(u.skip(n)));
            }
            tramos.push((p, q));
            p = q;
        }
    }
    assert(palabras(cs@.subrange(hasta as int, hasta as int)) == Seq::<Seq<char>>::empty());
    assert(palabras_de_tramos(cs@, tramos@) + Seq::<Seq<char>>::empty() == palabras_de_tramos(
        cs@,
        tramos@,
    ));
    tramos
}

/// The decimal digits.
pub open spec fn es_digito(c: char) -> bool {
    0x30 <= c as u32 <= 0x39
}

/// Every character of `s` is a decimal digit.
pub open spec fn solo_digitos(s: Seq<char>) -> bool {
    forall|k: int| 0 <= k < s.len() ==> es_digito(#[trigger] s[k])
}

/// The number that the digits of `s` write in base ten.
pub open spec fn valor_digitos(s: Seq<char>) -> int
    decreases s.len(),
{
    if s.len() == 0 {
        0
    } else {
        10 * valor_digitos(s.drop_last()) + (s.last() as u32 - 0x30)
    }
}

/// The integer that `s` writes, if it writes one that the machine can hold: an
/// optional `+` or `-`, then one or more decimal digits and nothing else.
pub open spec fn entero(s: Seq<char>) -> Option<int> {
    let negativo = s.len() > 0 && s[0] == '-';
    let con_signo = negativo || (s.len() > 0 && s[0] == '+');
    let digitos = if con_signo {
        s.drop_first()
    } else {
        s
    };
    let valor = if negativo {
        -valor_digitos(digitos)
    } else {
        valor_digitos(digitos)
    };
    if digitos.len() > 0 && solo_digitos(digitos) && isize::MIN <= valor <= isize::MAX {
        Some(valor)
    } else {
        None
    }
}

/// How many characters of `s` come before its first `/`.
pub open spec fn largo_campo(s: Seq<char>) -> nat
    decreases s.len(),
{
    if s.len() == 0 || s[0] == '/' {
        0
    } else {
        1 + largo_campo(s.drop_first())
    }
}

/// The first of the `/`-separated fields of a word.
pub open spec fn primer_campo(s: Seq<char>) -> Seq<char> {
    s.take(largo_campo(s) as int)
}

/// The 0-based vertex index that the face index `k` stands for when `vistos`
/// vertices have been read so far, if there is one.
///
/// A positive `k` counts from the first vertex, starting at one. Any other `k`
/// counts back from the end of the vertices read so far, so that `-1` is the last
/// of them; a `k` that reaches back before the first vertex stands for none.
pub open spec fn indice_resuelto(k: int, vistos: int) -> Option<int> {
    if k > 0 {
        Some(k - 1)
    } else if vistos + k >= 0 {
        Some(vistos + k)
    } else {
        None
    }
}

/// The vertex index that one word of a face line stands for, if its first field
/// is an integer that stands for one.
pub open spec fn indice_de_palabra(w: Seq<char>, vistos: int) -> Option<usize> {
    match entero(primer_campo(w)) {
        Some(k) => match indice_resuelto(k, vistos) {
            Some(i) => Some(i as usize),
            None => None,
        },
        None => None,
    }
}

/// The vertex indices that the words of a face line stand for, if every one of
/// them stands for one.
pub open spec fn indices_de(args: Seq<Seq<char>>, vistos: int) -> Option<Seq<usize>> {
    if forall|t: int| 0 <= t < args.len() ==> (#[trigger] indice_de_palabra(args[t], vistos)) is Some {
        Some(Seq::new(args.len(), |t: int| indice_de_palabra(args[t], vistos).unwrap()))
    } else {
        None
    }
}

/// The fan of triangles over a polygon: the first corner with each pair of
/// neighbouring corners after it.
pub open spec fn abanico(idx: Seq<usize>) -> Seq<Cara>
    recommends
        idx.len() >= 3,
{
    Seq::new((idx.len() - 2) as nat, |t: int| Cara { i0: idx[0], i1: idx[t + 1], i2: idx[t + 2] })
}

/// The triangles of a face line whose words after the tag are `args`.
pub open spec fn caras_de(args: Seq<Seq<char>>, vistos: int) -> Result<Seq<Cara>, ParseError> {
    match indices_de(args, vistos) {
        None => Err(ParseError::InvalidFaceIndex),
        Some(idx) => if idx.len() < 3 {
            Err(ParseError::DegenerateFace)
        } else {
            Ok(abanico(idx))
        },
    }
}

/// What a line of a mesh file says.
pub enum Registro {
    /// Nothing: a blank line, a comment or a record of another kind.
    Ignorada,
    /// A vertex, with the text of its three coordinates.
    Vertice(Seq<char>, Seq<char>, Seq<char>),
    /// A face, as the triangles of its fan.
    Caras(Seq<Cara>),
}

/// What the line `linea` says when `vistos` vertices have been read before it, or
/// why it is refused.
pub open spec fn interpretar(linea: Seq<char>, vistos: int) -> Result<Registro, ParseError> {
    let t = recortada(linea);
    let w = palabras(t);
    if t.len() == 0 || t[0] == '#' {
        Ok(Registro::Ignorada)
    } else if t.len() >= 2 && t[0] == 'v' && t[1] == ' ' {
        if w.len() >= 4 {
            Ok(Registro::Vertice(w[1], w[2], w[3]))
        } else {
            Err(ParseError::MalformedVertex)
        }
    } else if t[0] == 'f' {
        match caras_de(w.skip(1), vistos) {
            Ok(caras) => Ok(Registro::Caras(caras)),
            Err(e) => Err(e),
        }
    } else {
        Ok(Registro::Ignorada)
    }
}

/// Reads the integer written by the characters of `cs` from `desde` up to `hasta`.
fn analizar_entero(cs: &Vec<char>, desde: usize, hasta: usize) -> (r: Option<isize>)
    requires
        desde <= hasta <= cs@.len(),
    ensures
        match r {
            Some(k) => entero(cs@.subrange(desde as int, hasta as int)) == Some(k as int),
            None => entero(cs@.subrange(desde as int, hasta as int)) is None,
        },
{
    let ghost s: Seq<char> = cs@.subrange(desde as int, hasta as int);
    if desde == hasta {
        return None;
    }
    let c0: char = cs[desde];
    assert(s[0] == c0);
    let negativo: bool = c0 == '-';
    let inicio: usize = if negativo || c0 == '+' {
        desde + 1
    } else {
        desde
    };
    let ghost d: Seq<char> = cs@.subrange(inicio as int, hasta as int);
    assert(d == if negativo || c0 == '+' {
        s.drop_first()
    } else {
        s
    });
    if inicio == hasta {
        return None;
    }
    let tope: u128 = isize::MAX as u128 + 1;
    let mut acc: u128 = 0;
    let mut k: usize = inicio;
    while k < hasta
        invariant
            inicio <= k <= hasta <= cs@.len(),
            tope == isize::MAX + 1,
            s == cs@.subrange(desde as int, hasta as int),
            s.len() > 0,
            d == cs@.subrange(inicio as int, hasta as int),
            d == if s[0] == '-' || s[0] == '+' {
                s.drop_first()
            } else {
                s
            },
            solo_digitos(cs@.subrange(inicio as int, k as int)),
            0 <= valor_digitos(cs@.subrange(inicio as int, k as int)),
            acc <= tope + 1,
            acc == if valor_digitos(cs@.subrange(inicio as int, k as int)) <= tope {
                valor_digitos(cs@.subrange(inicio as int, k as int))
            } else {
                tope + 1
            },
        decreases hasta - k,
    {
        let n: u32 = cs[k] as u32;
        if n < 0x30 || n > 0x39 {
            assert(d[k - inicio] == cs@[k as int]);
            assert(!solo_digitos(d));
            return None;
        }
        let digito: u128 = (n - 0x30) as u128;
        proof {
            let antes: Seq<char> = cs@.subrange(inicio as int, k as int);
            let ahora: Seq<char> = cs@.subrange(inicio as int, k + 1);
            assert(ahora.drop_last() == antes);
            assert(ahora.last() == cs@[k as int]);
            assert(valor_digitos(ahora) == 10 * valor_digitos(antes) + digito);
        }
        if acc <= tope {
            let siguiente: u128 = acc * 10 + digito;
            acc = if siguiente > tope {
                tope + 1
            } else {
                siguiente
            };
        }
        k += 1;
    }
    assert(cs@.subrange(inicio as int, k as int) == d);
    if negativo {
        if acc <= tope {
            Some((-(acc as i128)) as isize)
        } else {
            None
        }
    } else {
        if acc < tope {
            Some(acc as isize)
        } else {
            None
        }
    }
}

/// Finds the end of the first `/`-separated field of the word that runs from
/// `desde` up to `hasta`.
fn fin_de_campo(cs: &Vec<char>, desde: usize, hasta: usize) -> (q: usize)
    requires
        desde <= hasta <= cs@.len(),
    ensures
        desde <= q <= hasta,
        cs@.subrange(desde as int, q as int) == primer_campo(
            cs@.subrange(desde as int, hasta as int),
        ),
{
    let ghost w: Seq<char> = cs@.subrange(desde as int, hasta as int);
    let mut q: usize = desde;
    while q < hasta && cs[q] != '/'
        invariant
            desde <= q <= hasta <= cs@.len(),
            largo_campo(cs@.subrange(desde as int, hasta as int)) == (q - desde) + largo_campo(
                cs@.subrange(q as int, hasta as int),
            ),
        decreases hasta - q,
    {
        assert(cs@.subrange(q as int, hasta as int).drop_first() == cs@.subrange(
            q + 1,
            hasta as int,
        ));
        q += 1;
    }
    assert(w.take(q - desde) == cs@.subrange(desde as int, q as int));
    q
}

/// Resolves a face index against the number of vertices read so far.
pub fn resolver_indice(k: isize, vistos: usize) -> (r: Option<usize>)
    ensures
        match r {
            Some(i) => indice_resuelto(k as int, vistos as int) == Some(i as int),
            None => indice_resuelto(k as int, vistos as int) is None,
        },
        k > 0 ==> r == Some((k - 1) as usize),
        k <= 0 && vistos + k >= 0 ==> r == Some((vistos + k) as usize),
        vistos + k < 0 ==> r is None,
{
    if k > 0 {
        Some((k - 1) as usize)
    } else {
        let m: i128 = vistos as i128 + k as i128;
        if m >= 0 {
            Some(m as usize)
        } else {
            None
        }
    }
}

/// Splits a polygon into the triangles of its fan.
///
/// A polygon of `n` corners gives `n - 2` triangles. Fewer than three corners are
/// no polygon.
pub fn triangular(idx: &[usize]) -> (r: Result<Vec<Cara>, ParseError>)
    ensures
        match r {
            Ok(caras) => idx@.len() >= 3 && caras@ == abanico(idx@),
            Err(e) => idx@.len() < 3 && e == ParseError::DegenerateFace,
        },
{
    let n: usize = idx.len();
    if n < 3 {
        return Err(ParseError::DegenerateFace);
    }
    let mut caras: Vec<Cara> = Vec::new();
    let mut t: usize = 1;
    while t < n - 1
        invariant
            1 <= t <= n - 1,
            n == idx@.len(),
            n >= 3,
            caras@.len() == t - 1,
            forall|j: int|
                0 <= j < t - 1 ==> #[trigger] caras@[j] == (Cara {
                    i0: idx@[0],
                    i1: idx@[j + 1],
                    i2: idx@[j + 2],
                }),
        decreases n - t,
    {
        caras.push(Cara { i0: idx[0], i1: idx[t], i2: idx[t + 1] });
        t += 1;
    }
    assert(caras@ =~= abanico(idx@));
    Ok(caras)
}

/// Reads the triangles of a face line whose words are at `tramos`: the first is
/// the tag, the others are the indices.
fn analizar_cara(cs: &Vec<char>, tramos: &Vec<(usize, usize)>, vistos: usize) -> (r: Result<
    Vec<Cara>,
    ParseError,
>)
    requires
        tramos@.len() >= 1,
        forall|k: int|
            0 <= k < tramos@.len() ==> (#[trigger] tramos@[k]).0 <= tramos@[k].1 <= cs@.len(),
    ensures
        match r {
            Ok(caras) => caras_de(palabras_de_tramos(cs@, tramos@).skip(1), vistos as int) == Ok::<
                Seq<Cara>,
                ParseError,
            >(caras@),
            Err(e) => caras_de(palabras_de_tramos(cs@, tramos@).skip(1), vistos as int) == Err::<
                Seq<Cara>,
                ParseError,
            >(e),
        },
{
    let ghost args: Seq<Seq<char>> = palabras_de_tramos(cs@, tramos@).skip(1);
    let mut idx: Vec<usize> = Vec::new();
    let mut t: usize = 1;
    while t < tramos.len()
        invariant
            1 <= t <= tramos@.len(),
            args == palabras_de_tramos(cs@, tramos@).skip(1),
            forall|k: int|
                0 <= k < tramos@.len() ==> (#[trigger] tramos@[k]).0 <= tramos@[k].1 <= cs@.len(),
            idx@.len() == t - 1,
            forall|j: int|
                0 <= j < t - 1 ==> indice_de_palabra(#[trigger] args[j], vistos as int) == Some(
                    idx@[j],
                ),
        decreases tramos@.len() - t,
    {
        let (a, b) = tramos[t];
        assert(tramos@[t as int].0 <= tramos@[t as int].1 <= cs@.len());
        let ghost w: Seq<char> = cs@.subrange(a as int, b as int);
        assert(args[t - 1] == w);
        let q: usize = fin_de_campo(cs, a, b);
        let indice: Option<usize> = match analizar_entero(cs, a, q) {
            Some(k) => resolver_indice(k, vistos),
            None => None,
        };
        match indice {
            Some(i) => {
                idx.push(i);
            },
            None => {
                assert(indice_de_palabra(args[t - 1], vistos as int) is None);
                return Err(ParseError::InvalidFaceIndex);
            },
        }
        t += 1;
    }
    proof {
        assert(args.len() == idx@.len());
        assert(indices_de(args, vistos as int) is Some);
        assert(indices_de(args, vistos as int).unwrap() =~= idx@);
    }
    triangular(idx.as_slice())
}

/// The characters of a string, in order.
fn caracteres(s: &str) -> (v: Vec<char>)
    ensures
        v@ == s@,
{
    let mut v: Vec<char> = Vec::new();
    for c in it: s.chars()
        invariant
            v@ == it.seq().take(it.index() as int),
            it.seq() == s@,
    {
        v.push(c);
    }
    v
}

/// What a line of a mesh file says, as handed to the caller.
#[derive(Debug, PartialEq, Eq)]
pub enum Linea<'a> {
    /// Nothing: a blank line, a comment or a record of another kind.
    Ignorada,
    /// A vertex, with the text of its three coordinates.
    Vertice(&'a str, &'a str, &'a str),
    /// A face, as the triangles of its fan.
    Caras(Vec<Cara>),
}

impl<'a> View for Linea<'a> {
    type V = Registro;

    open spec fn view(&self) -> Registro {
        match self {
            Linea::Ignorada => Registro::Ignorada,
            Linea::Vertice(x, y, z) => Registro::Vertice(x@, y@, z@),
            Linea::Caras(caras) => Registro::Caras(caras@),
        }
    }
}

/// Reads one line of a mesh file, `vistos` vertices having been read before it.
///
/// A vertex line gives back the text of its first three coordinates, which the
/// caller converts to numbers; a line with fewer is refused. A face line gives
/// back its triangles, with every index resolved against `vistos`; an index may
/// name a vertex that a later line defines, which the mesh checks once all lines
/// are read.
pub fn interpretar_linea<'a>(linea: &'a str, vistos: usize) -> (r: Result<Linea<'a>, ParseError>)
    ensures
        match r {
            Ok(l) => interpretar(linea@, vistos as int) == Ok::<Registro, ParseError>(l@),
            Err(e) => interpretar(linea@, vistos as int) == Err::<Registro, ParseError>(e),
        },
{
    let cs: Vec<char> = caracteres(linea);
    let (ini, fin) = limites(&cs);
    if ini == fin {
        return Ok(Linea::Ignorada);
    }
    let ghost t: Seq<char> = cs@.subrange(ini as int, fin as int);
    let c0: char = cs[ini];
    assert(t[0] == c0);
    if c0 == '#' {
        return Ok(Linea::Ignorada);
    }
    if c0 == 'v' && fin - ini >= 2 && cs[ini + 1] == ' ' {
        assert(t[1] == ' ');
        let tramos: Vec<(usize, usize)> = trocear(&cs, ini, fin);
        let ghost w: Seq<Seq<char>> = palabras_de_tramos(cs@, tramos@);
        if tramos.len() < 4 {
            return Err(ParseError::MalformedVertex);
        }
        let (xa, xb) = tramos[1];
        let (ya, yb) = tramos[2];
        let (za, zb) = tramos[3];
        assert(w[1] == cs@.subrange(xa as int, xb as int));
        assert(w[2] == cs@.subrange(ya as int, yb as int));
        assert(w[3] == cs@.subrange(za as int, zb as int));
        let x: &str = linea.substring_char(xa, xb);
        let y: &str = linea.substring_char(ya, yb);
        let z: &str = linea.substring_char(za, zb);
        return Ok(Linea::Vertice(x, y, z));
    }
    if c0 == 'f' {
        let tramos: Vec<(usize, usize)> = trocear(&cs, ini, fin);
        proof {
            lemma_palabras_no_vacias(t);
        }
        return match analizar_cara(&cs, &tramos, vistos) {
            Ok(caras) => Ok(Linea::Caras(caras)),
            Err(e) => Err(e),
        };
    }
    Ok(Linea::Ignorada)
}

/// A text that starts with a character that is no separator has a first word.
proof fn lemma_palabras_no_vacias(s: Seq<char>)
    requires
        s.len() > 0,
        !es_espacio(s[0]),
    ensures
        palabras(s).len() >= 1,
{
}

} // verus!
