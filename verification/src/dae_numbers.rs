//! Numbers in Collada documents, written and read again.

use vstd::prelude::*;
use crate::collada;
use crate::dae_geom;
use crate::dae_read;
use crate::dae_text;
use crate::element;
use crate::text;
use crate::words;
use crate::mesh::{MaterialView, MeshView};
use crate::number::Real;
use crate::numerics::RealText;

verus! {

/// Whether every decimal text of a number is one word that may stand in a document.
pub open spec fn prints_plainly<K: RealText>(k: &K) -> bool {
    forall|x: Real, s: String| #[trigger]
        call_ensures(K::format, (k, x), s) ==> words::is_word(s@) && element::is_legal_text(s@)
}

/// Whether every decimal text of a finite number is read as that number.
pub open spec fn reads_back<K: RealText>(k: &K) -> bool {
    forall|x: Real, s: String| #[trigger]
        call_ensures(K::format, (k, x), s) && x.finite() ==> (forall|w: &str, y: Option<Real>|
            w@ == s@ && #[trigger] call_ensures(K::parse, (k, w), y) ==> y == Some(x))
}

/// Whether a word is read as a number and as nothing else.
pub open spec fn reads_as<K: RealText>(k: &K, word: Seq<char>, x: Real) -> bool {
    forall|y: Option<Real>| #[trigger] collada::word_read(k, word, y) ==> y == Some(x)
}

/// Whether the words of a text are read as the given numbers.
pub open spec fn text_reads_as<K: RealText>(k: &K, s: Seq<char>, n: int, x: spec_fn(int) -> Real) -> bool {
    &&& text::words(s, 0).len() == n
    &&& forall|c: int| 0 <= c < n ==> reads_as(k, #[trigger] text::words(s, 0)[c], x(c))
}

pub proof fn text_is_word<K: RealText>(k: &K, x: Real, t: Seq<char>)
    requires
        prints_plainly(k),
        dae_text::is_text(k, x, t),
    ensures
        words::is_word(t),
        element::is_legal_text(t),
        reads_back(k) && x.finite() ==> reads_as(k, t, x),
        text::words(t, 0) == seq![t],
{
    let s = choose|s: String| #[trigger] call_ensures(K::format, (k, x), s) && s@ == t;
    assert(words::is_word(s@));
    if reads_back(k) && x.finite() {
        assert forall|y: Option<Real>| #[trigger] collada::word_read(k, t, y) implies y == Some(x) by {
            let w = choose|w: &str| w@ == t && #[trigger] call_ensures(K::parse, (k, w), y);
        }
    }
    words::word_is_one(t);
}

/// The text of one number.
pub proof fn single_reads<K: RealText>(k: &K, x: Real, t: Seq<char>)
    requires
        prints_plainly(k),
        reads_back(k),
        x.finite(),
        dae_text::is_text(k, x, t),
    ensures
        text_reads_as(k, t, 1, |i: int| x),
{
    text_is_word(k, x, t);
}

/// The text of two numbers.
pub proof fn pair_reads<K: RealText>(k: &K, x: Real, y: Real, t: Seq<char>)
    requires
        prints_plainly(k),
        reads_back(k),
        x.finite(),
        y.finite(),
        dae_text::is_pair(k, x, y, t),
    ensures
        text_reads_as(
            k,
            t,
            2,
            |i: int|
                if i == 0 {
                    x
                } else {
                    y
                },
        ),
{
    let (a, b) = choose|a: Seq<char>, b: Seq<char>|
        #[trigger] dae_text::is_text(k, x, a) && #[trigger] dae_text::is_text(k, y, b) && t == a + " "@ + b;
    text_is_word(k, x, a);
    text_is_word(k, y, b);
    words::blanks_are_blank();
    words::words_and_word(a, " "@, b);
    assert(text::words(t, 0) =~= seq![a, b]);
}

/// The text of three numbers.
pub proof fn triple_reads<K: RealText>(k: &K, x: Real, y: Real, z: Real, t: Seq<char>)
    requires
        prints_plainly(k),
        reads_back(k),
        x.finite(),
        y.finite(),
        z.finite(),
        dae_text::is_triple(k, x, y, z, t),
    ensures
        text_reads_as(
            k,
            t,
            3,
            |i: int|
                if i == 0 {
                    x
                } else if i == 1 {
                    y
                } else {
                    z
                },
        ),
{
    let (a, b, c) = choose|a: Seq<char>, b: Seq<char>, c: Seq<char>|
        #[trigger] dae_text::is_text(k, x, a) && #[trigger] dae_text::is_text(k, y, b) && #[trigger] dae_text::is_text(
            k,
            z,
            c,
        ) && t == a + " "@ + b + " "@ + c;
    text_is_word(k, x, a);
    text_is_word(k, y, b);
    text_is_word(k, z, c);
    words::blanks_are_blank();
    words::words_and_word(a, " "@, b);
    words::words_and_word(a + " "@ + b, " "@, c);
    assert(text::words(t, 0) =~= seq![a, b, c]);
}

/// Whether the numbers of a colour are finite.
pub open spec fn is_finite_colour(c: [Real; 4]) -> bool {
    forall|i: int| 0 <= i < 4 ==> (#[trigger] c[i]).finite()
}

/// Whether the numbers of a material are finite.
pub open spec fn is_finite_material(m: MaterialView) -> bool {
    &&& is_finite_colour(m.emission)
    &&& is_finite_colour(m.ambient)
    &&& is_finite_colour(m.diffuse)
    &&& is_finite_colour(m.specular)
    &&& m.shininess.finite()
}

/// Whether the numbers that are written for a mesh are finite.
pub open spec fn is_finite(m: MeshView) -> bool {
    &&& forall|i: int|
        0 <= i < m.vertices.len() ==> {
            let p = #[trigger] m.vertices[i];
            p.x.finite() && p.y.finite() && p.z.finite()
        }
    &&& forall|i: int|
        0 <= i < dae_text::written_normals(m).len() ==> {
            let p = #[trigger] dae_text::written_normals(m)[i];
            p.x.finite() && p.y.finite() && p.z.finite()
        }
    &&& forall|i: int|
        0 <= i < m.texcoords.len() ==> {
            let p = #[trigger] m.texcoords[i];
            p.x.finite() && p.y.finite()
        }
    &&& forall|i: int| 0 <= i < m.materials.len() ==> is_finite_material(#[trigger] m.materials[i])
}

/// The text of a colour.
pub proof fn colour_reads<K: RealText>(k: &K, c: [Real; 4], t: Seq<char>)
    requires
        prints_plainly(k),
        reads_back(k),
        is_finite_colour(c),
        dae_text::is_colour(k, c, t),
    ensures
        text_reads_as(k, t, 4, |i: int| c[i]),
{
    let (u, a) = choose|u: Seq<char>, a: Seq<char>|
        #[trigger] dae_text::is_triple(k, c[0], c[1], c[2], u) && #[trigger] dae_text::is_text(k, c[3], a) && t == u
            + " "@ + a;
    assert(c[0].finite() && c[1].finite() && c[2].finite() && c[3].finite());
    triple_reads(k, c[0], c[1], c[2], u);
    text_is_word(k, c[3], a);
    words::blanks_are_blank();
    words::words_and_word(u, " "@, a);
    let f = |i: int|
        if i == 0 {
            c[0]
        } else if i == 1 {
            c[1]
        } else {
            c[2]
        };
    assert(text_reads_as(k, u, 3, f));
    assert forall|i: int| 0 <= i < 4 implies reads_as(k, #[trigger] text::words(t, 0)[i], c[i]) by {
        if i < 3 {
            assert(text::words(t, 0)[i] == text::words(u, 0)[i]);
            assert(f(i) == c[i]);
        }
    }
}

/// The texts of rows of numbers, put together.
pub proof fn rows_read<K: RealText>(k: &K, texts: Seq<String>, n: int, d: int, x: spec_fn(int) -> Real)
    requires
        0 <= n <= texts.len(),
        0 < d,
        forall|i: int|
            0 <= i < n ==> text_reads_as(k, (#[trigger] texts[i])@, d, |j: int| x(d * i + j)),
    ensures
        text_reads_as(k, dae_text::rows(texts, n), d * n, x),
    decreases n,
{
    if n <= 0 {
        words::blank_has_no_words(dae_text::rows(texts, n));
        assert(d * n == 0) by (nonlinear_arith)
            requires
                n == 0,
        ;
    } else {
        let last = texts[n - 1]@;
        let f = |j: int| x(d * (n - 1) + j);
        assert(text_reads_as(k, last, d, f));
        let all = dae_text::rows(texts, n);
        assert(d * n == d * (n - 1) + d) by (nonlinear_arith);
        if n == 1 {
            assert(d * (n - 1) == 0) by (nonlinear_arith)
                requires
                    n == 1,
            ;
            assert forall|c: int| 0 <= c < d * n implies reads_as(k, #[trigger] text::words(all, 0)[c], x(c)) by {
                assert(f(c) == x(c));
                assert(reads_as(k, text::words(last, 0)[c], f(c)));
            }
        } else {
            rows_read(k, texts, n - 1, d, x);
            let before = dae_text::rows(texts, n - 1);
            words::blanks_are_blank();
            words::words_across(before, " "@, last);
            let m = d * (n - 1);
            assert forall|c: int| 0 <= c < d * n implies reads_as(k, #[trigger] text::words(all, 0)[c], x(c)) by {
                if c < m {
                    assert(text::words(all, 0)[c] == text::words(before, 0)[c]);
                } else {
                    assert(text::words(all, 0)[c] == text::words(last, 0)[c - m]);
                    assert(f(c - m) == x(c));
                }
            }
        }
    }
}

/// White space around numbers does not matter.
pub proof fn reads_within<K: RealText>(
    k: &K,
    before: Seq<char>,
    s: Seq<char>,
    after: Seq<char>,
    n: int,
    x: spec_fn(int) -> Real,
)
    requires
        words::is_blank(before),
        words::is_blank(after),
        text_reads_as(k, s, n, x),
    ensures
        text_reads_as(k, before + s + after, n, x),
{
    words::words_within(before, s, after);
}

/// What is read of a text with known numbers.
pub proof fn numbers_are_known<K: RealText>(
    k: &K,
    s: Seq<char>,
    v: Seq<Option<Real>>,
    n: int,
    x: spec_fn(int) -> Real,
)
    requires
        text_reads_as(k, s, n, x),
        collada::words_read(k, s, v),
        n >= 0,
    ensures
        v.len() == n,
        forall|c: int| 0 <= c < n ==> #[trigger] v[c] == Some(x(c)),
        dae_read::known(v, v.len() as int) == Seq::new(n as nat, |c: int| x(c)),
{
    assert forall|c: int| 0 <= c < n implies #[trigger] v[c] == Some(x(c)) by {
        assert(collada::word_read(k, text::words(s, 0)[c], v[c]));
        assert(reads_as(k, text::words(s, 0)[c], x(c)));
    }
    known_are_all(v, n, x);
}

proof fn known_are_all(v: Seq<Option<Real>>, n: int, x: spec_fn(int) -> Real)
    requires
        0 <= n <= v.len(),
        forall|c: int| 0 <= c < n ==> #[trigger] v[c] == Some(x(c)),
    ensures
        dae_read::known(v, n) == Seq::new(n as nat, |c: int| x(c)),
    decreases n,
{
    if n > 0 {
        known_are_all(v, n - 1, x);
        assert(v[n - 1] == Some(x(n - 1)));
    }
    assert(dae_read::known(v, n) =~= Seq::new(n as nat, |c: int| x(c)));
}

// ── Indices ──

/// Whether the words of a text are numbers in decimal.
pub open spec fn text_counts(s: Seq<char>, n: int, x: spec_fn(int) -> int) -> bool {
    &&& text::words(s, 0).len() == n
    &&& forall|c: int| 0 <= c < n ==> #[trigger] text::words(s, 0)[c] == text::dec(x(c))
}

/// How many indices each corner has.
pub open spec fn stride(normals: bool, texcoords: bool) -> int {
    if normals && texcoords {
        3
    } else if normals || texcoords {
        2
    } else {
        1
    }
}

proof fn corner_counts(v: int, normals: bool, texcoords: bool)
    requires
        v >= 0,
    ensures
        text_counts(dae_text::corner_text(v, normals, texcoords), stride(normals, texcoords), |i: int| v),
        dae_text::corner_text(v, normals, texcoords).len() > 0,
{
    let a = text::dec(v);
    words::decimal_is_word(v);
    words::word_is_one(a);
    words::blanks_are_blank();
    let b = if normals {
        a + " "@ + a
    } else {
        a
    };
    if normals {
        words::words_and_word(a, " "@, a);
        assert(text::words(b, 0) =~= seq![a, a]);
    }
    if texcoords {
        words::words_and_word(b, " "@, a);
    }
}

/// Number of the vertex of a corner.
pub open spec fn corner_vertex(tris: Seq<[u32; 3]>, c: int) -> int {
    tris[c / 3][c % 3] as int
}

/// The indices of the first `n` corners.
pub proof fn corners_count(tris: Seq<[u32; 3]>, n: int, normals: bool, texcoords: bool)
    requires
        0 <= n <= 3 * tris.len(),
    ensures
        text_counts(
            dae_text::corners_text(tris, n, normals, texcoords),
            stride(normals, texcoords) * n,
            |i: int| corner_vertex(tris, i / stride(normals, texcoords)),
        ),
    decreases n,
{
    let d = stride(normals, texcoords);
    let s = dae_text::corners_text(tris, n, normals, texcoords);
    let x = |i: int| corner_vertex(tris, i / d);
    if n <= 0 {
        words::blank_has_no_words(s);
        assert(d * n == 0) by (nonlinear_arith)
            requires
                n == 0,
        ;
    } else {
        corners_count(tris, n - 1, normals, texcoords);
        let before = dae_text::corners_text(tris, n - 1, normals, texcoords);
        let v = tris[(n - 1) / 3][(n - 1) % 3] as int;
        let last = dae_text::corner_text(v, normals, texcoords);
        corner_counts(v, normals, texcoords);
        words::blanks_are_blank();
        let m = d * (n - 1);
        assert(d * n == m + d) by (nonlinear_arith)
            requires
                m == d * (n - 1),
        ;
        if n == 1 {
            assert(m == 0) by (nonlinear_arith)
                requires
                    n == 1,
                    m == d * (n - 1),
            ;
            assert(before =~= Seq::<char>::empty());
            assert(s =~= last);
            assert(text::words(before, 0).len() == 0);
            assert(text::words(s, 0) =~= text::words(before, 0) + text::words(last, 0));
        } else if (n - 1) % 3 == 0 {
            words::words_across(before, "  "@, last);
        } else {
            words::words_across(before, " "@, last);
        }
        assert(text::words(s, 0) == text::words(before, 0) + text::words(last, 0));
        assert forall|c: int| 0 <= c < d * n implies #[trigger] text::words(s, 0)[c] == text::dec(x(c)) by {
            if c < m {
                assert(text::words(s, 0)[c] == text::words(before, 0)[c]);
            } else {
                assert(text::words(s, 0)[c] == text::words(last, 0)[c - m]);
                assert(c / d == n - 1) by (nonlinear_arith)
                    requires
                        m == d * (n - 1),
                        m <= c < m + d,
                        d > 0,
                ;
            }
        }
    }
}

/// What is read of a text of known indices.
pub proof fn counts_are_read(s: Seq<char>, n: int, x: spec_fn(int) -> int)
    requires
        text_counts(s, n, x),
        n >= 0,
        forall|c: int| 0 <= c < n ==> 0 <= #[trigger] x(c) <= usize::MAX,
    ensures
        dae_geom::unsigned_in(text::words(s, 0), n) == Seq::new(n as nat, |c: int| x(c) as usize),
{
    counts_read_in(text::words(s, 0), n, x);
}

proof fn counts_read_in(w: Seq<Seq<char>>, n: int, x: spec_fn(int) -> int)
    requires
        0 <= n <= w.len(),
        forall|c: int| 0 <= c < n ==> #[trigger] w[c] == text::dec(x(c)),
        forall|c: int| 0 <= c < n ==> 0 <= #[trigger] x(c) <= usize::MAX,
    ensures
        dae_geom::unsigned_in(w, n) == Seq::new(n as nat, |c: int| x(c) as usize),
    decreases n,
{
    if n > 0 {
        counts_read_in(w, n - 1, x);
        assert(w[n - 1] == text::dec(x(n - 1)));
        assert(0 <= x(n - 1) <= usize::MAX);
        text::decimal_reads_back(x(n - 1) as usize);
    }
    assert(dae_geom::unsigned_in(w, n) =~= Seq::new(n as nat, |c: int| x(c) as usize));
}

} // verus!
