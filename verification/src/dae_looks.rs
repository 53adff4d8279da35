//! The looks in written Collada documents, read again.

use vstd::prelude::*;
use crate::collada;
use crate::dae_merge;
use crate::dae_numbers;
use crate::dae_read;
use crate::dae_text;
use crate::dae_tree;
use crate::element;
use crate::table;
use crate::text;
use crate::words;
use crate::xml;
use crate::collada::FilePaths;
use crate::dae_merge::Looks;
use crate::dae_read::{ReadingsView, Texts};
use crate::dae_text::{MaterialText, NumberTexts};
use crate::element::Element;
use crate::mesh::{MaterialView, MeshView};
use crate::number::Real;
use crate::numerics::RealText;
use crate::xml::NodeView;

verus! {

// ── Tables ──

/// An entry whose name no other has is found.
pub proof fn sole_entry<V>(t: Seq<(Seq<char>, V)>, name: Seq<char>, c: int)
    requires
        0 <= c < t.len(),
        t[c].0 == name,
        forall|d: int| 0 <= d < t.len() && d != c ==> (#[trigger] t[d]).0 != name,
    ensures
        table::lookup(t, name) == Some(t[c].1),
    decreases t.len(),
{
    if t.last().0 != name {
        let u = t.drop_last();
        assert(u[c] == t[c]);
        assert forall|d: int| 0 <= d < u.len() && d != c implies (#[trigger] u[d]).0 != name by {
            assert(u[d] == t[d]);
        }
        sole_entry(u, name, c);
    } else {
        assert(t[t.len() - 1].0 == name);
    }
}

/// Names with different numbers differ.
pub proof fn numbered_differ(word: Seq<char>, a: int, b: int)
    requires
        a >= 0,
        b >= 0,
        dae_tree::numbered(word, a) == dae_tree::numbered(word, b),
    ensures
        a == b,
{
    let x = dae_tree::numbered(word, a);
    let y = dae_tree::numbered(word, b);
    let n = word.len() as int;
    assert(x.subrange(n, x.len() as int) =~= text::dec(a));
    assert(y.subrange(n, y.len() as int) =~= text::dec(b));
    words::decimals_differ(a, b);
}

/// A reference to a name that begins with no `#` leads to the name.
pub proof fn link_leads_back(id: Seq<char>)
    requires
        id.len() > 0,
        id[0] != '#',
    ensures
        text::unhashed(dae_tree::link(id)) == id,
{
    reveal_strlit("#");
    let s = dae_tree::link(id);
    reveal_with_fuel(text::unhashed, 2);
    assert(s[0] == '#');
    assert(s.subrange(1, s.len() as int) =~= id);
}

/// A word has no white space at its ends.
pub proof fn word_is_trimmed(w: Seq<char>)
    requires
        words::is_word(w),
    ensures
        text::trimmed(w) == w,
{
    assert(text::word_start(w, 0) == 0);
    assert(!text::is_space(w[w.len() - 1]));
    assert(text::trimmed_end(w, 0, w.len() as int) == w.len());
    assert(w.subrange(0, w.len() as int) =~= w);
}

// ── Images ──

pub open spec fn image_entry(nodes: Seq<NodeView>, r: ReadingsView, j: int) -> Option<(Seq<char>, Seq<char>)> {
    if nodes[j].tag == "image"@ {
        match xml::below(nodes, j, "init_from"@) {
            Some(x) => match r.paths[x] {
                Some(p) => Some((nodes[j].attribute_or_empty("id"@), p)),
                None => None,
            },
            None => None,
        }
    } else {
        None
    }
}

proof fn images_gathered(nodes: Seq<NodeView>, r: ReadingsView, lib: int, n: int)
    requires
        0 <= n <= nodes.len(),
    ensures
        dae_read::images_in(nodes, r, lib, n) == element::gathered(
            element::members_in(nodes, lib, n),
            |j: int| image_entry(nodes, r, j),
            element::members_in(nodes, lib, n).len() as int,
        ),
    decreases n,
{
    reveal_strlit("image");
    if n > 0 {
        images_gathered(nodes, r, lib, n - 1);
        element::gathered_on(nodes, lib, |j: int| image_entry(nodes, r, j), n);
    }
}

pub proof fn textures_are(materials: Seq<MaterialView>, n: int)
    requires
        0 <= n <= materials.len(),
    ensures
        forall|c: int|
            0 <= c < dae_tree::textures(materials, n).len() ==> 0 <= #[trigger] dae_tree::textures(materials, n)[c] < n
                && materials[dae_tree::textures(materials, n)[c]].texture_diffuse is Some,
        forall|c: int, d: int|
            0 <= c < d < dae_tree::textures(materials, n).len() ==> #[trigger] dae_tree::textures(materials, n)[c]
                < #[trigger] dae_tree::textures(materials, n)[d],
    decreases n,
{
    if n > 0 {
        textures_are(materials, n - 1);
        let a = dae_tree::textures(materials, n - 1);
        let b = dae_tree::textures(materials, n);
        assert forall|c: int| 0 <= c < b.len() implies 0 <= #[trigger] b[c] < n
            && materials[b[c]].texture_diffuse is Some by {
            if c < a.len() {
                assert(b[c] == a[c]);
            }
        }
        assert forall|c: int, d: int| 0 <= c < d < b.len() implies #[trigger] b[c] < #[trigger] b[d] by {
            assert(b[c] == a[c]);
            if d < a.len() {
                assert(b[d] == a[d]);
            }
        }
    }
}

proof fn texture_is_listed(materials: Seq<MaterialView>, n: int, mi: int) -> (c: int)
    requires
        0 <= mi < n <= materials.len(),
        materials[mi].texture_diffuse is Some,
    ensures
        0 <= c < dae_tree::textures(materials, n).len(),
        dae_tree::textures(materials, n)[c] == mi,
    decreases n,
{
    if mi == n - 1 {
        dae_tree::textures(materials, n - 1).len() as int
    } else {
        let c = texture_is_listed(materials, n - 1, mi);
        assert(dae_tree::textures(materials, n)[c] == dae_tree::textures(materials, n - 1)[c]);
        c
    }
}

proof fn image_is_read<K: RealText + FilePaths>(
    k: &K,
    dir: &str,
    nodes: Seq<NodeView>,
    r: ReadingsView,
    j: int,
    mi: int,
    tex: Seq<char>,
) -> (p: Seq<char>)
    requires
        element::nested(nodes),
        0 < j,
        collada::nodes_read(k, dir, nodes, r),
        element::holds(nodes, j, dae_tree::image(mi, tex)),
        tex.len() > 0,
    ensures
        image_entry(nodes, r, j) == Some((dae_tree::numbered("img_"@, mi), p)),
        collada::path_read(k, dir, element::cleaned(tex), p),
{
    element::cleaning_keeps_what_is_legal(tex);
    let e = dae_tree::image(mi, tex);
    reveal_strlit("image");
    reveal_strlit("init_from");
    assert("image"@.len() != "init_from"@.len());
    assert(e.children[0].tag == "init_from"@);
    element::below_is_found(nodes, j, e, "init_from"@, 0);
    let x = element::members(nodes, j)[0];
    assert(element::looks_like(nodes[x], e.children[0]));
    assert(collada::file_read(k, dir, nodes[x], r.paths[x]));
    assert(element::looks_like(nodes[j], e));
    element::attribute_is_found(nodes[j], e, "id"@, 0);
    r.paths[x]->0
}

/// Whether the files of textures have names.
pub open spec fn textures_have_names(m: MeshView) -> bool {
    forall|i: int|
        0 <= i < m.materials.len() ==> ((#[trigger] m.materials[i]).texture_diffuse matches Some(tex) ==> tex.len() > 0)
}

/// The image of a material with a texture is found.
proof fn image_is_found<K: RealText + FilePaths>(
    k: &K,
    dir: &str,
    nodes: Seq<NodeView>,
    r: ReadingsView,
    m: MeshView,
    t: NumberTexts,
    mi: int,
) -> (p: Seq<char>)
    requires
        element::is_document(nodes, dae_tree::document_tree(m, t)),
        collada::nodes_read(k, dir, nodes, r),
        0 <= mi < m.materials.len(),
        m.materials[mi].texture_diffuse is Some,
        textures_have_names(m),
    ensures
        table::lookup(dae_read::images(nodes, r), dae_tree::numbered("img_"@, mi)) == Some(p),
        collada::path_read(k, dir, element::cleaned(m.materials[mi].texture_diffuse->0), p),
{
    let root = dae_read::root(nodes);
    let doc = dae_tree::document_tree(m, t);
    assert(dae_tree::textured(m));
    reveal_strlit("asset");
    reveal_strlit("library_images");
    assert(doc.children[0].tag.len() == 5);
    assert(doc.children[1].tag == "library_images"@);
    element::child_is_found(nodes, root, doc, "library_images"@, 1);
    let lib = element::members(nodes, root)[1];
    let e = dae_tree::library_images(m);
    assert(doc.children[1] == e);
    let n = nodes.len() as int;
    let list = element::members(nodes, lib);
    let f = |j: int| image_entry(nodes, r, j);
    images_gathered(nodes, r, lib, n);
    element::members_are(nodes, root, n);
    element::members_are(nodes, lib, n);
    let x = dae_tree::textures(m.materials, m.materials.len() as int);
    textures_are(m.materials, m.materials.len() as int);
    assert forall|c: int| 0 <= c < list.len() implies f(#[trigger] list[c]) is Some && (f(list[c])->0).0
        == dae_tree::numbered("img_"@, x[c]) && collada::path_read(
        k,
        dir,
        element::cleaned(m.materials[x[c]].texture_diffuse->0),
        (f(list[c])->0).1,
    ) by {
        assert(element::holds(nodes, element::members(nodes, lib)[c], e.children[c]));
        assert(e.children[c] == dae_tree::image(x[c], m.materials[x[c]].texture_diffuse->0));
        assert(element::is_member(nodes, lib, list[c]));
        assert(nodes[list[c]].tag.len() > 0);
        assert(0 <= x[c] < m.materials.len() && m.materials[x[c]].texture_diffuse is Some);
        let p = image_is_read(k, dir, nodes, r, list[c], x[c], m.materials[x[c]].texture_diffuse->0);
    }
    element::all_gathered(list, f, list.len() as int);
    let images = dae_read::images(nodes, r);
    assert(images == element::gathered(list, f, list.len() as int));
    let c = texture_is_listed(m.materials, m.materials.len() as int, mi);
    assert(f(list[c]) is Some);
    assert(images[c] == f(list[c])->0);
    assert forall|d: int| 0 <= d < images.len() && d != c implies (#[trigger] images[d]).0 != dae_tree::numbered(
        "img_"@,
        mi,
    ) by {
        assert(f(list[d]) is Some);
        assert(images[d] == f(list[d])->0);
        assert(x[d] != x[c]) by {
            if d < c {
                assert(x[d] < x[c]);
            } else {
                assert(x[c] < x[d]);
            }
        }
        if images[d].0 == dae_tree::numbered("img_"@, mi) {
            numbered_differ("img_"@, x[d], mi);
        }
    }
    sole_entry(images, dae_tree::numbered("img_"@, mi), c);
    images[c].1
}

// ── Effects ──

/// A number in a leaf is read.
pub proof fn leaf_is_read<K: RealText + FilePaths>(
    k: &K,
    dir: &str,
    nodes: Seq<NodeView>,
    r: ReadingsView,
    j: int,
    e: Element,
    n: int,
    x: spec_fn(int) -> Real,
)
    requires
        collada::nodes_read(k, dir, nodes, r),
        element::holds(nodes, j, e),
        collada::holds_numbers(e.tag),
        e.text is Some,
        n >= 0,
        dae_numbers::text_reads_as(k, e.text->0, n, x),
    ensures
        r.numbers[j].len() == n,
        forall|c: int| 0 <= c < n ==> #[trigger] r.numbers[j][c] == Some(x(c)),
        dae_read::known(r.numbers[j], r.numbers[j].len() as int) == Seq::new(n as nat, |c: int| x(c)),
{
    assert(collada::numbers_read(k, nodes[j], r.numbers[j]));
    assert(nodes[j].text_or_empty() =~= e.text->0);
    dae_numbers::numbers_are_known(k, e.text->0, r.numbers[j], n, x);
}

proof fn colour_is_read<K: RealText + FilePaths>(
    k: &K,
    dir: &str,
    nodes: Seq<NodeView>,
    r: ReadingsView,
    shader: int,
    e: Element,
    c: int,
    tag: Seq<char>,
    content: Seq<char>,
    a: [Real; 4],
)
    requires
        collada::nodes_read(k, dir, nodes, r),
        dae_numbers::prints_plainly(k),
        dae_numbers::reads_back(k),
        element::holds(nodes, shader, e),
        0 <= c < e.children.len(),
        tag.len() > 0,
        e.children[c] == dae_tree::colour(tag, content),
        forall|d: int| 0 <= d < c ==> (#[trigger] e.children[d]).tag != tag,
        dae_text::is_colour(k, a, content),
        dae_numbers::is_finite_colour(a),
    ensures
        dae_read::colour_param(nodes, r, shader, tag) == a,
{
    element::child_is_found(nodes, shader, e, tag, c);
    let x = element::members(nodes, shader)[c];
    let y = e.children[c];
    reveal_strlit("color");
    assert(y.children[0].tag == "color"@);
    element::child_is_found(nodes, x, y, "color"@, 0);
    let z = element::members(nodes, x)[0];
    dae_numbers::colour_reads(k, a, content);
    leaf_is_read(k, dir, nodes, r, z, y.children[0], 4, |i: int| a[i]);
    let v = dae_read::known(r.numbers[z], r.numbers[z].len() as int);
    assert(v[0] == a[0] && v[1] == a[1] && v[2] == a[2] && v[3] == a[3]);
    assert(dae_read::colour(v) =~= a);
}

proof fn shininess_is_read<K: RealText + FilePaths>(
    k: &K,
    dir: &str,
    nodes: Seq<NodeView>,
    r: ReadingsView,
    shader: int,
    e: Element,
    c: int,
    content: Seq<char>,
    a: Real,
)
    requires
        collada::nodes_read(k, dir, nodes, r),
        dae_numbers::prints_plainly(k),
        dae_numbers::reads_back(k),
        element::holds(nodes, shader, e),
        0 <= c < e.children.len(),
        e.children[c] == dae_tree::shininess(content),
        forall|d: int| 0 <= d < c ==> (#[trigger] e.children[d]).tag != "shininess"@,
        dae_text::is_text(k, a, content),
        a.finite(),
    ensures
        dae_read::number_param(nodes, r, shader, "shininess"@) == a,
{
    reveal_strlit("shininess");
    element::child_is_found(nodes, shader, e, "shininess"@, c);
    let x = element::members(nodes, shader)[c];
    let y = e.children[c];
    reveal_strlit("float");
    assert(y.children[0].tag == "float"@);
    element::child_is_found(nodes, x, y, "float"@, 0);
    let z = element::members(nodes, x)[0];
    dae_numbers::single_reads(k, a, content);
    leaf_is_read(k, dir, nodes, r, z, y.children[0], 1, |i: int| a);
    assert(r.numbers[z][0] == Some(a));
}

/// The names of the parts of a material differ.
proof fn part_names_differ()
    ensures
        "emission"@.len() == 8,
        "ambient"@.len() == 7,
        "diffuse"@.len() == 7,
        "specular"@.len() == 8,
        "shininess"@.len() == 9,
        "phong"@.len() == 5,
        "ambient"@ != "diffuse"@,
        "emission"@ != "specular"@,
        "color"@ != "texture"@,
        "color"@.len() == 5,
        "texture"@.len() == 7,
{
    reveal_strlit("emission");
    reveal_strlit("ambient");
    reveal_strlit("diffuse");
    reveal_strlit("specular");
    reveal_strlit("shininess");
    reveal_strlit("phong");
    reveal_strlit("color");
    reveal_strlit("texture");
    assert("ambient"@[0] != "diffuse"@[0]);
    assert("emission"@[0] != "specular"@[0]);
    assert("color"@.len() != "texture"@.len());
}

proof fn shader_is_found(nodes: Seq<NodeView>, technique: int, j: int, x: int)
    requires
        0 <= j <= x < nodes.len(),
        xml::is_child(nodes, technique, x),
        dae_read::is_shader(nodes[x].tag),
        forall|y: int|
            j <= y < x && xml::is_child(nodes, technique, y) ==> !dae_read::is_shader((#[trigger] nodes[y]).tag),
    ensures
        dae_read::shader_from(nodes, technique, j) == Some(x),
    decreases x - j,
{
    if j < x {
        assert(!(xml::is_child(nodes, technique, j) && dae_read::is_shader(nodes[j].tag)));
        shader_is_found(nodes, technique, j + 1, x);
    }
}

pub open spec fn param_entry(nodes: Seq<NodeView>, kind: Seq<char>, source: Seq<char>, j: int) -> Option<
    (Seq<char>, Seq<char>),
> {
    if nodes[j].tag == "newparam"@ {
        match xml::child(nodes, j, kind) {
            Some(e) => match dae_read::child_text(nodes, e, source) {
                Some(t) => Some((nodes[j].attribute_or_empty("sid"@), text::trimmed(t))),
                None => None,
            },
            None => None,
        }
    } else {
        None
    }
}

proof fn params_gathered(nodes: Seq<NodeView>, profile: int, kind: Seq<char>, source: Seq<char>, n: int)
    requires
        0 <= n <= nodes.len(),
    ensures
        dae_read::params_in(nodes, profile, kind, source, n) == element::gathered(
            element::members_in(nodes, profile, n),
            |j: int| param_entry(nodes, kind, source, j),
            element::members_in(nodes, profile, n).len() as int,
        ),
    decreases n,
{
    reveal_strlit("newparam");
    if n > 0 {
        params_gathered(nodes, profile, kind, source, n - 1);
        element::gathered_on(nodes, profile, |j: int| param_entry(nodes, kind, source, j), n);
    }
}

/// A numbered name is one word.
proof fn numbered_is_word(word: Seq<char>, n: int)
    requires
        words::is_word(word),
        n >= 0,
    ensures
        words::is_word(dae_tree::numbered(word, n)),
{
    words::decimal_is_word(n);
    let w = dae_tree::numbered(word, n);
    assert forall|i: int| 0 <= i < w.len() implies !text::is_space(#[trigger] w[i]) by {
        if i < word.len() {
            assert(w[i] == word[i]);
        } else {
            assert(w[i] == text::dec(n)[i - word.len()]);
        }
    }
}

/// The surfaces and samplers of an effect with a texture.
proof fn params_are_read(nodes: Seq<NodeView>, p: int, mi: int, m: MaterialView, t: MaterialText)
    requires
        mi >= 0,
        m.texture_diffuse is Some,
        element::holds(nodes, p, dae_tree::profile(mi, m, t)),
    ensures
        dae_read::params_in(nodes, p, "surface"@, "init_from"@, nodes.len() as int) == seq![
            (dae_tree::numbered("surface_"@, mi), dae_tree::numbered("img_"@, mi)),
        ],
        dae_read::params_in(nodes, p, "sampler2D"@, "source"@, nodes.len() as int) == seq![
            (dae_tree::numbered("sampler_"@, mi), dae_tree::numbered("surface_"@, mi)),
        ],
{
    let n = nodes.len() as int;
    let e = dae_tree::profile(mi, m, t);
    let list = element::members(nodes, p);
    reveal_strlit("surface");
    reveal_strlit("sampler2D");
    reveal_strlit("newparam");
    reveal_strlit("technique");
    reveal_strlit("init_from");
    reveal_strlit("source");
    reveal_strlit("img_");
    reveal_strlit("surface_");
    assert("surface"@.len() != "sampler2D"@.len());
    assert("newparam"@.len() != "technique"@.len());
    assert(element::holds(nodes, element::members(nodes, p)[0], e.children[0]));
    assert(element::holds(nodes, element::members(nodes, p)[1], e.children[1]));
    assert(element::holds(nodes, element::members(nodes, p)[2], e.children[2]));
    let a = list[0];
    let b = list[1];
    let surface = dae_tree::surface(mi);
    let sampler = dae_tree::sampler(mi);
    assert(surface.children[0].tag == "surface"@);
    assert(sampler.children[0].tag == "sampler2D"@);
    element::child_is_found(nodes, a, surface, "surface"@, 0);
    element::child_is_missing(nodes, a, surface, "sampler2D"@);
    element::child_is_found(nodes, b, sampler, "sampler2D"@, 0);
    element::child_is_missing(nodes, b, sampler, "surface"@);
    let sa = element::members(nodes, a)[0];
    let sb = element::members(nodes, b)[0];
    assert(surface.children[0].children[0].tag == "init_from"@);
    element::child_text_is_found(nodes, sa, surface.children[0], "init_from"@, 0);
    assert(sampler.children[0].children[0].tag == "source"@);
    element::child_text_is_found(nodes, sb, sampler.children[0], "source"@, 0);
    element::attribute_is_found(nodes[a], surface, "sid"@, 0);
    element::attribute_is_found(nodes[b], sampler, "sid"@, 0);
    numbered_is_word("img_"@, mi);
    numbered_is_word("surface_"@, mi);
    word_is_trimmed(dae_tree::numbered("img_"@, mi));
    word_is_trimmed(dae_tree::numbered("surface_"@, mi));
    params_gathered(nodes, p, "surface"@, "init_from"@, n);
    params_gathered(nodes, p, "sampler2D"@, "source"@, n);
    let f = |j: int| param_entry(nodes, "surface"@, "init_from"@, j);
    let g = |j: int| param_entry(nodes, "sampler2D"@, "source"@, j);
    reveal_with_fuel(element::gathered, 4);
    assert(f(list[2]) is None && g(list[2]) is None);
    assert(f(list[1]) is None && g(list[0]) is None);
    assert(dae_read::params_in(nodes, p, "surface"@, "init_from"@, n) =~= seq![
        (dae_tree::numbered("surface_"@, mi), dae_tree::numbered("img_"@, mi)),
    ]);
    assert(dae_read::params_in(nodes, p, "sampler2D"@, "source"@, n) =~= seq![
        (dae_tree::numbered("sampler_"@, mi), dae_tree::numbered("surface_"@, mi)),
    ]);
}

/// Whether `b` is the material `a` as it comes back under a name: a texture takes the place of the
/// diffuse colour.
pub open spec fn kept<K: FilePaths>(k: &K, dir: &str, a: MaterialView, b: MaterialView) -> bool {
    &&& b.emission == a.emission
    &&& b.ambient == a.ambient
    &&& b.specular == a.specular
    &&& b.shininess == a.shininess
    &&& match a.texture_diffuse {
        Some(tex) => b.texture_diffuse matches Some(p) && collada::path_read(k, dir, element::cleaned(tex), p),
        None => b.texture_diffuse is None && b.diffuse == a.diffuse,
    }
}

proof fn effect_is_read<K: RealText + FilePaths>(
    k: &K,
    dir: &str,
    nodes: Seq<NodeView>,
    r: ReadingsView,
    images: Texts,
    j: int,
    mi: int,
    m: MaterialView,
    t: MaterialText,
)
    requires
        element::nested(nodes),
        0 < j,
        collada::nodes_read(k, dir, nodes, r),
        dae_numbers::prints_plainly(k),
        dae_numbers::reads_back(k),
        mi >= 0,
        element::holds(nodes, j, dae_tree::effect(mi, m, t)),
        dae_text::is_material_text(k, m, t),
        dae_numbers::is_finite_material(m),
        m.texture_diffuse matches Some(tex) ==> (table::lookup(images, dae_tree::numbered("img_"@, mi)) matches Some(
            p,
        ) && collada::path_read(k, dir, element::cleaned(tex), p)),
    ensures
        kept(k, dir, m, dae_read::effect_material(nodes, r, images, j)),
{
    let n = nodes.len() as int;
    let e = dae_tree::effect(mi, m, t);
    part_names_differ();
    reveal_strlit("effect");
    reveal_strlit("profile_COMMON");
    reveal_strlit("technique");
    reveal_strlit("newparam");
    reveal_strlit("surface");
    reveal_strlit("sampler2D");
    reveal_strlit("init_from");
    reveal_strlit("source");
    assert(e.children[0].tag == "profile_COMMON"@);
    assert("effect"@.len() != "profile_COMMON"@.len());
    element::below_is_found(nodes, j, e, "profile_COMMON"@, 0);
    let p = element::members(nodes, j)[0];
    let pe = dae_tree::profile(mi, m, t);
    element::members_are(nodes, j, n);
    assert(element::is_member(nodes, j, p));
    assert(nodes[p].tag.len() > 0);
    assert(0 < p);
    let c: int = if m.texture_diffuse is Some {
        2
    } else {
        0
    };
    assert(pe.children[c] == dae_tree::technique(mi, m, t));
    if m.texture_diffuse is Some {
        let f = |x: Element| x.tag != "technique"@;
        assert("technique"@.len() == 9 && "technique"@[0] == 't');
        assert("sampler2D"@.len() == 9 && "sampler2D"@[0] == 's');
        assert("init_from"@.len() == 9 && "init_from"@[0] == 'i');
        assert(element::every(dae_tree::surface(mi), f)) by {
            reveal_with_fuel(element::every, 4);
            let s = dae_tree::surface(mi);
            assert(f(s));
            assert(f(s.children[0]));
            assert(f(s.children[0].children[0]));
        }
        assert(element::every(dae_tree::sampler(mi), f)) by {
            reveal_with_fuel(element::every, 4);
            let s = dae_tree::sampler(mi);
            assert(f(s));
            assert(f(s.children[0]));
            assert(f(s.children[0].children[0]));
        }
        assert(pe.children[0] == dae_tree::surface(mi));
        assert(pe.children[1] == dae_tree::sampler(mi));
        assert forall|d: int| 0 <= d < c implies element::every(
            #[trigger] pe.children[d],
            |x: Element| x.tag != "technique"@,
        ) by {
            assert(f == (|x: Element| x.tag != "technique"@));
        }
    }
    element::below_is_found(nodes, p, pe, "technique"@, c);
    let q = element::members(nodes, p)[c];
    let qe = dae_tree::technique(mi, m, t);
    assert(element::holds(nodes, element::members(nodes, q)[0], qe.children[0]));
    let s = element::members(nodes, q)[0];
    let se = dae_tree::phong(mi, m, t);
    assert(qe.children[0] == se);
    element::members_are(nodes, q, n);
    assert(element::is_member(nodes, q, s));
    assert forall|y: int| 0 <= y < s && xml::is_child(nodes, q, y) implies !dae_read::is_shader(
        (#[trigger] nodes[y]).tag,
    ) by {
        if dae_read::is_shader(nodes[y].tag) {
            reveal_strlit("phong");
            reveal_strlit("lambert");
            reveal_strlit("blinn");
            let d = element::member_is_listed(nodes, q, n, y);
            assert(d == 0);
        }
    }
    shader_is_found(nodes, q, 0, s);
    let texts = t;
    assert(se.children[0] == dae_tree::colour("emission"@, t.emission@));
    assert(se.children[1] == dae_tree::colour("ambient"@, t.ambient@));
    assert(se.children[2] == dae_tree::diffuse(mi, m, t));
    assert(se.children[2].tag == "diffuse"@);
    assert(se.children[3] == dae_tree::colour("specular"@, t.specular@));
    assert(se.children[4] == dae_tree::shininess(t.shininess@));
    colour_is_read(k, dir, nodes, r, s, se, 0, "emission"@, t.emission@, m.emission);
    colour_is_read(k, dir, nodes, r, s, se, 1, "ambient"@, t.ambient@, m.ambient);
    colour_is_read(k, dir, nodes, r, s, se, 3, "specular"@, t.specular@, m.specular);
    shininess_is_read(k, dir, nodes, r, s, se, 4, t.shininess@, m.shininess);
    element::child_is_found(nodes, s, se, "diffuse"@, 2);
    let d = element::members(nodes, s)[2];
    let de = dae_tree::diffuse(mi, m, t);
    if m.texture_diffuse is Some {
        assert(de.children[0].tag == "texture"@);
        element::child_is_found(nodes, d, de, "texture"@, 0);
        let x = element::members(nodes, d)[0];
        element::attribute_is_found(nodes[x], de.children[0], "texture"@, 0);
        params_are_read(nodes, p, mi, m, t);
        let samplers = dae_read::params_in(nodes, p, "sampler2D"@, "source"@, n);
        let surfaces = dae_read::params_in(nodes, p, "surface"@, "init_from"@, n);
        sole_entry(samplers, dae_tree::numbered("sampler_"@, mi), 0);
        sole_entry(surfaces, dae_tree::numbered("surface_"@, mi), 0);
    } else {
        assert(de.children[0].tag == "color"@);
        element::child_is_missing(nodes, d, de, "texture"@);
        colour_is_read(k, dir, nodes, r, s, se, 2, "diffuse"@, t.diffuse@, m.diffuse);
    }
}

pub open spec fn effect_entry(nodes: Seq<NodeView>, r: ReadingsView, images: Texts, j: int) -> Option<
    (Seq<char>, MaterialView),
> {
    if nodes[j].tag == "effect"@ {
        Some((nodes[j].attribute_or_empty("id"@), dae_read::effect_material(nodes, r, images, j)))
    } else {
        None
    }
}

proof fn effects_gathered(nodes: Seq<NodeView>, r: ReadingsView, images: Texts, lib: int, n: int)
    requires
        0 <= n <= nodes.len(),
    ensures
        dae_read::effects_in(nodes, r, images, lib, n) == element::gathered(
            element::members_in(nodes, lib, n),
            |j: int| effect_entry(nodes, r, images, j),
            element::members_in(nodes, lib, n).len() as int,
        ),
    decreases n,
{
    reveal_strlit("effect");
    if n > 0 {
        effects_gathered(nodes, r, images, lib, n - 1);
        element::gathered_on(nodes, lib, |j: int| effect_entry(nodes, r, images, j), n);
    }
}

/// Where the parts of a document are.
pub open spec fn part(m: MeshView, i: int) -> int {
    if dae_tree::textured(m) {
        i + 1
    } else {
        i
    }
}

/// The parts of a document are found.
pub proof fn parts_are_found(nodes: Seq<NodeView>, m: MeshView, t: NumberTexts)
    requires
        element::is_document(nodes, dae_tree::document_tree(m, t)),
    ensures
        ({
            let root = dae_read::root(nodes);
            let list = element::members(nodes, root);
            &&& xml::child(nodes, root, "asset"@) == Some(list[0])
            &&& element::holds(nodes, list[0], dae_tree::asset())
            &&& xml::child(nodes, root, "library_effects"@) == Some(list[part(m, 1)])
            &&& element::holds(nodes, list[part(m, 1)], dae_tree::library_effects(m, t))
            &&& xml::child(nodes, root, "library_materials"@) == Some(list[part(m, 2)])
            &&& element::holds(nodes, list[part(m, 2)], dae_tree::library_materials(m))
            &&& xml::child(nodes, root, "library_geometries"@) == Some(list[part(m, 3)])
            &&& element::holds(nodes, list[part(m, 3)], dae_tree::library_geometries(m, t))
            &&& xml::child(nodes, root, "library_visual_scenes"@) == Some(list[part(m, 4)])
            &&& element::holds(nodes, list[part(m, 4)], dae_tree::scenes(m))
            &&& forall|c: int| 0 <= c < list.len() ==> root < #[trigger] list[c] < nodes.len()
        }),
{
    let root = dae_read::root(nodes);
    let doc = dae_tree::document_tree(m, t);
    reveal_strlit("asset");
    reveal_strlit("library_images");
    reveal_strlit("library_effects");
    reveal_strlit("library_materials");
    reveal_strlit("library_geometries");
    reveal_strlit("library_visual_scenes");
    assert(doc.children[0] == dae_tree::asset());
    assert(dae_tree::textured(m) ==> doc.children[1] == dae_tree::library_images(m));
    assert(doc.children[part(m, 1)] == dae_tree::library_effects(m, t));
    assert(doc.children[part(m, 2)] == dae_tree::library_materials(m));
    assert(doc.children[part(m, 3)] == dae_tree::library_geometries(m, t));
    assert(doc.children[part(m, 4)] == dae_tree::scenes(m));
    assert(doc.children[0].tag.len() == 5);
    assert(dae_tree::textured(m) ==> doc.children[1].tag.len() == 14);
    assert(doc.children[part(m, 1)].tag.len() == 15);
    assert(doc.children[part(m, 2)].tag.len() == 17);
    assert(doc.children[part(m, 3)].tag.len() == 18);
    assert(doc.children[part(m, 4)].tag.len() == 21);
    element::child_is_found(nodes, root, doc, "asset"@, 0);
    element::child_is_found(nodes, root, doc, "library_effects"@, part(m, 1));
    element::child_is_found(nodes, root, doc, "library_materials"@, part(m, 2));
    element::child_is_found(nodes, root, doc, "library_geometries"@, part(m, 3));
    element::child_is_found(nodes, root, doc, "library_visual_scenes"@, part(m, 4));
    let n = nodes.len() as int;
    element::members_are(nodes, root, n);
    let list = element::members(nodes, root);
    assert forall|c: int| 0 <= c < list.len() implies root < #[trigger] list[c] < nodes.len() by {
        assert(element::is_member(nodes, root, list[c]));
        assert(nodes[list[c]].tag.len() > 0);
    }
}

/// The effect of a material is found.
proof fn effect_is_found<K: RealText + FilePaths>(
    k: &K,
    dir: &str,
    nodes: Seq<NodeView>,
    r: ReadingsView,
    m: MeshView,
    t: NumberTexts,
    mi: int,
) -> (b: MaterialView)
    requires
        element::is_document(nodes, dae_tree::document_tree(m, t)),
        collada::nodes_read(k, dir, nodes, r),
        dae_numbers::prints_plainly(k),
        dae_numbers::reads_back(k),
        dae_text::is_mesh_text(k, m, t),
        dae_numbers::is_finite(m),
        textures_have_names(m),
        0 <= mi < m.materials.len(),
    ensures
        table::lookup(dae_read::effects(nodes, r), dae_tree::numbered("effect_"@, mi)) == Some(b),
        kept(k, dir, m.materials[mi], b),
{
    parts_are_found(nodes, m, t);
    let root = dae_read::root(nodes);
    let lib = element::members(nodes, root)[part(m, 1)];
    let e = dae_tree::library_effects(m, t);
    let n = nodes.len() as int;
    let images = dae_read::images(nodes, r);
    let list = element::members(nodes, lib);
    let f = |j: int| effect_entry(nodes, r, images, j);
    effects_gathered(nodes, r, images, lib, n);
    element::members_are(nodes, lib, n);
    assert forall|c: int| 0 <= c < list.len() implies f(#[trigger] list[c]) is Some && (f(list[c])->0).0
        == dae_tree::numbered("effect_"@, c) by {
        assert(element::holds(nodes, element::members(nodes, lib)[c], e.children[c]));
        assert(e.children[c] == dae_tree::effect(c, m.materials[c], t.materials@[c]));
        element::attribute_is_found(nodes[list[c]], e.children[c], "id"@, 0);
    }
    element::all_gathered(list, f, list.len() as int);
    let effects = dae_read::effects(nodes, r);
    assert(effects == element::gathered(list, f, list.len() as int));
    assert(effects.len() == list.len());
    assert(f(list[mi]) is Some);
    assert(effects[mi] == f(list[mi])->0);
    assert forall|d: int| 0 <= d < effects.len() && d != mi implies (#[trigger] effects[d]).0 != dae_tree::numbered(
        "effect_"@,
        mi,
    ) by {
        assert(f(list[d]) is Some);
        assert(effects[d] == f(list[d])->0);
        if effects[d].0 == dae_tree::numbered("effect_"@, mi) {
            numbered_differ("effect_"@, d, mi);
        }
    }
    sole_entry(effects, dae_tree::numbered("effect_"@, mi), mi);
    assert(element::holds(nodes, element::members(nodes, lib)[mi], e.children[mi]));
    assert(e.children[mi] == dae_tree::effect(mi, m.materials[mi], t.materials@[mi]));
    if m.materials[mi].texture_diffuse is Some {
        let p = image_is_found(k, dir, nodes, r, m, t, mi);
    }
    assert(element::is_member(nodes, lib, list[mi]));
    assert(dae_text::is_material_text(k, m.materials[mi], t.materials@[mi]));
    effect_is_read(k, dir, nodes, r, images, list[mi], mi, m.materials[mi], t.materials@[mi]);
    effects[mi].1
}

// ── Materials ──

/// Whether no two materials are written under one name and none of the names begins with `#`.
pub open spec fn names_are_clear(m: MeshView) -> bool {
    &&& forall|a: int, b: int|
        0 <= a < b < m.materials.len() ==> #[trigger] dae_text::material_name(m.materials, a)
            != #[trigger] dae_text::material_name(m.materials, b)
    &&& forall|a: int|
        0 <= a < m.materials.len() ==> (#[trigger] dae_text::material_name(m.materials, a))[0] != '#'
}

pub open spec fn material_entry(nodes: Seq<NodeView>, j: int) -> Option<(Seq<char>, Seq<char>)> {
    if nodes[j].tag == "material"@ {
        match xml::child(nodes, j, "instance_effect"@) {
            Some(e) => match nodes[e].attribute("url"@) {
                Some(url) => Some((nodes[j].attribute_or_empty("id"@), text::unhashed(url))),
                None => None,
            },
            None => None,
        }
    } else {
        None
    }
}

proof fn materials_gathered(nodes: Seq<NodeView>, lib: int, n: int)
    requires
        0 <= n <= nodes.len(),
    ensures
        dae_read::material_effects_in(nodes, lib, n) == element::gathered(
            element::members_in(nodes, lib, n),
            |j: int| material_entry(nodes, j),
            element::members_in(nodes, lib, n).len() as int,
        ),
    decreases n,
{
    reveal_strlit("material");
    if n > 0 {
        materials_gathered(nodes, lib, n - 1);
        element::gathered_on(nodes, lib, |j: int| material_entry(nodes, j), n);
    }
}

/// A material is found by its name.
proof fn material_is_found(nodes: Seq<NodeView>, m: MeshView, t: NumberTexts, mi: int)
    requires
        element::is_document(nodes, dae_tree::document_tree(m, t)),
        names_are_clear(m),
        0 <= mi < m.materials.len(),
    ensures
        table::lookup(dae_read::material_effects(nodes), dae_text::material_name(m.materials, mi)) == Some(
            dae_tree::numbered("effect_"@, mi),
        ),
{
    parts_are_found(nodes, m, t);
    let root = dae_read::root(nodes);
    let lib = element::members(nodes, root)[part(m, 2)];
    let e = dae_tree::library_materials(m);
    let n = nodes.len() as int;
    let list = element::members(nodes, lib);
    let f = |j: int| material_entry(nodes, j);
    materials_gathered(nodes, lib, n);
    reveal_strlit("instance_effect");
    reveal_strlit("effect_");
    assert forall|c: int| 0 <= c < list.len() implies f(#[trigger] list[c]) == Some(
        (dae_text::material_name(m.materials, c), dae_tree::numbered("effect_"@, c)),
    ) by {
        assert(element::holds(nodes, element::members(nodes, lib)[c], e.children[c]));
        let x = dae_tree::material(c, dae_text::material_name(m.materials, c));
        assert(e.children[c] == x);
        element::attribute_is_found(nodes[list[c]], x, "id"@, 0);
        assert(x.children[0].tag == "instance_effect"@);
        element::child_is_found(nodes, list[c], x, "instance_effect"@, 0);
        let y = element::members(nodes, list[c])[0];
        element::attribute_is_found(nodes[y], x.children[0], "url"@, 0);
        link_leads_back(dae_tree::numbered("effect_"@, c));
    }
    element::all_gathered(list, f, list.len() as int);
    let all = dae_read::material_effects(nodes);
    let name = dae_text::material_name(m.materials, mi);
    assert(all == element::gathered(list, f, list.len() as int));
    assert(f(list[mi]) is Some);
    assert(all[mi] == f(list[mi])->0);
    assert forall|d: int| 0 <= d < all.len() && d != mi implies (#[trigger] all[d]).0 != name by {
        assert(f(list[d]) is Some);
        assert(all[d] == f(list[d])->0);
        assert(dae_text::material_name(m.materials, d) != name);
    }
    sole_entry(all, name, mi);
}

// ── Scene ──

/// Whether an element, if it binds a symbol, binds it to the material of that name.
pub open spec fn binds_itself(x: Element) -> bool {
    x.tag == "instance_material"@ ==> {
        &&& x.attributes.len() == 2
        &&& x.attributes[0].0 == "symbol"@
        &&& x.attributes[1].0 == "target"@
        &&& x.attributes[0].1.len() > 0
        &&& x.attributes[0].1[0] != '#'
        &&& x.attributes[1].1 == dae_tree::link(x.attributes[0].1)
    }
}

/// Whether the runs of triangles have materials of the mesh or none.
pub open spec fn materials_exist(m: MeshView) -> bool {
    forall|i: int|
        0 <= i < m.submeshes.len() ==> ((#[trigger] m.submeshes[i]).material_index matches Some(mi) ==> mi
            < m.materials.len())
}

/// A name of a material is not empty.
pub proof fn name_is_not_empty(materials: Seq<MaterialView>, mi: int)
    ensures
        dae_text::material_name(materials, mi).len() > 0,
{
    reveal_strlit("material_");
}

proof fn binding_binds_itself(name: Seq<char>)
    requires
        name.len() > 0,
        name[0] != '#',
    ensures
        element::every(dae_tree::binding(name), |x: Element| binds_itself(x)),
{
    let f = |x: Element| binds_itself(x);
    let e = dae_tree::binding(name);
    reveal_strlit("bind_material");
    reveal_strlit("technique_common");
    reveal_strlit("instance_material");
    assert("bind_material"@.len() != "instance_material"@.len());
    assert("technique_common"@.len() != "instance_material"@.len());
    let a = e.children[0];
    let b = a.children[0];
    assert(f(b));
    assert(element::every(b, f));
    assert(f(a));
    assert(element::every(a, f)) by {
        assert(a.children.len() == 1);
    }
    assert(f(e));
    assert(element::every(e, f)) by {
        assert(e.children.len() == 1);
    }
}

proof fn node_binds_itself(i: int, run: dae_tree::Run)
    requires
        run.material matches Some(name) ==> name.len() > 0 && name[0] != '#',
    ensures
        element::every(dae_tree::scene_node(i, run), |x: Element| binds_itself(x)),
{
    let f = |x: Element| binds_itself(x);
    let e = dae_tree::scene_node(i, run);
    reveal_strlit("node");
    reveal_strlit("instance_geometry");
    reveal_strlit("instance_material");
    assert("node"@.len() != "instance_material"@.len());
    assert("instance_geometry"@[9] != "instance_material"@[9]);
    let a = e.children[0];
    if run.material is Some {
        binding_binds_itself(run.material->0);
        assert(a.children.len() == 1);
        assert(a.children[0] == dae_tree::binding(run.material->0));
    }
    assert(f(a));
    assert(element::every(a, f));
    assert(f(e));
    assert(element::every(e, f)) by {
        assert(e.children.len() == 1);
    }
}

proof fn scenes_bind_themselves(m: MeshView)
    requires
        names_are_clear(m),
        materials_exist(m),
    ensures
        element::every(dae_tree::scenes(m), |x: Element| binds_itself(x)),
{
    let f = |x: Element| binds_itself(x);
    let e = dae_tree::scenes(m);
    reveal_strlit("library_visual_scenes");
    reveal_strlit("visual_scene");
    reveal_strlit("instance_material");
    assert("library_visual_scenes"@.len() != "instance_material"@.len());
    assert("visual_scene"@.len() != "instance_material"@.len());
    let a = e.children[0];
    assert forall|c: int| 0 <= c < a.children.len() implies element::every(#[trigger] a.children[c], f) by {
        let run = dae_tree::runs(m)[c];
        if m.submeshes.len() > 0 {
            if m.submeshes[c].material_index is Some {
                name_is_not_empty(m.materials, m.submeshes[c].material_index->0 as int);
            }
        }
        node_binds_itself(c, run);
        assert(a.children[c] == dae_tree::scene_node(c, run));
    }
    assert(f(a));
    assert(element::every(a, f));
    assert(f(e));
    assert(element::every(e, f)) by {
        assert(e.children.len() == 1);
    }
}

proof fn under_twice(nodes: Seq<NodeView>, i: int, j: int, x: int)
    requires
        xml::is_under(nodes, i, j),
        xml::is_under(nodes, j, x),
    ensures
        xml::is_under(nodes, i, x),
    decreases x,
{
    if x != j {
        match nodes[x].parent {
            Some(p) => {
                under_twice(nodes, i, j, p as int);
            },
            None => {},
        }
    }
}

/// Whether every entry is named like its value.
pub open spec fn named_alike(t: Texts) -> bool {
    forall|i: int| 0 <= i < t.len() ==> (#[trigger] t[i]).0 == t[i].1
}

proof fn alike_is_found(t: Texts, name: Seq<char>)
    requires
        named_alike(t),
    ensures
        table::lookup(t, name) matches Some(v) ==> v == name,
    decreases t.len(),
{
    if t.len() > 0 {
        let u = t.drop_last();
        assert forall|i: int| 0 <= i < u.len() implies (#[trigger] u[i]).0 == u[i].1 by {
            assert(u[i] == t[i]);
        }
        assert(t[t.len() - 1].0 == t[t.len() - 1].1);
        alike_is_found(u, name);
    }
}

proof fn bindings_are_alike(nodes: Seq<NodeView>, m: MeshView, lib: int, instance: int, n: int)
    requires
        element::nested(nodes),
        0 < lib,
        element::holds(nodes, lib, dae_tree::scenes(m)),
        names_are_clear(m),
        materials_exist(m),
        xml::is_under(nodes, lib, instance),
        0 <= n <= nodes.len(),
    ensures
        named_alike(dae_read::bindings_of(nodes, instance, n)),
    decreases n,
{
    if n > 0 {
        let j = n - 1;
        bindings_are_alike(nodes, m, lib, instance, j);
        if xml::is_under(nodes, instance, j) && nodes[j].tag == "instance_material"@ {
            under_twice(nodes, lib, instance, j);
            scenes_bind_themselves(m);
            reveal_strlit("instance_material");
            let x = element::every_under(
                nodes,
                lib,
                dae_tree::scenes(m),
                |x: Element| binds_itself(x),
                j,
            );
            assert(binds_itself(x));
            reveal_strlit("symbol");
            reveal_strlit("target");
            assert("symbol"@[0] != "target"@[0]);
            element::attribute_is_found(nodes[j], x, "symbol"@, 0);
            element::attribute_is_found(nodes[j], x, "target"@, 1);
            link_leads_back(x.attributes[0].1);
        }
    }
}

proof fn instances_are_alike(nodes: Seq<NodeView>, m: MeshView, lib: int, n: int)
    requires
        element::nested(nodes),
        0 < lib,
        element::holds(nodes, lib, dae_tree::scenes(m)),
        names_are_clear(m),
        materials_exist(m),
        0 <= n <= nodes.len(),
    ensures
        forall|i: int|
            0 <= i < dae_read::instances_in(nodes, lib, n).len() ==> named_alike(
                (#[trigger] dae_read::instances_in(nodes, lib, n)[i]).1,
            ),
    decreases n,
{
    if n > 0 {
        let j = n - 1;
        instances_are_alike(nodes, m, lib, j);
        let a = dae_read::instances_in(nodes, lib, j);
        let b = dae_read::instances_in(nodes, lib, n);
        if xml::is_under(nodes, lib, j) && nodes[j].tag == "instance_geometry"@ {
            bindings_are_alike(nodes, m, lib, j, nodes.len() as int);
            assert forall|i: int| 0 <= i < b.len() implies named_alike((#[trigger] b[i]).1) by {
                if i < a.len() {
                    assert(b[i] == a[i]);
                }
            }
        }
    }
}

proof fn binding_is_alike(instances: Seq<(Seq<char>, Texts)>, geometry: Seq<char>, symbol: Seq<char>)
    requires
        forall|c: int| 0 <= c < instances.len() ==> named_alike((#[trigger] instances[c]).1),
    ensures
        dae_merge::material_of(instances, geometry, symbol) == symbol,
    decreases instances.len(),
{
    if instances.len() > 0 {
        if instances.last().0 == geometry {
            alike_is_found(instances.last().1, symbol);
        } else {
            let rest = instances.drop_last();
            assert forall|c: int| 0 <= c < rest.len() implies named_alike((#[trigger] rest[c]).1) by {
                assert(rest[c] == instances[c]);
            }
            binding_is_alike(rest, geometry, symbol);
        }
    }
}

/// A symbol stands for the material of its name.
pub proof fn symbol_is_material(nodes: Seq<NodeView>, m: MeshView, t: NumberTexts, symbol: Seq<char>)
    requires
        element::is_document(nodes, dae_tree::document_tree(m, t)),
        names_are_clear(m),
        materials_exist(m),
    ensures
        forall|geometry: Seq<char>| #[trigger]
            dae_merge::material_of(dae_read::instances(nodes), geometry, symbol) == symbol,
{
    parts_are_found(nodes, m, t);
    let lib = element::members(nodes, dae_read::root(nodes))[part(m, 4)];
    instances_are_alike(nodes, m, lib, nodes.len() as int);
    assert forall|geometry: Seq<char>| #[trigger]
        dae_merge::material_of(dae_read::instances(nodes), geometry, symbol) == symbol by {
        binding_is_alike(dae_read::instances(nodes), geometry, symbol);
    }
}

/// What is known about the materials of a document.
pub open spec fn looks(nodes: Seq<NodeView>, r: ReadingsView) -> Looks {
    Looks {
        effects: dae_read::effects(nodes, r),
        material_effects: dae_read::material_effects(nodes),
        instances: dae_read::instances(nodes),
    }
}

/// A material looks as it did.
pub proof fn appearance_is_kept<K: RealText + FilePaths>(
    k: &K,
    dir: &str,
    nodes: Seq<NodeView>,
    r: ReadingsView,
    m: MeshView,
    t: NumberTexts,
    mi: int,
)
    requires
        element::is_document(nodes, dae_tree::document_tree(m, t)),
        collada::nodes_read(k, dir, nodes, r),
        dae_numbers::prints_plainly(k),
        dae_numbers::reads_back(k),
        dae_text::is_mesh_text(k, m, t),
        dae_numbers::is_finite(m),
        textures_have_names(m),
        names_are_clear(m),
        0 <= mi < m.materials.len(),
    ensures
        dae_merge::appearance(looks(nodes, r), dae_text::material_name(m.materials, mi)) matches Some(b) && kept(
            k,
            dir,
            m.materials[mi],
            b,
        ),
{
    material_is_found(nodes, m, t, mi);
    let b = effect_is_found(k, dir, nodes, r, m, t, mi);
}

} // verus!
