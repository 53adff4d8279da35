//! The documents that are written are well formed, whatever the names of materials.

use vstd::prelude::*;
use crate::dae_numbers;
use crate::dae_text;
use crate::dae_tree;
use crate::element;
use crate::text;
use crate::words;
use crate::dae_text::{MaterialText, NumberTexts};
use crate::dae_tree::{Pairs, Run};
use crate::element::Element;
use crate::mesh::{MaterialView, MeshView};
use crate::number::Real;
use crate::numerics::RealText;

verus! {

// ── Texts ──

proof fn legal_join(a: Seq<char>, b: Seq<char>)
    requires
        element::is_legal_text(a),
        element::is_legal_text(b),
    ensures
        element::is_legal_text(a + b),
{
    let s = a + b;
    assert forall|i: int| 0 <= i < s.len() implies element::is_legal(#[trigger] s[i]) by {
        if i < a.len() {
            assert(s[i] == a[i]);
        } else {
            assert(s[i] == b[i - a.len()]);
        }
    }
}

proof fn blanks_are_legal()
    ensures
        element::is_legal_text(" "@),
        element::is_legal_text("  "@),
        " "@.len() == 1,
        "  "@.len() == 2,
{
    reveal_strlit(" ");
    reveal_strlit("  ");
}

proof fn lines_are_gaps(depth: nat)
    ensures
        element::is_gap(dae_tree::line(depth)),
        element::is_legal_text(dae_tree::line(depth)),
{
}

proof fn decimal_is_legal(n: int)
    requires
        n >= 0,
    ensures
        element::is_legal_text(text::dec(n)),
        text::dec(n).len() > 0,
    decreases n,
{
    if n >= 10 {
        decimal_is_legal(n / 10);
        let d = text::dec(n);
        assert forall|i: int| 0 <= i < d.len() implies element::is_legal(#[trigger] d[i]) by {
            if i < d.len() - 1 {
                assert(d[i] == text::dec(n / 10)[i]);
            }
        }
    }
}

proof fn numbered_is_plain(word: Seq<char>, n: int)
    requires
        element::is_legal_text(word),
        n >= 0,
    ensures
        element::is_legal_text(dae_tree::numbered(word, n)),
        dae_tree::numbered(word, n).len() > 0,
{
    decimal_is_legal(n);
    legal_join(word, text::dec(n));
}

proof fn link_is_plain(id: Seq<char>)
    requires
        element::is_legal_text(id),
    ensures
        element::is_legal_text(dae_tree::link(id)),
{
    reveal_strlit("#");
    legal_join("#"@, id);
}

// ── Elements ──

proof fn indented_is_plain(tag: Seq<char>, attributes: Pairs, children: Seq<Element>, depth: nat)
    requires
        element::is_name(tag),
        element::are_plain(attributes),
        forall|c: int| 0 <= c < children.len() ==> element::is_plain(#[trigger] children[c]),
    ensures
        element::is_plain(dae_tree::indented(tag, attributes, children, depth)),
{
    lines_are_gaps(depth);
    lines_are_gaps(depth + 1);
}

proof fn boxed_is_plain(tag: Seq<char>, attributes: Pairs, children: Seq<Element>, depth: nat)
    requires
        element::is_name(tag),
        element::are_plain(attributes),
        forall|c: int| 0 <= c < children.len() ==> element::is_plain(#[trigger] children[c]),
    ensures
        element::is_plain(dae_tree::boxed(tag, attributes, children, depth)),
{
    lines_are_gaps(depth);
    lines_are_gaps(depth + 1);
}

proof fn inline_is_plain(tag: Seq<char>, attributes: Pairs, children: Seq<Element>)
    requires
        element::is_name(tag),
        element::are_plain(attributes),
        forall|c: int| 0 <= c < children.len() ==> element::is_plain(#[trigger] children[c]),
    ensures
        element::is_plain(dae_tree::inline(tag, attributes, children)),
{
}

proof fn leaf_is_plain(tag: Seq<char>, content: Seq<char>)
    requires
        element::is_name(tag),
        element::is_legal_text(content),
    ensures
        element::is_plain(dae_tree::leaf(tag, content)),
{
}

proof fn stub_is_plain(tag: Seq<char>, attributes: Pairs)
    requires
        element::is_name(tag),
        element::are_plain(attributes),
    ensures
        element::is_plain(dae_tree::stub(tag, attributes)),
{
}

/// The names of elements are names.
proof fn tags_are_names()
    ensures
        element::is_name("COLLADA"@),
        element::is_name("asset"@),
        element::is_name("up_axis"@),
        element::is_name("library_images"@),
        element::is_name("image"@),
        element::is_name("init_from"@),
        element::is_name("library_effects"@),
        element::is_name("effect"@),
        element::is_name("profile_COMMON"@),
        element::is_name("newparam"@),
        element::is_name("surface"@),
        element::is_name("sampler2D"@),
        element::is_name("source"@),
        element::is_name("technique"@),
        element::is_name("phong"@),
        element::is_name("emission"@),
        element::is_name("ambient"@),
        element::is_name("diffuse"@),
        element::is_name("specular"@),
        element::is_name("shininess"@),
        element::is_name("color"@),
        element::is_name("float"@),
        element::is_name("texture"@),
{
    reveal_strlit("COLLADA");
    reveal_strlit("asset");
    reveal_strlit("up_axis");
    reveal_strlit("library_images");
    reveal_strlit("image");
    reveal_strlit("init_from");
    reveal_strlit("library_effects");
    reveal_strlit("effect");
    reveal_strlit("profile_COMMON");
    reveal_strlit("newparam");
    reveal_strlit("surface");
    reveal_strlit("sampler2D");
    reveal_strlit("source");
    reveal_strlit("technique");
    reveal_strlit("phong");
    reveal_strlit("emission");
    reveal_strlit("ambient");
    reveal_strlit("diffuse");
    reveal_strlit("specular");
    reveal_strlit("shininess");
    reveal_strlit("color");
    reveal_strlit("float");
    reveal_strlit("texture");
}

/// More names of elements are names.
proof fn more_tags_are_names()
    ensures
        element::is_name("library_materials"@),
        element::is_name("material"@),
        element::is_name("instance_effect"@),
        element::is_name("library_geometries"@),
        element::is_name("geometry"@),
        element::is_name("mesh"@),
        element::is_name("float_array"@),
        element::is_name("technique_common"@),
        element::is_name("accessor"@),
        element::is_name("param"@),
        element::is_name("vertices"@),
        element::is_name("input"@),
        element::is_name("triangles"@),
        element::is_name("p"@),
        element::is_name("library_visual_scenes"@),
        element::is_name("visual_scene"@),
        element::is_name("node"@),
        element::is_name("instance_geometry"@),
        element::is_name("bind_material"@),
        element::is_name("instance_material"@),
        element::is_name("scene"@),
        element::is_name("instance_visual_scene"@),
        element::is_name("source"@),
{
    reveal_strlit("library_materials");
    reveal_strlit("material");
    reveal_strlit("instance_effect");
    reveal_strlit("library_geometries");
    reveal_strlit("geometry");
    reveal_strlit("mesh");
    reveal_strlit("float_array");
    reveal_strlit("technique_common");
    reveal_strlit("accessor");
    reveal_strlit("param");
    reveal_strlit("vertices");
    reveal_strlit("input");
    reveal_strlit("triangles");
    reveal_strlit("p");
    reveal_strlit("library_visual_scenes");
    reveal_strlit("visual_scene");
    reveal_strlit("node");
    reveal_strlit("instance_geometry");
    reveal_strlit("bind_material");
    reveal_strlit("instance_material");
    reveal_strlit("scene");
    reveal_strlit("instance_visual_scene");
    reveal_strlit("source");
}

/// Whether a name can be that of an attribute.
pub open spec fn is_attribute_name(s: Seq<char>) -> bool {
    element::is_name(s) && s != "xmlns"@
}

/// The names of attributes are names.
proof fn attribute_names_are_names()
    ensures
        is_attribute_name("id"@),
        is_attribute_name("name"@),
        is_attribute_name("sid"@),
        is_attribute_name("type"@),
        is_attribute_name("texture"@),
        is_attribute_name("texcoord"@),
        is_attribute_name("url"@),
        is_attribute_name("count"@),
        is_attribute_name("source"@),
        is_attribute_name("stride"@),
        is_attribute_name("semantic"@),
        is_attribute_name("offset"@),
        is_attribute_name("set"@),
        is_attribute_name("material"@),
        is_attribute_name("symbol"@),
        is_attribute_name("target"@),
        is_attribute_name("version"@),
        "id"@.len() == 2,
        "name"@.len() == 4,
        "type"@.len() == 4,
        "name"@ != "type"@,
        "texture"@.len() == 7,
        "texcoord"@.len() == 8,
        "count"@.len() == 5,
        "source"@.len() == 6,
        "stride"@.len() == 6,
        "source"@ != "stride"@,
        "semantic"@.len() == 8,
        "offset"@.len() == 6,
        "source"@ != "offset"@,
        "set"@.len() == 3,
        "material"@.len() == 8,
        "symbol"@ != "target"@,
{
    reveal_strlit("xmlns");
    reveal_strlit("id");
    reveal_strlit("name");
    reveal_strlit("sid");
    reveal_strlit("type");
    reveal_strlit("texture");
    reveal_strlit("texcoord");
    reveal_strlit("url");
    reveal_strlit("count");
    reveal_strlit("source");
    reveal_strlit("stride");
    reveal_strlit("semantic");
    reveal_strlit("offset");
    reveal_strlit("set");
    reveal_strlit("material");
    reveal_strlit("symbol");
    reveal_strlit("target");
    reveal_strlit("version");
    assert("count"@[0] != "xmlns"@[0]);
    assert("name"@[0] != "type"@[0]);
    assert("source"@[1] != "stride"@[1]);
    assert("source"@[0] != "offset"@[0]);
    assert("symbol"@[0] != "target"@[0]);
}

/// The words in attributes and texts are plain.
proof fn values_are_plain()
    ensures
        element::is_legal_text("img_"@),
        element::is_legal_text("surface_"@),
        element::is_legal_text("sampler_"@),
        element::is_legal_text("effect_"@),
        element::is_legal_text("mesh_"@),
        element::is_legal_text("node_"@),
        element::is_legal_text("material_"@),
        element::is_legal_text("2D"@),
        element::is_legal_text("UVMap"@),
        element::is_legal_text("common"@),
        element::is_legal_text("float"@),
        element::is_legal_text("X"@),
        element::is_legal_text("Y"@),
        element::is_legal_text("Z"@),
        element::is_legal_text("S"@),
        element::is_legal_text("T"@),
        element::is_legal_text("0"@),
        element::is_legal_text("NODE"@),
        element::is_legal_text("Scene"@),
        element::is_legal_text("1.4.1"@),
        element::is_legal_text("Z_UP"@),
        element::is_legal_text("-array"@),
        element::is_legal_text("-positions"@),
        element::is_legal_text("-normals"@),
        element::is_legal_text("-texcoords"@),
        element::is_legal_text("-vertices"@),
        element::is_legal_text("POSITION"@),
        element::is_legal_text("VERTEX"@),
        element::is_legal_text("NORMAL"@),
        element::is_legal_text("TEXCOORD"@),
{
    reveal_strlit("img_");
    reveal_strlit("surface_");
    reveal_strlit("sampler_");
    reveal_strlit("effect_");
    reveal_strlit("mesh_");
    reveal_strlit("node_");
    reveal_strlit("material_");
    reveal_strlit("2D");
    reveal_strlit("UVMap");
    reveal_strlit("common");
    reveal_strlit("float");
    reveal_strlit("X");
    reveal_strlit("Y");
    reveal_strlit("Z");
    reveal_strlit("S");
    reveal_strlit("T");
    reveal_strlit("0");
    reveal_strlit("NODE");
    reveal_strlit("Scene");
    reveal_strlit("1.4.1");
    reveal_strlit("Z_UP");
    reveal_strlit("-array");
    reveal_strlit("-positions");
    reveal_strlit("-normals");
    reveal_strlit("-texcoords");
    reveal_strlit("-vertices");
    reveal_strlit("POSITION");
    reveal_strlit("VERTEX");
    reveal_strlit("NORMAL");
    reveal_strlit("TEXCOORD");
}

// ── Looks ──

proof fn image_is_plain(mi: int, tex: Seq<char>)
    requires
        mi >= 0,
    ensures
        element::is_plain(dae_tree::image(mi, tex)),
{
    tags_are_names();
    attribute_names_are_names();
    values_are_plain();
    numbered_is_plain("img_"@, mi);
    element::cleaning_keeps_what_is_legal(tex);
    leaf_is_plain("init_from"@, element::cleaned(tex));
    let e = dae_tree::image(mi, tex);
    assert("id"@.len() != "name"@.len());
    indented_is_plain("image"@, e.attributes, e.children, 2);
}

proof fn surface_is_plain(mi: int)
    requires
        mi >= 0,
    ensures
        element::is_plain(dae_tree::surface(mi)),
{
    tags_are_names();
    attribute_names_are_names();
    values_are_plain();
    numbered_is_plain("img_"@, mi);
    numbered_is_plain("surface_"@, mi);
    leaf_is_plain("init_from"@, dae_tree::numbered("img_"@, mi));
    let e = dae_tree::surface(mi);
    let x = e.children[0];
    inline_is_plain("surface"@, x.attributes, x.children);
    inline_is_plain("newparam"@, e.attributes, e.children);
}

proof fn sampler_is_plain(mi: int)
    requires
        mi >= 0,
    ensures
        element::is_plain(dae_tree::sampler(mi)),
{
    tags_are_names();
    attribute_names_are_names();
    values_are_plain();
    numbered_is_plain("surface_"@, mi);
    numbered_is_plain("sampler_"@, mi);
    leaf_is_plain("source"@, dae_tree::numbered("surface_"@, mi));
    let e = dae_tree::sampler(mi);
    let x = e.children[0];
    inline_is_plain("sampler2D"@, x.attributes, x.children);
    inline_is_plain("newparam"@, e.attributes, e.children);
}

proof fn triple_is_legal<K: RealText>(k: &K, x: Real, y: Real, z: Real, t: Seq<char>)
    requires
        dae_numbers::prints_plainly(k),
        dae_text::is_triple(k, x, y, z, t),
    ensures
        element::is_legal_text(t),
        t.len() > 0,
{
    let (a, b, c) = choose|a: Seq<char>, b: Seq<char>, c: Seq<char>|
        #[trigger] dae_text::is_text(k, x, a) && #[trigger] dae_text::is_text(k, y, b) && #[trigger] dae_text::is_text(
            k,
            z,
            c,
        ) && t == a + " "@ + b + " "@ + c;
    dae_numbers::text_is_word(k, x, a);
    dae_numbers::text_is_word(k, y, b);
    dae_numbers::text_is_word(k, z, c);
    blanks_are_legal();
    legal_join(a, " "@);
    legal_join(a + " "@, b);
    legal_join(a + " "@ + b, " "@);
    legal_join(a + " "@ + b + " "@, c);
}

proof fn pair_is_legal<K: RealText>(k: &K, x: Real, y: Real, t: Seq<char>)
    requires
        dae_numbers::prints_plainly(k),
        dae_text::is_pair(k, x, y, t),
    ensures
        element::is_legal_text(t),
        t.len() > 0,
{
    let (a, b) = choose|a: Seq<char>, b: Seq<char>|
        #[trigger] dae_text::is_text(k, x, a) && #[trigger] dae_text::is_text(k, y, b) && t == a + " "@ + b;
    dae_numbers::text_is_word(k, x, a);
    dae_numbers::text_is_word(k, y, b);
    blanks_are_legal();
    legal_join(a, " "@);
    legal_join(a + " "@, b);
}

proof fn colour_is_plain<K: RealText>(k: &K, tag: Seq<char>, c: [Real; 4], t: Seq<char>)
    requires
        dae_numbers::prints_plainly(k),
        dae_text::is_colour(k, c, t),
        element::is_name(tag),
    ensures
        element::is_plain(dae_tree::colour(tag, t)),
{
    let (u, a) = choose|u: Seq<char>, a: Seq<char>|
        #[trigger] dae_text::is_triple(k, c[0], c[1], c[2], u) && #[trigger] dae_text::is_text(k, c[3], a) && t == u
            + " "@ + a;
    triple_is_legal(k, c[0], c[1], c[2], u);
    dae_numbers::text_is_word(k, c[3], a);
    blanks_are_legal();
    legal_join(u, " "@);
    legal_join(u + " "@, a);
    tags_are_names();
    leaf_is_plain("color"@, t);
    let e = dae_tree::colour(tag, t);
    inline_is_plain(tag, e.attributes, e.children);
}

proof fn effect_is_plain<K: RealText>(k: &K, mi: int, m: MaterialView, t: MaterialText)
    requires
        dae_numbers::prints_plainly(k),
        dae_text::is_material_text(k, m, t),
        mi >= 0,
    ensures
        element::is_plain(dae_tree::effect(mi, m, t)),
{
    tags_are_names();
    attribute_names_are_names();
    values_are_plain();
    colour_is_plain(k, "emission"@, m.emission, t.emission@);
    colour_is_plain(k, "ambient"@, m.ambient, t.ambient@);
    colour_is_plain(k, "specular"@, m.specular, t.specular@);
    let d = dae_tree::diffuse(mi, m, t);
    if m.texture_diffuse is Some {
        numbered_is_plain("sampler_"@, mi);
        assert("texture"@.len() != "texcoord"@.len());
        stub_is_plain("texture"@, d.children[0].attributes);
        inline_is_plain("diffuse"@, d.attributes, d.children);
        surface_is_plain(mi);
        sampler_is_plain(mi);
    } else {
        colour_is_plain(k, "diffuse"@, m.diffuse, t.diffuse@);
    }
    dae_numbers::text_is_word(k, m.shininess, t.shininess@);
    leaf_is_plain("float"@, t.shininess@);
    let s = dae_tree::shininess(t.shininess@);
    inline_is_plain("shininess"@, s.attributes, s.children);
    let p = dae_tree::phong(mi, m, t);
    assert forall|c: int| 0 <= c < p.children.len() implies element::is_plain(#[trigger] p.children[c]) by {}
    indented_is_plain("phong"@, p.attributes, p.children, 5);
    let q = dae_tree::technique(mi, m, t);
    indented_is_plain("technique"@, q.attributes, q.children, 4);
    let r = dae_tree::profile(mi, m, t);
    assert forall|c: int| 0 <= c < r.children.len() implies element::is_plain(#[trigger] r.children[c]) by {}
    indented_is_plain("profile_COMMON"@, r.attributes, r.children, 3);
    numbered_is_plain("effect_"@, mi);
    let e = dae_tree::effect(mi, m, t);
    indented_is_plain("effect"@, e.attributes, e.children, 2);
}

proof fn material_is_plain(mi: int, name: Seq<char>)
    requires
        mi >= 0,
        element::is_legal_text(name),
    ensures
        element::is_plain(dae_tree::material(mi, name)),
{
    more_tags_are_names();
    attribute_names_are_names();
    values_are_plain();
    numbered_is_plain("effect_"@, mi);
    link_is_plain(dae_tree::numbered("effect_"@, mi));
    let e = dae_tree::material(mi, name);
    stub_is_plain("instance_effect"@, e.children[0].attributes);
    assert("id"@.len() != "name"@.len());
    inline_is_plain("material"@, e.attributes, e.children);
}

// ── Shapes ──

proof fn param_is_plain(name: Seq<char>)
    requires
        element::is_legal_text(name),
    ensures
        element::is_plain(dae_tree::param(name)),
{
    more_tags_are_names();
    attribute_names_are_names();
    values_are_plain();
    stub_is_plain("param"@, dae_tree::param(name).attributes);
}

proof fn source_is_plain(id: Seq<char>, total: int, content: Seq<char>, count: int, params: Seq<Element>)
    requires
        element::is_legal_text(id),
        total >= 0,
        count >= 0,
        element::is_legal_text(content),
        forall|c: int| 0 <= c < params.len() ==> element::is_plain(#[trigger] params[c]),
    ensures
        element::is_plain(dae_tree::source(id, total, content, count, params)),
{
    more_tags_are_names();
    attribute_names_are_names();
    values_are_plain();
    decimal_is_legal(total);
    decimal_is_legal(count);
    decimal_is_legal(params.len() as int);
    legal_join(id, "-array"@);
    link_is_plain(id + "-array"@);
    lines_are_gaps(6);
    lines_are_gaps(5);
    legal_join(dae_tree::line(6), content);
    legal_join(dae_tree::line(6) + content, dae_tree::line(5));
    let e = dae_tree::source(id, total, content, count, params);
    let a = dae_tree::float_array(id, total, content);
    assert("id"@.len() != "count"@.len());
    assert(element::are_plain(a.attributes));
    assert(element::is_plain(a));
    let b = dae_tree::accessor(id, count, params);
    assert("source"@.len() != "count"@.len());
    assert("stride"@.len() != "count"@.len());
    assert(element::are_plain(b.attributes));
    boxed_is_plain("accessor"@, b.attributes, params, 6);
    let c = e.children[1];
    assert(c.children[0] == b);
    indented_is_plain("technique_common"@, c.attributes, c.children, 5);
    assert(e.children[0] == a);
    indented_is_plain("source"@, e.attributes, e.children, 4);
}

proof fn rows_are_legal(texts: Seq<String>, n: int)
    requires
        0 <= n <= texts.len(),
        forall|i: int| 0 <= i < n ==> element::is_legal_text((#[trigger] texts[i])@),
    ensures
        element::is_legal_text(dae_text::rows(texts, n)),
    decreases n,
{
    if n > 1 {
        rows_are_legal(texts, n - 1);
        blanks_are_legal();
        legal_join(dae_text::rows(texts, n - 1), " "@);
        legal_join(dae_text::rows(texts, n - 1) + " "@, texts[n - 1]@);
    }
}

proof fn corners_are_legal(tris: Seq<[u32; 3]>, n: int, normals: bool, texcoords: bool)
    requires
        0 <= n <= 3 * tris.len(),
    ensures
        element::is_legal_text(dae_text::corners_text(tris, n, normals, texcoords)),
        n > 0 ==> dae_text::corners_text(tris, n, normals, texcoords).len() > 0,
    decreases n,
{
    if n > 0 {
        corners_are_legal(tris, n - 1, normals, texcoords);
        blanks_are_legal();
        let before = dae_text::corners_text(tris, n - 1, normals, texcoords);
        legal_join(before, " "@);
        legal_join(before, "  "@);
        let v = tris[(n - 1) / 3][(n - 1) % 3] as int;
        let a = text::dec(v);
        decimal_is_legal(v);
        legal_join(a, " "@);
        legal_join(a + " "@, a);
        let b = if normals {
            a + " "@ + a
        } else {
            a
        };
        legal_join(b, " "@);
        legal_join(b + " "@, a);
        let spaced = if n == 1 {
            before
        } else if (n - 1) % 3 == 0 {
            before + "  "@
        } else {
            before + " "@
        };
        legal_join(spaced, dae_text::corner_text(v, normals, texcoords));
    }
}

proof fn inputs_are_plain(id: Seq<char>, m: MeshView)
    requires
        element::is_legal_text(id),
    ensures
        forall|c: int|
            0 <= c < dae_tree::inputs(id, m).len() ==> element::is_plain(#[trigger] dae_tree::inputs(id, m)[c]),
{
    more_tags_are_names();
    attribute_names_are_names();
    values_are_plain();
    decimal_is_legal(1);
    decimal_is_legal(2);
    legal_join(id, "-vertices"@);
    legal_join(id, "-normals"@);
    legal_join(id, "-texcoords"@);
    link_is_plain(id + "-vertices"@);
    link_is_plain(id + "-normals"@);
    link_is_plain(id + "-texcoords"@);
    assert("semantic"@.len() != "source"@.len());
    assert("semantic"@.len() != "offset"@.len());
    assert("semantic"@.len() != "set"@.len());
    assert("source"@.len() != "set"@.len());
    assert("offset"@.len() != "set"@.len());
    stub_is_plain("input"@, dae_tree::vertex_input(id).attributes);
    stub_is_plain("input"@, dae_tree::normal_input(id).attributes);
    stub_is_plain("input"@, dae_tree::texcoord_input(id, 1).attributes);
    stub_is_plain("input"@, dae_tree::texcoord_input(id, 2).attributes);
}

proof fn triangles_are_plain(id: Seq<char>, m: MeshView, run: Run)
    requires
        element::is_legal_text(id),
        0 <= run.start <= m.indices.len(),
        0 <= run.count,
        run.material matches Some(name) ==> element::is_legal_text(name),
    ensures
        element::is_plain(dae_tree::triangles(id, m, run)),
{
    more_tags_are_names();
    attribute_names_are_names();
    inputs_are_plain(id, m);
    decimal_is_legal(run.count);
    let end = dae_text::run_end(m, run.start, run.count);
    corners_are_legal(
        m.indices.subrange(run.start, end),
        3 * (end - run.start),
        m.vertex_normals.len() > 0,
        m.texcoords.len() > 0,
    );
    let p = dae_tree::corners(m, run);
    leaf_is_plain("p"@, p);
    let e = dae_tree::triangles(id, m, run);
    assert("count"@.len() != "material"@.len());
    assert(element::are_plain(e.attributes));
    assert forall|c: int| 0 <= c < e.children.len() implies element::is_plain(#[trigger] e.children[c]) by {
        if c < e.children.len() - 1 {
            assert(e.children[c] == dae_tree::inputs(id, m)[c]);
        }
    }
    indented_is_plain("triangles"@, e.attributes, e.children, 4);
}

proof fn geometry_is_plain<K: RealText>(k: &K, id: Seq<char>, m: MeshView, t: NumberTexts, run: Run)
    requires
        dae_numbers::prints_plainly(k),
        dae_text::is_mesh_text(k, m, t),
        element::is_legal_text(id),
        0 <= run.start <= m.indices.len(),
        0 <= run.count,
        run.material matches Some(name) ==> element::is_legal_text(name),
    ensures
        element::is_plain(dae_tree::geometry(id, m, t, run)),
{
    more_tags_are_names();
    attribute_names_are_names();
    values_are_plain();
    param_is_plain("X"@);
    param_is_plain("Y"@);
    param_is_plain("Z"@);
    param_is_plain("S"@);
    param_is_plain("T"@);
    let xyz = seq![dae_tree::param("X"@), dae_tree::param("Y"@), dae_tree::param("Z"@)];
    let st = seq![dae_tree::param("S"@), dae_tree::param("T"@)];
    assert forall|i: int| 0 <= i < t.vertices@.len() implies element::is_legal_text((#[trigger] t.vertices@[i])@) by {
        triple_is_legal(k, m.vertices[i].x, m.vertices[i].y, m.vertices[i].z, t.vertices@[i]@);
    }
    let w = dae_text::written_normals(m);
    assert forall|i: int| 0 <= i < t.normals@.len() implies element::is_legal_text((#[trigger] t.normals@[i])@) by {
        triple_is_legal(k, w[i].x, w[i].y, w[i].z, t.normals@[i]@);
    }
    assert forall|i: int| 0 <= i < t.texcoords@.len() implies element::is_legal_text((#[trigger] t.texcoords@[i])@) by {
        pair_is_legal(k, m.texcoords[i].x, m.texcoords[i].y, t.texcoords@[i]@);
    }
    rows_are_legal(t.vertices@, t.vertices@.len() as int);
    rows_are_legal(t.normals@, t.normals@.len() as int);
    rows_are_legal(t.texcoords@, t.texcoords@.len() as int);
    legal_join(id, "-positions"@);
    legal_join(id, "-normals"@);
    legal_join(id, "-texcoords"@);
    legal_join(id, "-vertices"@);
    let v = m.vertices.len() as int;
    let n = t.normals@.len() as int;
    let u = m.texcoords.len() as int;
    source_is_plain(id + "-positions"@, 3 * v, dae_text::rows(t.vertices@, v), v, xyz);
    source_is_plain(id + "-normals"@, 3 * n, dae_text::rows(t.normals@, n), n, xyz);
    source_is_plain(id + "-texcoords"@, 2 * u, dae_text::rows(t.texcoords@, u), u, st);
    link_is_plain(id + "-positions"@);
    let x = dae_tree::vertices(id);
    assert("semantic"@.len() != "source"@.len());
    stub_is_plain("input"@, x.children[0].attributes);
    indented_is_plain("vertices"@, x.attributes, x.children, 4);
    triangles_are_plain(id, m, run);
    let y = dae_tree::mesh(id, m, t, run);
    assert forall|c: int| 0 <= c < y.children.len() implies element::is_plain(#[trigger] y.children[c]) by {}
    indented_is_plain("mesh"@, y.attributes, y.children, 3);
    let e = dae_tree::geometry(id, m, t, run);
    assert("id"@.len() != "name"@.len());
    indented_is_plain("geometry"@, e.attributes, e.children, 2);
}

// ── Scene ──

proof fn scene_node_is_plain(i: int, run: Run)
    requires
        i >= 0,
        run.material matches Some(name) ==> element::is_legal_text(name),
    ensures
        element::is_plain(dae_tree::scene_node(i, run)),
{
    more_tags_are_names();
    attribute_names_are_names();
    values_are_plain();
    numbered_is_plain("mesh_"@, i);
    numbered_is_plain("node_"@, i);
    link_is_plain(dae_tree::numbered("mesh_"@, i));
    if run.material is Some {
        let name = run.material->0;
        link_is_plain(name);
        let b = dae_tree::binding(name);
        let c = b.children[0];
        stub_is_plain("instance_material"@, c.children[0].attributes);
        indented_is_plain("technique_common"@, c.attributes, c.children, 5);
        inline_is_plain("bind_material"@, b.attributes, b.children);
    }
    let x = dae_tree::instance(i, run);
    indented_is_plain("instance_geometry"@, x.attributes, x.children, 4);
    let e = dae_tree::scene_node(i, run);
    assert("id"@.len() != "name"@.len());
    assert("id"@.len() != "type"@.len());
    indented_is_plain("node"@, e.attributes, e.children, 3);
}

// ── Document ──

proof fn name_is_legal(materials: Seq<MaterialView>, mi: int)
    requires
        0 <= mi,
    ensures
        element::is_legal_text(dae_text::material_name(materials, mi)),
{
    values_are_plain();
    decimal_is_legal(mi);
    legal_join("material_"@, text::dec(mi));
    if mi < materials.len() {
        element::cleaning_keeps_what_is_legal(materials[mi].name);
    }
}

/// The document of a mesh can be written.
pub proof fn document_is_plain<K: RealText>(k: &K, m: MeshView, t: NumberTexts)
    requires
        dae_numbers::prints_plainly(k),
        dae_text::is_mesh_text(k, m, t),
        dae_text::writable(m),
    ensures
        element::is_plain(dae_tree::document_tree(m, t)),
{
    tags_are_names();
    more_tags_are_names();
    attribute_names_are_names();
    values_are_plain();
    leaf_is_plain("up_axis"@, "Z_UP"@);
    let a = dae_tree::asset();
    indented_is_plain("asset"@, a.attributes, a.children, 1);
    let b = dae_tree::library_images(m);
    crate::dae_looks::textures_are(m.materials, m.materials.len() as int);
    let x = dae_tree::textures(m.materials, m.materials.len() as int);
    assert forall|c: int| 0 <= c < b.children.len() implies element::is_plain(#[trigger] b.children[c]) by {
        assert(0 <= x[c] < m.materials.len() && m.materials[x[c]].texture_diffuse is Some);
        image_is_plain(x[c], m.materials[x[c]].texture_diffuse->0);
    }
    indented_is_plain("library_images"@, b.attributes, b.children, 1);
    let d = dae_tree::library_effects(m, t);
    assert forall|c: int| 0 <= c < d.children.len() implies element::is_plain(#[trigger] d.children[c]) by {
        assert(dae_text::is_material_text(k, m.materials[c], t.materials@[c]));
        effect_is_plain(k, c, m.materials[c], t.materials@[c]);
    }
    indented_is_plain("library_effects"@, d.attributes, d.children, 1);
    let f = dae_tree::library_materials(m);
    assert forall|c: int| 0 <= c < f.children.len() implies element::is_plain(#[trigger] f.children[c]) by {
        name_is_legal(m.materials, c);
        material_is_plain(c, dae_text::material_name(m.materials, c));
    }
    indented_is_plain("library_materials"@, f.attributes, f.children, 1);
    let runs = dae_tree::runs(m);
    assert forall|i: int| 0 <= i < runs.len() implies 0 <= (#[trigger] runs[i]).start <= m.indices.len()
        && runs[i].count >= 0 && (runs[i].material matches Some(name) ==> element::is_legal_text(name)) by {
        if m.submeshes.len() > 0 && m.submeshes[i].material_index is Some {
            name_is_legal(m.materials, m.submeshes[i].material_index->0 as int);
        }
    }
    let g = dae_tree::library_geometries(m, t);
    assert forall|c: int| 0 <= c < g.children.len() implies element::is_plain(#[trigger] g.children[c]) by {
        numbered_is_plain("mesh_"@, c);
        assert(runs[c].start >= 0);
        geometry_is_plain(k, dae_text::mesh_id(c), m, t, runs[c]);
    }
    indented_is_plain("library_geometries"@, g.attributes, g.children, 1);
    let v = dae_tree::visual_scene(m);
    assert forall|c: int| 0 <= c < v.children.len() implies element::is_plain(#[trigger] v.children[c]) by {
        assert(runs[c].start >= 0);
        scene_node_is_plain(c, runs[c]);
    }
    assert("id"@.len() != "name"@.len());
    indented_is_plain("visual_scene"@, v.attributes, v.children, 2);
    let w = dae_tree::scenes(m);
    indented_is_plain("library_visual_scenes"@, w.attributes, w.children, 1);
    link_is_plain("Scene"@);
    let y = dae_tree::scene();
    stub_is_plain("instance_visual_scene"@, y.children[0].attributes);
    inline_is_plain("scene"@, y.attributes, y.children);
    let e = dae_tree::document_tree(m, t);
    assert forall|c: int| 0 <= c < e.children.len() implies element::is_plain(#[trigger] e.children[c]) by {}
    indented_is_plain("COLLADA"@, e.attributes, e.children, 0);
}

} // verus!
