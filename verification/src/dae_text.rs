//! The text of Collada documents.

use vstd::prelude::*;
use crate::dae_tree;
use crate::element;
use crate::markup;
use crate::text;
use crate::markup::{attributes_text, clean, element_text, full_leaf_text, inner_text, joined_text, leaf_text, line_text, link_text, no_attributes, no_texts, numbered_text, one_attribute, one_text, stub_text, with_attribute, with_text, wrap, Layout};
use crate::mesh::{Material, MaterialView, MeshData, MeshView};
use crate::number::{Real, Vector3};
use crate::numerics::RealText;
use crate::text::decimal;

verus! {

/// The namespace of Collada.
pub const NAMESPACE: &'static str = "http://www.collada.org/2005/11/COLLADASchema";

/// Decimal texts of the numbers in a mesh.
pub struct NumberTexts {
    /// Coordinates of each vertex.
    pub vertices: Vec<String>,
    /// Coordinates of each normal.
    pub normals: Vec<String>,
    /// Coordinates of each texture point.
    pub texcoords: Vec<String>,
    /// Emission, ambient, diffuse and specular colour and shininess of each material.
    pub materials: Vec<MaterialText>,
}

/// Decimal texts of the numbers in a material.
pub struct MaterialText {
    pub emission: String,
    pub ambient: String,
    pub diffuse: String,
    pub specular: String,
    pub shininess: String,
}

/// Whether `t` is a decimal text of `x`.
pub open spec fn is_text<K: RealText>(k: &K, x: Real, t: Seq<char>) -> bool {
    exists|s: String| #[trigger] call_ensures(K::format, (k, x), s) && s@ == t
}

/// Whether `t` lists decimal texts of two numbers.
pub open spec fn is_pair<K: RealText>(k: &K, x: Real, y: Real, t: Seq<char>) -> bool {
    exists|a: Seq<char>, b: Seq<char>|
        #[trigger] is_text(k, x, a) && #[trigger] is_text(k, y, b) && t == a + " "@ + b
}

/// Whether `t` lists decimal texts of three numbers.
pub open spec fn is_triple<K: RealText>(k: &K, x: Real, y: Real, z: Real, t: Seq<char>) -> bool {
    exists|a: Seq<char>, b: Seq<char>, c: Seq<char>|
        #[trigger] is_text(k, x, a) && #[trigger] is_text(k, y, b) && #[trigger] is_text(k, z, c) && t
            == a + " "@ + b + " "@ + c
}

/// Whether `t` lists decimal texts of a colour.
pub open spec fn is_colour<K: RealText>(k: &K, c: [Real; 4], t: Seq<char>) -> bool {
    exists|u: Seq<char>, a: Seq<char>|
        #[trigger] is_triple(k, c[0], c[1], c[2], u) && #[trigger] is_text(k, c[3], a) && t == u + " "@
            + a
}

fn pair_text<K: RealText>(k: &K, x: Real, y: Real) -> (t: String)
    ensures
        is_pair(k, x, y, t@),
{
    let mut t = k.format(x);
    let ghost a = t@;
    let b = k.format(y);
    assert(is_text(k, x, a) && is_text(k, y, b@));
    t.append(" ");
    t.append(b.as_str());
    t
}

fn triple_text<K: RealText>(k: &K, x: Real, y: Real, z: Real) -> (t: String)
    ensures
        is_triple(k, x, y, z, t@),
{
    let mut t = k.format(x);
    let ghost a = t@;
    let b = k.format(y);
    let c = k.format(z);
    assert(is_text(k, x, a) && is_text(k, y, b@) && is_text(k, z, c@));
    t.append(" ");
    t.append(b.as_str());
    t.append(" ");
    t.append(c.as_str());
    t
}

fn colour_text<K: RealText>(k: &K, c: [Real; 4]) -> (t: String)
    ensures
        is_colour(k, c, t@),
{
    let mut t = triple_text(k, c[0], c[1], c[2]);
    let ghost u = t@;
    let a = k.format(c[3]);
    assert(is_triple(k, c[0], c[1], c[2], u) && is_text(k, c[3], a@));
    t.append(" ");
    t.append(a.as_str());
    t
}

/// Whether `t` holds decimal texts of the numbers in a material.
pub open spec fn is_material_text<K: RealText>(k: &K, m: MaterialView, t: MaterialText) -> bool {
    &&& is_colour(k, m.emission, t.emission@)
    &&& is_colour(k, m.ambient, t.ambient@)
    &&& is_colour(k, m.diffuse, t.diffuse@)
    &&& is_colour(k, m.specular, t.specular@)
    &&& is_text(k, m.shininess, t.shininess@)
}

/// The normals that are written: those of the vertices, or of the triangles where
/// vertices have none.
pub open spec fn written_normals(m: MeshView) -> Seq<Vector3> {
    if m.vertex_normals.len() > 0 {
        m.vertex_normals
    } else {
        m.face_normals
    }
}

/// Whether `t` holds decimal texts of the numbers in a mesh.
pub open spec fn is_mesh_text<K: RealText>(k: &K, m: MeshView, t: NumberTexts) -> bool {
    &&& t.vertices@.len() == m.vertices.len()
    &&& forall|i: int|
        0 <= i < m.vertices.len() ==> is_triple(
            k,
            m.vertices[i].x,
            m.vertices[i].y,
            m.vertices[i].z,
            (#[trigger] t.vertices@[i])@,
        )
    &&& t.normals@.len() == written_normals(m).len()
    &&& forall|i: int|
        0 <= i < written_normals(m).len() ==> is_triple(
            k,
            written_normals(m)[i].x,
            written_normals(m)[i].y,
            written_normals(m)[i].z,
            (#[trigger] t.normals@[i])@,
        )
    &&& t.texcoords@.len() == m.texcoords.len()
    &&& forall|i: int|
        0 <= i < m.texcoords.len() ==> is_pair(
            k,
            m.texcoords[i].x,
            m.texcoords[i].y,
            (#[trigger] t.texcoords@[i])@,
        )
    &&& t.materials@.len() == m.materials.len()
    &&& forall|i: int|
        0 <= i < m.materials.len() ==> is_material_text(k, m.materials[i], #[trigger] t.materials@[i])
}

/// Writes the numbers of a mesh in decimal.
pub fn number_texts<K: RealText>(k: &K, m: &MeshData) -> (t: NumberTexts)
    ensures
        is_mesh_text(k, m@, t),
{
    let mut vertices: Vec<String> = Vec::new();
    for i in 0..m.vertices.len()
        invariant
            vertices@.len() == i,
            forall|j: int|
                0 <= j < i ==> is_triple(
                    k,
                    m@.vertices[j].x,
                    m@.vertices[j].y,
                    m@.vertices[j].z,
                    (#[trigger] vertices@[j])@,
                ),
    {
        let p = m.vertices[i];
        vertices.push(triple_text(k, p.x, p.y, p.z));
    }
    let from = if m.vertex_normals.len() > 0 { &m.vertex_normals } else { &m.face_normals };
    let mut normals: Vec<String> = Vec::new();
    for i in 0..from.len()
        invariant
            from@ == written_normals(m@),
            normals@.len() == i,
            forall|j: int|
                0 <= j < i ==> is_triple(
                    k,
                    written_normals(m@)[j].x,
                    written_normals(m@)[j].y,
                    written_normals(m@)[j].z,
                    (#[trigger] normals@[j])@,
                ),
    {
        let p = from[i];
        normals.push(triple_text(k, p.x, p.y, p.z));
    }
    let mut texcoords: Vec<String> = Vec::new();
    for i in 0..m.texcoords.len()
        invariant
            texcoords@.len() == i,
            forall|j: int|
                0 <= j < i ==> is_pair(
                    k,
                    m@.texcoords[j].x,
                    m@.texcoords[j].y,
                    (#[trigger] texcoords@[j])@,
                ),
    {
        let p = m.texcoords[i];
        texcoords.push(pair_text(k, p.x, p.y));
    }
    let mut materials: Vec<MaterialText> = Vec::new();
    for i in 0..m.materials.len()
        invariant
            materials@.len() == i,
            forall|j: int|
                0 <= j < i ==> is_material_text(k, m@.materials[j], #[trigger] materials@[j]),
    {
        let x = &m.materials[i];
        let t = MaterialText {
            emission: colour_text(k, x.emission),
            ambient: colour_text(k, x.ambient),
            diffuse: colour_text(k, x.diffuse),
            specular: colour_text(k, x.specular),
            shininess: k.format(x.shininess),
        };
        assert(is_text(k, x.shininess, t.shininess@));
        materials.push(t);
    }
    NumberTexts { vertices, normals, texcoords, materials }
}

/// The name of a material without one.
pub open spec fn fallback_name(mi: int) -> Seq<char> {
    "material_"@
        + text::dec(mi)
}

fn fallback_name_text(mi: usize) -> (t: String)
    ensures
        t@ == fallback_name(mi as int),
{
    let mi_text = decimal(mi);
    let mut t = "material_".to_owned();
    t.append(mi_text.as_str());
    t
}

/// The name under which a material is written: its own, or one made of its number.
pub open spec fn material_name(materials: Seq<MaterialView>, mi: int) -> Seq<char> {
    if mi < materials.len() && materials[mi].name.len() > 0 {
        element::cleaned(materials[mi].name)
    } else {
        fallback_name(mi)
    }
}

fn material_name_text(m: &MeshData, mi: usize) -> (r: String)
    ensures
        r@ == material_name(m@.materials, mi as int),
{
    if mi < m.materials.len() && m.materials[mi].name.as_str().unicode_len() > 0 {
        clean(m.materials[mi].name.as_str())
    } else {
        fallback_name_text(mi)
    }
}

/// The first `n` rows, separated by blanks.
pub open spec fn rows(texts: Seq<String>, n: int) -> Seq<char>
    decreases n,
{
    if n <= 0 {
        Seq::empty()
    } else if n == 1 {
        texts[0]@
    } else {
        rows(texts, n - 1) + " "@ + texts[n - 1]@
    }
}

fn rows_text(texts: &Vec<String>) -> (r: String)
    ensures
        r@ == rows(texts@, texts@.len() as int),
{
    if texts.len() == 0 {
        let r = String::new();
        assert(r@ =~= Seq::<char>::empty());
        return r;
    }
    let mut r = texts[0].clone();
    for i in 1..texts.len()
        invariant
            texts@.len() > 0,
            r@ == rows(texts@, i as int),
    {
        r.append(" ");
        r.append(texts[i].as_str());
    }
    r
}

/// The indices of a corner: one for the position and one for each further list.
pub open spec fn corner_text(v: int, normals: bool, texcoords: bool) -> Seq<char> {
    let a = text::dec(v);
    let b = if normals {
        a + " "@ + text::dec(v)
    } else {
        a
    };
    if texcoords {
        b + " "@ + text::dec(v)
    } else {
        b
    }
}

fn write_corner(v: u32, normals: bool, texcoords: bool) -> (r: String)
    ensures
        r@ == corner_text(v as int, normals, texcoords),
{
    let d = decimal(v as usize);
    let mut r = d.clone();
    if normals {
        r.append(" ");
        r.append(d.as_str());
    }
    if texcoords {
        r.append(" ");
        r.append(d.as_str());
    }
    r
}

/// The first `n` corners of a list of triangles: one blank between the corners of
/// a triangle, two between triangles.
pub open spec fn corners_text(tris: Seq<[u32; 3]>, n: int, normals: bool, texcoords: bool) -> Seq<char>
    decreases n,
{
    if n <= 0 {
        Seq::empty()
    } else {
        let before = corners_text(tris, n - 1, normals, texcoords);
        let spaced = if n == 1 {
            before
        } else if (n - 1) % 3 == 0 {
            before + "  "@
        } else {
            before + " "@
        };
        spaced + corner_text(tris[(n - 1) / 3][(n - 1) % 3] as int, normals, texcoords)
    }
}

fn write_corners(
    tris: &Vec<[u32; 3]>,
    start: usize,
    end: usize,
    normals: bool,
    texcoords: bool,
) -> (r: String)
    requires
        start <= end <= tris@.len(),
    ensures
        r@ == corners_text(
            tris@.subrange(start as int, end as int),
            3 * (end - start),
            normals,
            texcoords,
        ),
{
    let mut r = String::new();
    let ghost part = tris@.subrange(start as int, end as int);
    assert(r@ =~= Seq::<char>::empty());
    for i in start..end
        invariant
            start <= end <= tris@.len(),
            part == tris@.subrange(start as int, end as int),
            r@ == corners_text(part, 3 * (i - start), normals, texcoords),
    {
        let t: [u32; 3] = tris[i];
        let ghost n = 3 * (i - start);
        if i > start {
            r.append("  ");
        }
        assert(part[i - start] == t);
        r.append(write_corner(t[0], normals, texcoords).as_str());
        assert(r@ == corners_text(part, n + 1, normals, texcoords));
        r.append(" ");
        r.append(write_corner(t[1], normals, texcoords).as_str());
        assert((n + 1) / 3 == i - start && (n + 1) % 3 == 1);
        assert(r@ == corners_text(part, n + 2, normals, texcoords));
        r.append(" ");
        r.append(write_corner(t[2], normals, texcoords).as_str());
        assert((n + 2) / 3 == i - start && (n + 2) % 3 == 2);
        assert(r@ == corners_text(part, n + 3, normals, texcoords));
    }
    r
}

/// Number of the triangle behind a run of triangles, no further than the last.
pub open spec fn run_end(m: MeshView, start: int, count: int) -> int {
    if start + count < m.indices.len() {
        start + count
    } else {
        m.indices.len() as int
    }
}

/// The id of a geometry.
pub open spec fn mesh_id(si: int) -> Seq<char> {
    "mesh_"@
        + text::dec(si)
}

fn mesh_id_text(si: usize) -> (t: String)
    ensures
        t@ == mesh_id(si as int),
{
    let si_text = decimal(si);
    let mut t = "mesh_".to_owned();
    t.append(si_text.as_str());
    t
}

/// Whether the sizes that are written fit a machine word.
pub open spec fn writable(m: MeshView) -> bool {
    &&& 3 * m.vertices.len() <= usize::MAX
    &&& 3 * m.vertex_normals.len() <= usize::MAX
    &&& 3 * m.face_normals.len() <= usize::MAX
    &&& 2 * m.texcoords.len() <= usize::MAX
    &&& forall|i: int|
        0 <= i < m.submeshes.len() ==> {
            let s = #[trigger] m.submeshes[i];
            s.tri_start <= m.indices.len() && s.tri_start + s.tri_count <= usize::MAX
        }
}

/// The material of a submesh.
pub open spec fn submesh_material(m: MeshView, si: int) -> Option<Seq<char>> {
    match m.submeshes[si].material_index {
        Some(mi) => Some(material_name(m.materials, mi as int)),
        None => None,
    }
}

/// The document of a mesh.
pub open spec fn document(m: MeshView, t: NumberTexts) -> Seq<char> {
    element::document_text(NAMESPACE@, dae_tree::document_tree(m, t))
}

// ── Looks ──

fn image_text(mi: usize, tex: &str) -> (r: String)
    ensures
        r@ == element::printed(dae_tree::image(mi as int, tex@)),
{
    let id = numbered_text("img_", mi);
    let a = with_attribute(one_attribute("id", id.clone()), "name", id);
    let c = one_text(leaf_text("init_from", clean(tex).as_str()));
    let ghost e = dae_tree::image(mi as int, tex@);
    proof {
        assert(markup::printed_all(e.children) =~= text::texts(c@));
        assert(markup::pairs(a@) =~= e.attributes);
    }
    element_text("image", &a, Layout::Indented(2), &c, Ghost(e.children))
}

fn surface_text(mi: usize) -> (r: String)
    ensures
        r@ == element::printed(dae_tree::surface(mi as int)),
{
    let ghost e = dae_tree::surface(mi as int);
    let ghost x = e.children[0];
    let id = numbered_text("img_", mi);
    let c = one_text(leaf_text("init_from", id.as_str()));
    assert(markup::printed_all(x.children) =~= text::texts(c@));
    let b = one_attribute("type", "2D".to_owned());
    let d = one_text(element_text("surface", &b, Layout::Inline, &c, Ghost(x.children)));
    assert(markup::printed_all(e.children) =~= text::texts(d@));
    let a = one_attribute("sid", numbered_text("surface_", mi));
    element_text("newparam", &a, Layout::Inline, &d, Ghost(e.children))
}

fn sampler_text(mi: usize) -> (r: String)
    ensures
        r@ == element::printed(dae_tree::sampler(mi as int)),
{
    let ghost e = dae_tree::sampler(mi as int);
    let ghost x = e.children[0];
    let id = numbered_text("surface_", mi);
    let c = one_text(leaf_text("source", id.as_str()));
    assert(markup::printed_all(x.children) =~= text::texts(c@));
    let b = no_attributes();
    let d = one_text(element_text("sampler2D", &b, Layout::Inline, &c, Ghost(x.children)));
    assert(markup::printed_all(e.children) =~= text::texts(d@));
    let a = one_attribute("sid", numbered_text("sampler_", mi));
    element_text("newparam", &a, Layout::Inline, &d, Ghost(e.children))
}

/// Writes a colour of a material.
pub fn write_color_element(tag: &str, c: &str) -> (r: String)
    ensures
        r@ == element::printed(dae_tree::colour(tag@, c@)),
{
    let ghost e = dae_tree::colour(tag@, c@);
    let x = one_text(leaf_text("color", c));
    assert(markup::printed_all(e.children) =~= text::texts(x@));
    element_text(tag, &no_attributes(), Layout::Inline, &x, Ghost(e.children))
}

fn shininess_text(c: &str) -> (r: String)
    ensures
        r@ == element::printed(dae_tree::shininess(c@)),
{
    let ghost e = dae_tree::shininess(c@);
    let x = one_text(leaf_text("float", c));
    assert(markup::printed_all(e.children) =~= text::texts(x@));
    element_text("shininess", &no_attributes(), Layout::Inline, &x, Ghost(e.children))
}

fn diffuse_text(mi: usize, m: &Material, t: &MaterialText) -> (r: String)
    ensures
        r@ == element::printed(dae_tree::diffuse(mi as int, m@, *t)),
{
    if m.texture_diffuse.is_some() {
        let ghost e = dae_tree::diffuse(mi as int, m@, *t);
        let a = with_attribute(
            one_attribute("texture", numbered_text("sampler_", mi)),
            "texcoord",
            "UVMap".to_owned(),
        );
        assert(markup::pairs(a@) =~= e.children[0].attributes);
        let x = one_text(stub_text("texture", &a));
        assert(markup::printed_all(e.children) =~= text::texts(x@));
        element_text("diffuse", &no_attributes(), Layout::Inline, &x, Ghost(e.children))
    } else {
        write_color_element("diffuse", t.diffuse.as_str())
    }
}

fn phong_text(mi: usize, m: &Material, t: &MaterialText) -> (r: String)
    ensures
        r@ == element::printed(dae_tree::phong(mi as int, m@, *t)),
{
    let ghost e = dae_tree::phong(mi as int, m@, *t);
    let c = one_text(write_color_element("emission", t.emission.as_str()));
    let c = with_text(c, write_color_element("ambient", t.ambient.as_str()));
    let c = with_text(c, diffuse_text(mi, m, t));
    let c = with_text(c, write_color_element("specular", t.specular.as_str()));
    let c = with_text(c, shininess_text(t.shininess.as_str()));
    assert(markup::printed_all(e.children) =~= text::texts(c@));
    element_text("phong", &no_attributes(), Layout::Indented(5), &c, Ghost(e.children))
}

fn effect_text(mi: usize, m: &Material, t: &MaterialText) -> (r: String)
    ensures
        r@ == element::printed(dae_tree::effect(mi as int, m@, *t)),
{
    let ghost e = dae_tree::effect(mi as int, m@, *t);
    let ghost p = dae_tree::profile(mi as int, m@, *t);
    let ghost q = dae_tree::technique(mi as int, m@, *t);
    let c = one_text(phong_text(mi, m, t));
    assert(markup::printed_all(q.children) =~= text::texts(c@));
    let a = one_attribute("sid", "common".to_owned());
    let technique = element_text("technique", &a, Layout::Indented(4), &c, Ghost(q.children));
    let d = if m.texture_diffuse.is_some() {
        with_text(with_text(one_text(surface_text(mi)), sampler_text(mi)), technique)
    } else {
        one_text(technique)
    };
    assert(markup::printed_all(p.children) =~= text::texts(d@));
    let f = one_text(
        element_text("profile_COMMON", &no_attributes(), Layout::Indented(3), &d, Ghost(p.children)),
    );
    assert(markup::printed_all(e.children) =~= text::texts(f@));
    let b = one_attribute("id", numbered_text("effect_", mi));
    element_text("effect", &b, Layout::Indented(2), &f, Ghost(e.children))
}

fn material_text(mi: usize, name: &str) -> (r: String)
    ensures
        r@ == element::printed(dae_tree::material(mi as int, name@)),
{
    let ghost e = dae_tree::material(mi as int, name@);
    let effect = numbered_text("effect_", mi);
    let a = one_attribute("url", link_text(effect.as_str()));
    let c = one_text(stub_text("instance_effect", &a));
    assert(markup::printed_all(e.children) =~= text::texts(c@));
    let b = with_attribute(one_attribute("id", name.to_owned()), "name", name.to_owned());
    assert(markup::pairs(b@) =~= e.attributes);
    element_text("material", &b, Layout::Inline, &c, Ghost(e.children))
}

fn library_images_text(m: &MeshData) -> (r: String)
    ensures
        r@ == element::printed(dae_tree::library_images(m@)),
{
    let ghost e = dae_tree::library_images(m@);
    let ghost all = dae_tree::textures(m@.materials, m@.materials.len() as int);
    let mut c: Vec<String> = Vec::new();
    assert(text::texts(c@) =~= Seq::<Seq<char>>::empty());
    for i in 0..m.materials.len()
        invariant
            text::texts(c@) == dae_tree::textures(m@.materials, i as int).map_values(
                |x: int| element::printed(dae_tree::image(x, m@.materials[x].texture_diffuse->0)),
            ),
    {
        let x = &m.materials[i];
        assert(m@.materials[i as int] == x@);
        if let Some(tex) = &x.texture_diffuse {
            let ghost before = c@;
            let t = image_text(i, tex.as_str());
            c.push(t);
            assert(text::texts(c@) =~= text::texts(before).push(t@));
        }
        assert(text::texts(c@) =~= dae_tree::textures(m@.materials, i + 1).map_values(
            |x: int| element::printed(dae_tree::image(x, m@.materials[x].texture_diffuse->0)),
        ));
    }
    assert(markup::printed_all(e.children) =~= text::texts(c@));
    element_text("library_images", &no_attributes(), Layout::Indented(1), &c, Ghost(e.children))
}

fn library_effects_text(m: &MeshData, t: &NumberTexts) -> (r: String)
    requires
        t.materials@.len() == m@.materials.len(),
    ensures
        r@ == element::printed(dae_tree::library_effects(m@, *t)),
{
    let ghost e = dae_tree::library_effects(m@, *t);
    let mut c: Vec<String> = Vec::new();
    assert(text::texts(c@) =~= markup::printed_all(e.children).take(0));
    for i in 0..m.materials.len()
        invariant
            t.materials@.len() == m@.materials.len(),
            e == dae_tree::library_effects(m@, *t),
            text::texts(c@) == markup::printed_all(e.children).take(i as int),
    {
        let ghost before = c@;
        let x = effect_text(i, &m.materials[i], &t.materials[i]);
        assert(m@.materials[i as int] == m.materials@[i as int]@);
        assert(e.children[i as int] == dae_tree::effect(i as int, m@.materials[i as int], t.materials@[i as int]));
        c.push(x);
        assert(text::texts(c@) =~= text::texts(before).push(x@));
        assert(text::texts(c@) =~= markup::printed_all(e.children).take(i + 1));
    }
    assert(markup::printed_all(e.children) =~= text::texts(c@));
    element_text("library_effects", &no_attributes(), Layout::Indented(1), &c, Ghost(e.children))
}

fn library_materials_text(m: &MeshData) -> (r: String)
    ensures
        r@ == element::printed(dae_tree::library_materials(m@)),
{
    let ghost e = dae_tree::library_materials(m@);
    let mut c: Vec<String> = Vec::new();
    assert(text::texts(c@) =~= markup::printed_all(e.children).take(0));
    for i in 0..m.materials.len()
        invariant
            e == dae_tree::library_materials(m@),
            text::texts(c@) == markup::printed_all(e.children).take(i as int),
    {
        let ghost before = c@;
        let name = material_name_text(m, i);
        let x = material_text(i, name.as_str());
        assert(e.children[i as int] == dae_tree::material(i as int, material_name(m@.materials, i as int)));
        c.push(x);
        assert(text::texts(c@) =~= text::texts(before).push(x@));
        assert(text::texts(c@) =~= markup::printed_all(e.children).take(i + 1));
    }
    assert(markup::printed_all(e.children) =~= text::texts(c@));
    element_text("library_materials", &no_attributes(), Layout::Indented(1), &c, Ghost(e.children))
}

// ── Shapes ──

fn param_text(name: &str) -> (r: String)
    ensures
        r@ == element::printed(dae_tree::param(name@)),
{
    let a = with_attribute(one_attribute("name", name.to_owned()), "type", "float".to_owned());
    assert(markup::pairs(a@) =~= dae_tree::param(name@).attributes);
    stub_text("param", &a)
}

/// Writes a list of numbers with a note how they are grouped.
fn source_text(
    id: &str,
    total: usize,
    content: &str,
    count: usize,
    params: &Vec<String>,
    Ghost(elements): Ghost<Seq<element::Element>>,
) -> (r: String)
    requires
        text::texts(params@) == markup::printed_all(elements),
    ensures
        r@ == element::printed(dae_tree::source(id@, total as int, content@, count as int, elements)),
{
    let ghost e = dae_tree::source(id@, total as int, content@, count as int, elements);
    let array = joined_text(id, "-array");
    let a = with_attribute(one_attribute("id", array.clone()), "count", decimal(total));
    let mut inner = line_text(6);
    inner.append(content);
    inner.append(line_text(5).as_str());
    assert(markup::pairs(a@) =~= e.children[0].attributes);
    let numbers = full_leaf_text("float_array", &a, inner.as_str());
    assert(e.children[0] == dae_tree::float_array(id@, total as int, content@));
    let ghost x = dae_tree::accessor(id@, count as int, elements);
    assert(text::texts(params@).len() == elements.len());
    let b = with_attribute(
        with_attribute(one_attribute("source", link_text(array.as_str())), "count", decimal(count)),
        "stride",
        decimal(params.len()),
    );
    assert(markup::pairs(b@) =~= x.attributes);
    let c = one_text(element_text("accessor", &b, Layout::Boxed(6), params, Ghost(elements)));
    let ghost y = e.children[1];
    assert(markup::printed_all(y.children) =~= text::texts(c@));
    let d = element_text("technique_common", &no_attributes(), Layout::Indented(5), &c, Ghost(y.children));
    let f = with_text(one_text(numbers), d);
    assert(markup::printed_all(e.children) =~= text::texts(f@));
    let g = one_attribute("id", id.to_owned());
    element_text("source", &g, Layout::Indented(4), &f, Ghost(e.children))
}

fn xyz_text(id: &str, total: usize, rows: &Vec<String>, count: usize) -> (r: String)
    ensures
        r@ == element::printed(
            dae_tree::source(
                id@,
                total as int,
                self::rows(rows@, rows@.len() as int),
                count as int,
                seq![dae_tree::param("X"@), dae_tree::param("Y"@), dae_tree::param("Z"@)],
            ),
        ),
{
    let ghost e = seq![dae_tree::param("X"@), dae_tree::param("Y"@), dae_tree::param("Z"@)];
    let p = with_text(with_text(one_text(param_text("X")), param_text("Y")), param_text("Z"));
    assert(markup::printed_all(e) =~= text::texts(p@));
    let content = rows_text(rows);
    source_text(id, total, content.as_str(), count, &p, Ghost(e))
}

fn st_text(id: &str, total: usize, rows: &Vec<String>, count: usize) -> (r: String)
    ensures
        r@ == element::printed(
            dae_tree::source(
                id@,
                total as int,
                self::rows(rows@, rows@.len() as int),
                count as int,
                seq![dae_tree::param("S"@), dae_tree::param("T"@)],
            ),
        ),
{
    let ghost e = seq![dae_tree::param("S"@), dae_tree::param("T"@)];
    let p = with_text(one_text(param_text("S")), param_text("T"));
    assert(markup::printed_all(e) =~= text::texts(p@));
    let content = rows_text(rows);
    source_text(id, total, content.as_str(), count, &p, Ghost(e))
}

fn vertices_text(id: &str) -> (r: String)
    ensures
        r@ == element::printed(dae_tree::vertices(id@)),
{
    let ghost e = dae_tree::vertices(id@);
    let positions = joined_text(id, "-positions");
    let a = with_attribute(
        one_attribute("semantic", "POSITION".to_owned()),
        "source",
        link_text(positions.as_str()),
    );
    assert(markup::pairs(a@) =~= e.children[0].attributes);
    let c = one_text(stub_text("input", &a));
    assert(markup::printed_all(e.children) =~= text::texts(c@));
    let b = one_attribute("id", joined_text(id, "-vertices"));
    element_text("vertices", &b, Layout::Indented(4), &c, Ghost(e.children))
}

fn input_attributes<'a>(semantic: &str, source: String, offset: String) -> (r: Vec<(&'a str, String)>)
    ensures
        markup::pairs(r@) == seq![
            ("semantic"@, semantic@),
            ("source"@, dae_tree::link(source@)),
            ("offset"@, offset@),
        ],
{
    let a = one_attribute("semantic", semantic.to_owned());
    let b = with_attribute(a, "source", link_text(source.as_str()));
    let c = with_attribute(b, "offset", offset);
    assert(markup::pairs(c@) =~= seq![
        ("semantic"@, semantic@),
        ("source"@, dae_tree::link(source@)),
        ("offset"@, offset@),
    ]);
    c
}

fn inputs_text(id: &str, m: &MeshData) -> (r: Vec<String>)
    ensures
        text::texts(r@) == markup::printed_all(dae_tree::inputs(id@, m@)),
{
    let ghost e = dae_tree::inputs(id@, m@);
    let normals = m.has_vertex_normals();
    let texcoords = m.has_texcoords();
    let a = input_attributes("VERTEX", joined_text(id, "-vertices"), "0".to_owned());
    let mut c = one_text(stub_text("input", &a));
    if normals {
        let b = input_attributes("NORMAL", joined_text(id, "-normals"), decimal(1));
        c = with_text(c, stub_text("input", &b));
    }
    if texcoords {
        let offset: usize = if normals { 2 } else { 1 };
        let b = input_attributes("TEXCOORD", joined_text(id, "-texcoords"), decimal(offset));
        let d = with_attribute(b, "set", "0".to_owned());
        assert(markup::pairs(d@) =~= dae_tree::texcoord_input(id@, offset as int).attributes);
        c = with_text(c, stub_text("input", &d));
    }
    assert(markup::printed_all(e) =~= text::texts(c@));
    c
}

fn triangles_text(id: &str, m: &MeshData, start: usize, count: usize, material: Option<&str>) -> (r: String)
    requires
        start <= m@.indices.len(),
        start + count <= usize::MAX,
    ensures
        r@ == element::printed(
            dae_tree::triangles(
                id@,
                m@,
                (dae_tree::Run {
                    start: start as int,
                    count: count as int,
                    material: match material {
                        Some(name) => Some(name@),
                        None => None,
                    },
                }),
            ),
        ),
{
    let ghost run = dae_tree::Run {
        start: start as int,
        count: count as int,
        material: match material {
            Some(name) => Some(name@),
            None => None,
        },
    };
    let ghost e = dae_tree::triangles(id@, m@, run);
    let sum: usize = start + count;
    let end: usize = if sum < m.indices.len() { sum } else { m.indices.len() };
    let p = write_corners(&m.indices, start, end, m.has_vertex_normals(), m.has_texcoords());
    let c = with_text(inputs_text(id, m), leaf_text("p", p.as_str()));
    assert(markup::printed_all(e.children) =~= text::texts(c@));
    let a = one_attribute("count", decimal(count));
    let b = match material {
        Some(name) => with_attribute(a, "material", name.to_owned()),
        None => a,
    };
    assert(markup::pairs(b@) =~= e.attributes);
    element_text("triangles", &b, Layout::Indented(4), &c, Ghost(e.children))
}

/// Writes a run of triangles with the lists of numbers that they refer to behind a text.
pub fn write_geometry_element(
    s: &mut String,
    id: &str,
    mesh: &MeshData,
    numbers: &NumberTexts,
    tri_start: usize,
    tri_count: usize,
    material_symbol: Option<&str>,
)
    requires
        3 * mesh@.vertices.len() <= usize::MAX,
        3 * numbers.normals@.len() <= usize::MAX,
        2 * mesh@.texcoords.len() <= usize::MAX,
        tri_start <= mesh@.indices.len(),
        tri_start + tri_count <= usize::MAX,
    ensures
        final(s)@ == old(s)@ + element::printed(
            dae_tree::geometry(
                id@,
                mesh@,
                *numbers,
                (dae_tree::Run {
                    start: tri_start as int,
                    count: tri_count as int,
                    material: match material_symbol {
                        Some(name) => Some(name@),
                        None => None,
                    },
                }),
            ),
        ),
{
    let r = geometry_text(id, mesh, numbers, tri_start, tri_count, material_symbol);
    s.append(r.as_str());
}

fn geometry_text(
    id: &str,
    mesh: &MeshData,
    numbers: &NumberTexts,
    tri_start: usize,
    tri_count: usize,
    material_symbol: Option<&str>,
) -> (r: String)
    requires
        3 * mesh@.vertices.len() <= usize::MAX,
        3 * numbers.normals@.len() <= usize::MAX,
        2 * mesh@.texcoords.len() <= usize::MAX,
        tri_start <= mesh@.indices.len(),
        tri_start + tri_count <= usize::MAX,
    ensures
        r@ == element::printed(
            dae_tree::geometry(
                id@,
                mesh@,
                *numbers,
                (dae_tree::Run {
                    start: tri_start as int,
                    count: tri_count as int,
                    material: match material_symbol {
                        Some(name) => Some(name@),
                        None => None,
                    },
                }),
            ),
        ),
{
    let ghost run = dae_tree::Run {
        start: tri_start as int,
        count: tri_count as int,
        material: match material_symbol {
            Some(name) => Some(name@),
            None => None,
        },
    };
    let ghost e = dae_tree::geometry(id@, mesh@, *numbers, run);
    let ghost x = e.children[0];
    let n: usize = numbers.normals.len();
    let positions = joined_text(id, "-positions");
    let c = one_text(
        xyz_text(positions.as_str(), 3 * mesh.vertices.len(), &numbers.vertices, mesh.vertices.len()),
    );
    let normals = joined_text(id, "-normals");
    let c = with_text(c, xyz_text(normals.as_str(), 3 * n, &numbers.normals, n));
    let c = if mesh.has_texcoords() {
        let texcoords = joined_text(id, "-texcoords");
        with_text(
            c,
            st_text(texcoords.as_str(), 2 * mesh.texcoords.len(), &numbers.texcoords, mesh.texcoords.len()),
        )
    } else {
        c
    };
    let c = with_text(c, vertices_text(id));
    let c = with_text(c, triangles_text(id, mesh, tri_start, tri_count, material_symbol));
    assert(markup::printed_all(x.children) =~= text::texts(c@));
    let d = one_text(element_text("mesh", &no_attributes(), Layout::Indented(3), &c, Ghost(x.children)));
    assert(markup::printed_all(e.children) =~= text::texts(d@));
    let a = with_attribute(one_attribute("id", id.to_owned()), "name", id.to_owned());
    assert(markup::pairs(a@) =~= e.attributes);
    element_text("geometry", &a, Layout::Indented(2), &d, Ghost(e.children))
}

fn submesh_material_text(m: &MeshData, si: usize) -> (r: Option<String>)
    requires
        si < m@.submeshes.len(),
    ensures
        crate::mesh::text_view(r) == submesh_material(m@, si as int),
{
    match m.submeshes[si].material_index {
        Some(mi) => Some(material_name_text(m, mi)),
        None => None,
    }
}


fn library_geometries_text(m: &MeshData, t: &NumberTexts) -> (r: String)
    requires
        writable(m@),
        t.normals@.len() == written_normals(m@).len(),
    ensures
        r@ == element::printed(dae_tree::library_geometries(m@, *t)),
{
    let ghost e = dae_tree::library_geometries(m@, *t);
    let mut c: Vec<String> = Vec::new();
    if m.submeshes.len() == 0 {
        let id = mesh_id_text(0);
        let mut x = String::new();
        write_geometry_element(&mut x, id.as_str(), m, t, 0, m.indices.len(), None);
        assert(x@ =~= element::printed(e.children[0]));
        c.push(x);
        assert(e.children[0] == dae_tree::geometry(mesh_id(0), m@, *t, dae_tree::runs(m@)[0]));
    } else {
        assert(text::texts(c@) =~= markup::printed_all(e.children).take(0));
        for i in 0..m.submeshes.len()
            invariant
                writable(m@),
                m@.submeshes.len() > 0,
                t.normals@.len() == written_normals(m@).len(),
                e == dae_tree::library_geometries(m@, *t),
                text::texts(c@) == markup::printed_all(e.children).take(i as int),
        {
            let ghost before = c@;
            let id = mesh_id_text(i);
            let name = submesh_material_text(m, i);
            let s = &m.submeshes[i];
            assert(m@.submeshes[i as int] == s@);
            let material: Option<&str> = match &name {
                Some(n) => Some(n.as_str()),
                None => None,
            };
            let mut x = String::new();
            write_geometry_element(&mut x, id.as_str(), m, t, s.tri_start, s.tri_count, material);
            assert(x@ =~= element::printed(e.children[i as int]));
            assert(e.children[i as int] == dae_tree::geometry(
                mesh_id(i as int),
                m@,
                *t,
                dae_tree::runs(m@)[i as int],
            ));
            c.push(x);
            assert(text::texts(c@) =~= text::texts(before).push(x@));
            assert(text::texts(c@) =~= markup::printed_all(e.children).take(i + 1));
        }
    }
    assert(markup::printed_all(e.children) =~= text::texts(c@));
    element_text("library_geometries", &no_attributes(), Layout::Indented(1), &c, Ghost(e.children))
}

// ── Scene ──

fn binding_text(name: &str) -> (r: String)
    ensures
        r@ == element::printed(dae_tree::binding(name@)),
{
    let ghost e = dae_tree::binding(name@);
    let ghost x = e.children[0];
    let a = with_attribute(one_attribute("symbol", name.to_owned()), "target", link_text(name));
    assert(markup::pairs(a@) =~= x.children[0].attributes);
    let c = one_text(stub_text("instance_material", &a));
    assert(markup::printed_all(x.children) =~= text::texts(c@));
    let d = one_text(
        element_text("technique_common", &no_attributes(), Layout::Indented(5), &c, Ghost(x.children)),
    );
    assert(markup::printed_all(e.children) =~= text::texts(d@));
    element_text("bind_material", &no_attributes(), Layout::Inline, &d, Ghost(e.children))
}

fn scene_node_text(si: usize, material: &Option<String>, Ghost(run): Ghost<dae_tree::Run>) -> (r: String)
    requires
        run.material == crate::mesh::text_view(*material),
    ensures
        r@ == element::printed(dae_tree::scene_node(si as int, run)),
{
    let ghost e = dae_tree::scene_node(si as int, run);
    let ghost x = dae_tree::instance(si as int, run);
    let c = match material {
        Some(name) => one_text(binding_text(name.as_str())),
        None => no_texts(),
    };
    assert(markup::printed_all(x.children) =~= text::texts(c@));
    let geometry = numbered_text("mesh_", si);
    let a = one_attribute("url", link_text(geometry.as_str()));
    let d = one_text(element_text("instance_geometry", &a, Layout::Indented(4), &c, Ghost(x.children)));
    assert(markup::printed_all(e.children) =~= text::texts(d@));
    let id = numbered_text("node_", si);
    let b = with_attribute(
        with_attribute(one_attribute("id", id.clone()), "name", id),
        "type",
        "NODE".to_owned(),
    );
    assert(markup::pairs(b@) =~= e.attributes);
    element_text("node", &b, Layout::Indented(3), &d, Ghost(e.children))
}

fn scenes_text(m: &MeshData) -> (r: String)
    ensures
        r@ == element::printed(dae_tree::scenes(m@)),
{
    let ghost e = dae_tree::scenes(m@);
    let ghost x = dae_tree::visual_scene(m@);
    let ghost runs = dae_tree::runs(m@);
    let mut c: Vec<String> = Vec::new();
    if m.submeshes.len() == 0 {
        c.push(scene_node_text(0, &None, Ghost(runs[0])));
        assert(x.children[0] == dae_tree::scene_node(0, runs[0]));
    } else {
        assert(text::texts(c@) =~= markup::printed_all(x.children).take(0));
        for i in 0..m.submeshes.len()
            invariant
                m@.submeshes.len() > 0,
                runs == dae_tree::runs(m@),
                x == dae_tree::visual_scene(m@),
                text::texts(c@) == markup::printed_all(x.children).take(i as int),
        {
            let ghost before = c@;
            let name = submesh_material_text(m, i);
            let y = scene_node_text(i, &name, Ghost(runs[i as int]));
            assert(x.children[i as int] == dae_tree::scene_node(i as int, runs[i as int]));
            c.push(y);
            assert(text::texts(c@) =~= text::texts(before).push(y@));
            assert(text::texts(c@) =~= markup::printed_all(x.children).take(i + 1));
        }
    }
    assert(markup::printed_all(x.children) =~= text::texts(c@));
    let a = with_attribute(one_attribute("id", "Scene".to_owned()), "name", "Scene".to_owned());
    assert(markup::pairs(a@) =~= x.attributes);
    let d = one_text(element_text("visual_scene", &a, Layout::Indented(2), &c, Ghost(x.children)));
    assert(markup::printed_all(e.children) =~= text::texts(d@));
    element_text("library_visual_scenes", &no_attributes(), Layout::Indented(1), &d, Ghost(e.children))
}

// ── Document ──

fn asset_text() -> (r: String)
    ensures
        r@ == element::printed(dae_tree::asset()),
{
    let ghost e = dae_tree::asset();
    let c = one_text(leaf_text("up_axis", "Z_UP"));
    assert(markup::printed_all(e.children) =~= text::texts(c@));
    element_text("asset", &no_attributes(), Layout::Indented(1), &c, Ghost(e.children))
}

fn scene_text() -> (r: String)
    ensures
        r@ == element::printed(dae_tree::scene()),
{
    let ghost e = dae_tree::scene();
    let a = one_attribute("url", link_text("Scene"));
    let c = one_text(stub_text("instance_visual_scene", &a));
    assert(markup::printed_all(e.children) =~= text::texts(c@));
    element_text("scene", &no_attributes(), Layout::Inline, &c, Ghost(e.children))
}

fn has_textures(m: &MeshData) -> (r: bool)
    ensures
        r == exists|i: int|
            0 <= i < m@.materials.len() && (#[trigger] m@.materials[i]).texture_diffuse is Some,
{
    for i in 0..m.materials.len()
        invariant
            forall|j: int| 0 <= j < i ==> (#[trigger] m@.materials[j]).texture_diffuse is None,
    {
        if m.materials[i].texture_diffuse.is_some() {
            assert(m@.materials[i as int].texture_diffuse is Some);
            return true;
        }
        assert(m@.materials[i as int].texture_diffuse is None);
    }
    false
}

/// Writes the document of a mesh whose numbers have been written in decimal.
pub fn write_document(m: &MeshData, t: &NumberTexts) -> (r: String)
    requires
        writable(m@),
        t.normals@.len() == written_normals(m@).len(),
        t.materials@.len() == m@.materials.len(),
    ensures
        r@ == document(m@, *t),
{
    let ghost e = dae_tree::document_tree(m@, *t);
    let c = one_text(asset_text());
    let c = if has_textures(m) {
        with_text(c, library_images_text(m))
    } else {
        c
    };
    let c = with_text(c, library_effects_text(m, t));
    let c = with_text(c, library_materials_text(m));
    let c = with_text(c, library_geometries_text(m, t));
    let c = with_text(c, scenes_text(m));
    let c = with_text(c, scene_text());
    assert(markup::printed_all(e.children) =~= text::texts(c@));
    let a = one_attribute("version", "1.4.1".to_owned());
    let inner = inner_text(
        Layout::Indented(0),
        &c,
        Ghost(e.tag),
        Ghost(e.attributes),
        Ghost(e.children),
    );
    let mut head = " xmlns=\"".to_owned();
    head.append(NAMESPACE);
    head.append("\"");
    head.append(attributes_text(&a).as_str());
    let mut r = "<?xml version=\"1.0\" encoding=\"utf-8\"?>\n".to_owned();
    r.append(wrap("COLLADA", head.as_str(), inner.as_str()).as_str());
    r.append("\n");
    r
}

} // verus!
