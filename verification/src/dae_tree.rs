//! The elements of the Collada documents that are written.

use vstd::prelude::*;
use crate::dae_text;
use crate::element;
use crate::text;
use crate::dae_text::{MaterialText, NumberTexts};
use crate::element::Element;
use crate::mesh::{MaterialView, MeshView};

verus! {

/// Names and values of attributes.
pub type Pairs = Seq<(Seq<char>, Seq<char>)>;

/// An element with a text.
pub open spec fn leaf(tag: Seq<char>, content: Seq<char>) -> Element {
    full_leaf(tag, Seq::empty(), content)
}

/// An element with attributes and a text.
pub open spec fn full_leaf(tag: Seq<char>, attributes: Pairs, content: Seq<char>) -> Element {
    Element { tag, attributes, text: Some(content), children: Seq::empty(), gaps: Seq::empty() }
}

/// The end of a line and the indentation of the next.
pub open spec fn line(depth: nat) -> Seq<char> {
    Seq::new(
        2 * depth + 1,
        |i: int|
            if i == 0 {
                '\n'
            } else {
                ' '
            },
    )
}

/// An element with other elements, each on a line of its own.
pub open spec fn indented(tag: Seq<char>, attributes: Pairs, children: Seq<Element>, depth: nat) -> Element {
    Element {
        tag,
        attributes,
        text: None,
        children,
        gaps: Seq::new(
            children.len() + 1,
            |i: int|
                if i < children.len() {
                    line(depth + 1)
                } else {
                    line(depth)
                },
        ),
    }
}

/// An element with other elements, all on its line.
pub open spec fn inline(tag: Seq<char>, attributes: Pairs, children: Seq<Element>) -> Element {
    Element {
        tag,
        attributes,
        text: None,
        children,
        gaps: Seq::new(children.len() + 1, |i: int| Seq::<char>::empty()),
    }
}

/// An element with other elements, all on a line of their own.
pub open spec fn boxed(tag: Seq<char>, attributes: Pairs, children: Seq<Element>, depth: nat) -> Element {
    Element {
        tag,
        attributes,
        text: None,
        children,
        gaps: Seq::new(
            children.len() + 1,
            |i: int|
                if i == 0 {
                    line(depth + 1)
                } else if i < children.len() {
                    Seq::<char>::empty()
                } else {
                    line(depth)
                },
        ),
    }
}

/// An element with nothing in it.
pub open spec fn stub(tag: Seq<char>, attributes: Pairs) -> Element {
    Element { tag, attributes, text: None, children: Seq::empty(), gaps: Seq::empty() }
}

/// A name made of a word and a number.
pub open spec fn numbered(word: Seq<char>, n: int) -> Seq<char> {
    word + text::dec(n)
}

/// A reference to an element.
pub open spec fn link(id: Seq<char>) -> Seq<char> {
    "#"@ + id
}

// ── Looks ──

pub open spec fn asset() -> Element {
    indented("asset"@, Seq::empty(), seq![leaf("up_axis"@, "Z_UP"@)], 1)
}

pub open spec fn image(mi: int, tex: Seq<char>) -> Element {
    indented(
        "image"@,
        seq![("id"@, numbered("img_"@, mi)), ("name"@, numbered("img_"@, mi))],
        seq![leaf("init_from"@, element::cleaned(tex))],
        2,
    )
}

/// Numbers of the materials among the first `n` that have a texture.
pub open spec fn textures(materials: Seq<MaterialView>, n: int) -> Seq<int>
    decreases n,
{
    if n <= 0 {
        Seq::empty()
    } else if materials[n - 1].texture_diffuse is Some {
        textures(materials, n - 1).push(n - 1)
    } else {
        textures(materials, n - 1)
    }
}

pub open spec fn surface(mi: int) -> Element {
    inline(
        "newparam"@,
        seq![("sid"@, numbered("surface_"@, mi))],
        seq![
            inline(
                "surface"@,
                seq![("type"@, "2D"@)],
                seq![leaf("init_from"@, numbered("img_"@, mi))],
            ),
        ],
    )
}

pub open spec fn sampler(mi: int) -> Element {
    inline(
        "newparam"@,
        seq![("sid"@, numbered("sampler_"@, mi))],
        seq![inline("sampler2D"@, Seq::empty(), seq![leaf("source"@, numbered("surface_"@, mi))])],
    )
}

pub open spec fn colour(tag: Seq<char>, content: Seq<char>) -> Element {
    inline(tag, Seq::empty(), seq![leaf("color"@, content)])
}

pub open spec fn shininess(content: Seq<char>) -> Element {
    inline("shininess"@, Seq::empty(), seq![leaf("float"@, content)])
}

pub open spec fn diffuse(mi: int, m: MaterialView, t: MaterialText) -> Element {
    if m.texture_diffuse is Some {
        inline(
            "diffuse"@,
            Seq::empty(),
            seq![
                stub(
                    "texture"@,
                    seq![("texture"@, numbered("sampler_"@, mi)), ("texcoord"@, "UVMap"@)],
                ),
            ],
        )
    } else {
        colour("diffuse"@, t.diffuse@)
    }
}

pub open spec fn phong(mi: int, m: MaterialView, t: MaterialText) -> Element {
    indented(
        "phong"@,
        Seq::empty(),
        seq![
            colour("emission"@, t.emission@),
            colour("ambient"@, t.ambient@),
            diffuse(mi, m, t),
            colour("specular"@, t.specular@),
            shininess(t.shininess@),
        ],
        5,
    )
}

pub open spec fn technique(mi: int, m: MaterialView, t: MaterialText) -> Element {
    indented("technique"@, seq![("sid"@, "common"@)], seq![phong(mi, m, t)], 4)
}

pub open spec fn profile(mi: int, m: MaterialView, t: MaterialText) -> Element {
    indented(
        "profile_COMMON"@,
        Seq::empty(),
        if m.texture_diffuse is Some {
            seq![surface(mi), sampler(mi), technique(mi, m, t)]
        } else {
            seq![technique(mi, m, t)]
        },
        3,
    )
}

pub open spec fn effect(mi: int, m: MaterialView, t: MaterialText) -> Element {
    indented("effect"@, seq![("id"@, numbered("effect_"@, mi))], seq![profile(mi, m, t)], 2)
}

pub open spec fn material(mi: int, name: Seq<char>) -> Element {
    inline(
        "material"@,
        seq![("id"@, name), ("name"@, name)],
        seq![stub("instance_effect"@, seq![("url"@, link(numbered("effect_"@, mi)))])],
    )
}

// ── Shapes ──

/// A run of triangles that is written as one geometry.
pub struct Run {
    pub start: int,
    pub count: int,
    pub material: Option<Seq<char>>,
}

/// The runs of a mesh: one for each submesh, or one for the whole mesh where there is none.
pub open spec fn runs(m: MeshView) -> Seq<Run> {
    if m.submeshes.len() == 0 {
        seq![Run { start: 0, count: m.indices.len() as int, material: None }]
    } else {
        Seq::new(
            m.submeshes.len(),
            |i: int|
                Run {
                    start: m.submeshes[i].tri_start as int,
                    count: m.submeshes[i].tri_count as int,
                    material: dae_text::submesh_material(m, i),
                },
        )
    }
}

pub open spec fn param(name: Seq<char>) -> Element {
    stub("param"@, seq![("name"@, name), ("type"@, "float"@)])
}

/// The numbers of a list.
pub open spec fn float_array(id: Seq<char>, total: int, content: Seq<char>) -> Element {
    full_leaf(
        "float_array"@,
        seq![("id"@, id + "-array"@), ("count"@, text::dec(total))],
        line(6) + content + line(5),
    )
}

/// How the numbers of a list are grouped.
pub open spec fn accessor(id: Seq<char>, count: int, params: Seq<Element>) -> Element {
    boxed(
        "accessor"@,
        seq![
            ("source"@, link(id + "-array"@)),
            ("count"@, text::dec(count)),
            ("stride"@, text::dec(params.len() as int)),
        ],
        params,
        6,
    )
}

/// A list of numbers with a note how they are grouped.
pub open spec fn source(id: Seq<char>, total: int, content: Seq<char>, count: int, params: Seq<Element>) -> Element {
    indented(
        "source"@,
        seq![("id"@, id)],
        seq![
            float_array(id, total, content),
            indented("technique_common"@, Seq::empty(), seq![accessor(id, count, params)], 5),
        ],
        4,
    )
}

pub open spec fn positions(id: Seq<char>, m: MeshView, t: NumberTexts) -> Element {
    let n = m.vertices.len() as int;
    source(
        id + "-positions"@,
        3 * n,
        dae_text::rows(t.vertices@, t.vertices@.len() as int),
        n,
        seq![param("X"@), param("Y"@), param("Z"@)],
    )
}

pub open spec fn normals(id: Seq<char>, t: NumberTexts) -> Element {
    let n = t.normals@.len() as int;
    source(
        id + "-normals"@,
        3 * n,
        dae_text::rows(t.normals@, n),
        n,
        seq![param("X"@), param("Y"@), param("Z"@)],
    )
}

pub open spec fn texcoords(id: Seq<char>, m: MeshView, t: NumberTexts) -> Element {
    let n = m.texcoords.len() as int;
    source(
        id + "-texcoords"@,
        2 * n,
        dae_text::rows(t.texcoords@, t.texcoords@.len() as int),
        n,
        seq![param("S"@), param("T"@)],
    )
}

pub open spec fn vertices(id: Seq<char>) -> Element {
    indented(
        "vertices"@,
        seq![("id"@, id + "-vertices"@)],
        seq![stub("input"@, seq![("semantic"@, "POSITION"@), ("source"@, link(id + "-positions"@))])],
        4,
    )
}

pub open spec fn vertex_input(id: Seq<char>) -> Element {
    stub(
        "input"@,
        seq![("semantic"@, "VERTEX"@), ("source"@, link(id + "-vertices"@)), ("offset"@, "0"@)],
    )
}

pub open spec fn normal_input(id: Seq<char>) -> Element {
    stub(
        "input"@,
        seq![("semantic"@, "NORMAL"@), ("source"@, link(id + "-normals"@)), ("offset"@, text::dec(1))],
    )
}

pub open spec fn texcoord_input(id: Seq<char>, offset: int) -> Element {
    stub(
        "input"@,
        seq![
            ("semantic"@, "TEXCOORD"@),
            ("source"@, link(id + "-texcoords"@)),
            ("offset"@, text::dec(offset)),
            ("set"@, "0"@),
        ],
    )
}

/// The corners of a run as text.
pub open spec fn corners(m: MeshView, run: Run) -> Seq<char> {
    let end = dae_text::run_end(m, run.start, run.count);
    dae_text::corners_text(
        m.indices.subrange(run.start, end),
        3 * (end - run.start),
        m.vertex_normals.len() > 0,
        m.texcoords.len() > 0,
    )
}

/// The inputs of each corner.
pub open spec fn inputs(id: Seq<char>, m: MeshView) -> Seq<Element> {
    if m.vertex_normals.len() > 0 {
        if m.texcoords.len() > 0 {
            seq![vertex_input(id), normal_input(id), texcoord_input(id, 2)]
        } else {
            seq![vertex_input(id), normal_input(id)]
        }
    } else if m.texcoords.len() > 0 {
        seq![vertex_input(id), texcoord_input(id, 1)]
    } else {
        seq![vertex_input(id)]
    }
}

pub open spec fn triangles(id: Seq<char>, m: MeshView, run: Run) -> Element {
    indented(
        "triangles"@,
        match run.material {
            Some(name) => seq![("count"@, text::dec(run.count)), ("material"@, name)],
            None => seq![("count"@, text::dec(run.count))],
        },
        inputs(id, m).push(leaf("p"@, corners(m, run))),
        4,
    )
}

/// What a geometry holds.
pub open spec fn shape(id: Seq<char>, m: MeshView, t: NumberTexts, run: Run) -> Seq<Element> {
    if m.texcoords.len() > 0 {
        seq![positions(id, m, t), normals(id, t), texcoords(id, m, t), vertices(id), triangles(id, m, run)]
    } else {
        seq![positions(id, m, t), normals(id, t), vertices(id), triangles(id, m, run)]
    }
}

pub open spec fn mesh(id: Seq<char>, m: MeshView, t: NumberTexts, run: Run) -> Element {
    indented("mesh"@, Seq::empty(), shape(id, m, t, run), 3)
}

/// A geometry: the lists of numbers, then a run of triangles.
pub open spec fn geometry(id: Seq<char>, m: MeshView, t: NumberTexts, run: Run) -> Element {
    indented(
        "geometry"@,
        seq![("id"@, id), ("name"@, id)],
        seq![mesh(id, m, t, run)],
        2,
    )
}

// ── Scene ──

pub open spec fn binding(name: Seq<char>) -> Element {
    inline(
        "bind_material"@,
        Seq::empty(),
        seq![
            indented(
                "technique_common"@,
                Seq::empty(),
                seq![stub("instance_material"@, seq![("symbol"@, name), ("target"@, link(name))])],
                5,
            ),
        ],
    )
}

pub open spec fn instance(i: int, run: Run) -> Element {
    indented(
        "instance_geometry"@,
        seq![("url"@, link(numbered("mesh_"@, i)))],
        match run.material {
            Some(name) => seq![binding(name)],
            None => Seq::empty(),
        },
        4,
    )
}

pub open spec fn scene_node(i: int, run: Run) -> Element {
    indented(
        "node"@,
        seq![("id"@, numbered("node_"@, i)), ("name"@, numbered("node_"@, i)), ("type"@, "NODE"@)],
        seq![instance(i, run)],
        3,
    )
}

pub open spec fn visual_scene(m: MeshView) -> Element {
    indented(
        "visual_scene"@,
        seq![("id"@, "Scene"@), ("name"@, "Scene"@)],
        Seq::new(runs(m).len(), |i: int| scene_node(i, runs(m)[i])),
        2,
    )
}

pub open spec fn scenes(m: MeshView) -> Element {
    indented("library_visual_scenes"@, Seq::empty(), seq![visual_scene(m)], 1)
}

// ── Document ──

/// Whether some material has a texture.
pub open spec fn textured(m: MeshView) -> bool {
    exists|i: int| 0 <= i < m.materials.len() && (#[trigger] m.materials[i]).texture_diffuse is Some
}

pub open spec fn library_images(m: MeshView) -> Element {
    let x = textures(m.materials, m.materials.len() as int);
    indented(
        "library_images"@,
        Seq::empty(),
        Seq::new(x.len(), |c: int| image(x[c], m.materials[x[c]].texture_diffuse->0)),
        1,
    )
}

pub open spec fn library_effects(m: MeshView, t: NumberTexts) -> Element {
    indented(
        "library_effects"@,
        Seq::empty(),
        Seq::new(m.materials.len(), |i: int| effect(i, m.materials[i], t.materials@[i])),
        1,
    )
}

pub open spec fn library_materials(m: MeshView) -> Element {
    indented(
        "library_materials"@,
        Seq::empty(),
        Seq::new(m.materials.len(), |i: int| material(i, dae_text::material_name(m.materials, i))),
        1,
    )
}

pub open spec fn library_geometries(m: MeshView, t: NumberTexts) -> Element {
    indented(
        "library_geometries"@,
        Seq::empty(),
        Seq::new(runs(m).len(), |i: int| geometry(dae_text::mesh_id(i), m, t, runs(m)[i])),
        1,
    )
}

pub open spec fn scene() -> Element {
    inline("scene"@, Seq::empty(), seq![stub("instance_visual_scene"@, seq![("url"@, link("Scene"@))])])
}

/// The document of a mesh.
pub open spec fn document_tree(m: MeshView, t: NumberTexts) -> Element {
    indented(
        "COLLADA"@,
        seq![("version"@, "1.4.1"@)],
        if textured(m) {
            seq![
                asset(),
                library_images(m),
                library_effects(m, t),
                library_materials(m),
                library_geometries(m, t),
                scenes(m),
                scene(),
            ]
        } else {
            seq![
                asset(),
                library_effects(m, t),
                library_materials(m),
                library_geometries(m, t),
                scenes(m),
                scene(),
            ]
        },
        0,
    )
}

} // verus!
