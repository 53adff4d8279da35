//! Collada (`.dae`) meshes.
//!
//! Reads triangles and polygons with positions, normals, texture points and
//! materials, as most modelling programs write them; writes the same.

use vstd::prelude::*;
use crate::dae_back;
use crate::dae_geom;
use crate::dae_merge;
use crate::dae_numbers;
use crate::dae_plain;
use crate::dae_read;
use crate::dae_text;
use crate::dae_tree;
use crate::element;
use crate::mesh;
use crate::text;
use crate::xml;
use crate::dae_geom::parse_library_geometries;
use crate::dae_merge::{merge_geometries, Looks, Merged};
use crate::dae_read::{find_root, parse_library_effects, parse_library_images, parse_library_materials, parse_visual_scene_bindings, read_up_axis, Readings, ReadingsView};
use crate::dae_text::{number_texts, write_document, NumberTexts};
use crate::mesh::{MeshData, MeshView};
use crate::number::Real;
use crate::numerics::{MeshNumerics, RealText};
use crate::text::{split_words, trim};
use crate::xml::{parse_xml, NodeView, XmlNode};

verus! {

/// How file names are joined on this machine.
///
/// Nothing is assumed of the results.
pub trait FilePaths {
    /// Tells whether a path depends on the directory from which it is seen.
    fn is_relative(&self, path: &str) -> bool;

    /// The path behind the directory `dir`.
    fn join(&self, dir: &str, path: &str) -> String;
}

/// Whether the text of an element is a list of numbers.
pub open spec fn holds_numbers(tag: Seq<char>) -> bool {
    tag == "float_array"@ || tag == "float"@ || tag == "color"@
}

/// Whether `v` is what was read of each word of a text.
pub open spec fn words_read<K: RealText>(k: &K, text: Seq<char>, v: Seq<Option<Real>>) -> bool {
    &&& v.len() == text::words(text, 0).len()
    &&& forall|i: int| 0 <= i < v.len() ==> word_read(k, text::words(text, 0)[i], #[trigger] v[i])
}

pub open spec fn word_read<K: RealText>(k: &K, word: Seq<char>, x: Option<Real>) -> bool {
    exists|w: &str| w@ == word && #[trigger] call_ensures(K::parse, (k, w), x)
}

/// Whether `p` is the file that a text names, apart from white space at its ends: a path that depends
/// on where it is seen from is one in the directory `dir`.
pub open spec fn path_read<K: FilePaths>(k: &K, dir: &str, text: Seq<char>, p: Seq<char>) -> bool {
    exists|w: &str, relative: bool|
        {
            &&& w@ == text::trimmed(text)
            &&& #[trigger] call_ensures(K::is_relative, (k, w), relative)
            &&& if relative {
                exists|s: String| #[trigger] call_ensures(K::join, (k, dir, w), s) && p == s@
            } else {
                p == w@
            }
        }
}

/// Whether the numbers and files that nodes name were read.
pub open spec fn nodes_read<K: RealText + FilePaths>(
    k: &K,
    dir: &str,
    nodes: Seq<NodeView>,
    r: ReadingsView,
) -> bool {
    &&& r.covers(nodes)
    &&& forall|i: int| 0 <= i < nodes.len() ==> numbers_read(k, nodes[i], #[trigger] r.numbers[i])
    &&& forall|i: int| 0 <= i < nodes.len() ==> file_read(k, dir, nodes[i], #[trigger] r.paths[i])
}

pub open spec fn numbers_read<K: RealText>(k: &K, node: NodeView, v: Seq<Option<Real>>) -> bool {
    if holds_numbers(node.tag) {
        words_read(k, node.text_or_empty(), v)
    } else {
        v.len() == 0
    }
}

pub open spec fn file_read<K: FilePaths>(k: &K, dir: &str, node: NodeView, p: Option<Seq<char>>) -> bool {
    if node.tag == "init_from"@ && node.text is Some {
        p is Some && path_read(k, dir, node.text->0, p->0)
    } else {
        p is None
    }
}

fn read_numbers<K: RealText>(k: &K, node: &XmlNode) -> (v: Vec<Option<Real>>)
    ensures
        numbers_read(k, node@, v@),
{
    let mut v: Vec<Option<Real>> = Vec::new();
    if node.is("float_array") || node.is("float") || node.is("color") {
        let ghost text = node@.text_or_empty();
        let w: Vec<String> = match &node.text {
            Some(t) => split_words(t.as_str()),
            None => {
                let e = crate::xml::empty_text();
                split_words(e.as_str())
            },
        };
        for i in 0..w.len()
            invariant
                text::texts(w@) == text::words(text, 0),
                v@.len() == i,
                forall|j: int| 0 <= j < i ==> word_read(k, text::words(text, 0)[j], #[trigger] v@[j]),
        {
            assert(text::words(text, 0)[i as int] == w@[i as int]@);
            let x = k.parse(w[i].as_str());
            v.push(x);
        }
    }
    v
}

fn read_file<K: FilePaths>(k: &K, dir: &str, node: &XmlNode) -> (p: Option<String>)
    ensures
        file_read(k, dir, node@, mesh::text_view(p)),
{
    if node.is("init_from") {
        match &node.text {
            Some(t) => {
                let w = trim(t.as_str());
                let path: &str = w.as_str();
                let relative = k.is_relative(path);
                assert(call_ensures(K::is_relative, (k, path), relative));
                if relative {
                    let s = k.join(dir, path);
                    assert(call_ensures(K::join, (k, dir, path), s));
                    assert(path_read(k, dir, t@, s@));
                    Some(s)
                } else {
                    assert(path_read(k, dir, t@, w@));
                    Some(w)
                }
            },
            None => None,
        }
    } else {
        None
    }
}

fn read_nodes<K: RealText + FilePaths>(k: &K, dir: &str, nodes: &Vec<XmlNode>) -> (r: Readings)
    ensures
        nodes_read(k, dir, xml::nodes_view(nodes@), r@),
{
    let mut numbers: Vec<Vec<Option<Real>>> = Vec::new();
    let mut paths: Vec<Option<String>> = Vec::new();
    for i in 0..nodes.len()
        invariant
            numbers@.len() == i,
            paths@.len() == i,
            forall|j: int| 0 <= j < i ==> numbers_read(k, xml::nodes_view(nodes@)[j], (#[trigger] numbers@[j])@),
            forall|j: int|
                0 <= j < i ==> file_read(k, dir, xml::nodes_view(nodes@)[j], mesh::text_view(#[trigger] paths@[j])),
    {
        assert(xml::nodes_view(nodes@)[i as int] == nodes@[i as int]@);
        numbers.push(read_numbers(k, &nodes[i]));
        paths.push(read_file(k, dir, &nodes[i]));
    }
    Readings { numbers, paths }
}

/// The mesh that the nodes of a document describe, apart from the normals of its triangles.
pub open spec fn described(nodes: Seq<NodeView>, r: ReadingsView) -> Merged {
    dae_merge::merged(
        dae_geom::geometries(nodes, r, dae_read::up_axis(nodes)),
        Looks {
            effects: dae_read::effects(nodes, r),
            material_effects: dae_read::material_effects(nodes),
            instances: dae_read::instances(nodes),
        },
    )
}

/// Builds the mesh that the nodes of a document describe.
pub fn build_mesh<K: MeshNumerics>(k: &K, nodes: &Vec<XmlNode>, r: &Readings) -> (m: MeshData)
    requires
        r@.covers(xml::nodes_view(nodes@)),
    ensures
        dae_merge::completed(k, described(xml::nodes_view(nodes@), r@), m@),
        mesh::corners_within(m@.indices, m@.vertices.len()),
{
    let root_at: usize = find_root(nodes);
    let up = read_up_axis(nodes, root_at);
    let images_at = parse_library_images(nodes, root_at, r);
    let effects_at = parse_library_effects(nodes, root_at, r, &images_at);
    let mat_to_effect = parse_library_materials(nodes, root_at);
    let geoms = parse_library_geometries(nodes, root_at, r, up.as_str());
    let bindings = parse_visual_scene_bindings(nodes, root_at);
    merge_geometries(k, &geoms, &effects_at, &mat_to_effect, &bindings)
}

/// Whether `m` is the mesh that the nodes of a document describe, files being named
/// as seen from `dir`.
pub open spec fn loaded<K: MeshNumerics + RealText + FilePaths>(
    k: &K,
    dir: &str,
    nodes: Seq<NodeView>,
    m: MeshView,
) -> bool {
    exists|x: ReadingsView| #[trigger]
        nodes_read(k, dir, nodes, x) && dae_merge::completed(k, described(nodes, x), m)
}

/// Whether a text is the document of a mesh, and no longer than the parser can number.
pub open spec fn is_document_of<K: RealText>(k: &K, m: MeshView, t: NumberTexts, s: Seq<char>) -> bool {
    &&& dae_text::writable(m)
    &&& dae_text::is_mesh_text(k, m, t)
    &&& s == dae_text::document(m, t)
    &&& s.len() < u32::MAX
}

/// Loads a mesh from the text of a document; `dae_dir` is where relative file names
/// start.
///
/// What was written for a mesh is read, and gives the mesh back where that can be stored, provided
/// that numbers are printed as words, and finite numbers so that they are read as themselves.
pub fn load_dae_string<K: MeshNumerics + RealText + FilePaths>(k: &K, xml: &str, dae_dir: &str) -> (r: Result<
    MeshData,
    String,
>)
    ensures
        xml::xml_document(xml@) matches Ok(nodes) ==> r is Ok && loaded(k, dae_dir, nodes, r->Ok_0@),
        xml::xml_document(xml@) matches Err(e) ==> r is Err && r->Err_0@ == "DAE XML parse error: "@ + e,
        r matches Ok(m) ==> mesh::corners_within(m@.indices, m@.vertices.len()),
        forall|m: MeshView, t: NumberTexts|
            dae_numbers::prints_plainly(k) && #[trigger] is_document_of(k, m, t, xml@) ==> r is Ok && (
            dae_numbers::reads_back(k) && dae_back::storable(m) ==> dae_back::comes_back(k, dae_dir, m, r->Ok_0@)),
{
    let parsed = parse_xml(xml);
    proof {
        assert forall|m: MeshView, t: NumberTexts|
            dae_numbers::prints_plainly(k) && #[trigger] is_document_of(k, m, t, xml@) implies parsed is Ok
            && element::is_document(xml::nodes_view(parsed->Ok_0@), dae_tree::document_tree(m, t)) by {
            dae_plain::document_is_plain(k, m, t);
            let e = dae_tree::document_tree(m, t);
            assert(xml@ == element::document_text(dae_text::NAMESPACE@, e));
        }
    }
    match parsed {
        Ok(nodes) => {
            let x = read_nodes(k, dae_dir, &nodes);
            let m = build_mesh(k, &nodes, &x);
            assert(nodes_read(k, dae_dir, xml::nodes_view(nodes@), x@) && dae_merge::completed(
                k,
                described(xml::nodes_view(nodes@), x@),
                m@,
            ));
            proof {
                let list = xml::nodes_view(nodes@);
                assert forall|y: MeshView, t: NumberTexts|
                    dae_numbers::prints_plainly(k) && #[trigger] is_document_of(k, y, t, xml@)
                        && dae_numbers::reads_back(k) && dae_back::storable(y) implies dae_back::comes_back(
                    k,
                    dae_dir,
                    y,
                    m@,
                ) by {
                    dae_back::written_mesh_comes_back(k, dae_dir, y, t, list, m@);
                }
            }
            Ok(m)
        },
        Err(e) => {
            let mut t = "DAE XML parse error: ".to_owned();
            t.append(e.as_str());
            assert(t@ == "DAE XML parse error: "@ + e@);
            Err(t)
        },
    }
}

/// Writes a mesh as a document with z up; materials, textures and submeshes are kept.  The document
/// is well formed whatever the names are, provided that numbers are printed as words.
pub fn write_dae_string<K: RealText>(k: &K, mesh: &MeshData) -> (r: String)
    requires
        dae_text::writable(mesh@),
    ensures
        exists|t: NumberTexts| #[trigger]
            dae_text::is_mesh_text(k, mesh@, t) && r@ == dae_text::document(mesh@, t) && (
            dae_numbers::prints_plainly(k) ==> element::is_plain(dae_tree::document_tree(mesh@, t))),
{
    let t = number_texts(k, mesh);
    proof {
        if dae_numbers::prints_plainly(k) {
            dae_plain::document_is_plain(k, mesh@, t);
        }
    }
    write_document(mesh, &t)
}

} // verus!
