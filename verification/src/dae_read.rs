//! The sections of Collada documents.

use vstd::prelude::*;
use crate::mesh;
use crate::table;
use crate::text;
use crate::xml;
use crate::mesh::{Material, MaterialView};
use crate::number::Real;
use crate::table::Table;
use crate::text::{same_text, strip_hashes, trim};
use crate::xml::{find_below, find_child, test_under, NodeView, XmlNode};

verus! {

/// A table of texts by name.
pub type Texts = Seq<(Seq<char>, Seq<char>)>;

/// Bits of 0.8.
pub const FOUR_FIFTHS: u64 = 0x3FE9_9999_9999_999A;

/// What is read from outside beforehand: for each node the numbers in its text and
/// the file that its text names.
pub struct Readings {
    pub numbers: Vec<Vec<Option<Real>>>,
    pub paths: Vec<Option<String>>,
}

/// Mathematical value of [`Readings`].
pub struct ReadingsView {
    pub numbers: Seq<Seq<Option<Real>>>,
    pub paths: Seq<Option<Seq<char>>>,
}

impl View for Readings {
    type V = ReadingsView;

    open spec fn view(&self) -> ReadingsView {
        ReadingsView {
            numbers: self.numbers@.map_values(|x: Vec<Option<Real>>| x@),
            paths: self.paths@.map_values(|p: Option<String>| mesh::text_view(p)),
        }
    }
}

impl ReadingsView {
    /// Whether there is an entry for each node.
    pub open spec fn covers(self, nodes: Seq<NodeView>) -> bool {
        &&& self.numbers.len() == nodes.len()
        &&& self.paths.len() == nodes.len()
    }
}

// ── Names ──

/// First child of node `i`, from node `j` on, that is an element.
pub open spec fn element_from(nodes: Seq<NodeView>, i: int, j: int) -> int
    decreases nodes.len() - j,
{
    if j >= nodes.len() {
        i
    } else if xml::is_child(nodes, i, j) && nodes[j].tag.len() > 0 {
        j
    } else {
        element_from(nodes, i, j + 1)
    }
}

/// The root element of a document.
pub open spec fn root(nodes: Seq<NodeView>) -> int {
    element_from(nodes, 0, 0)
}

/// Finds the root element.
pub fn find_root(nodes: &Vec<XmlNode>) -> (r: usize)
    ensures
        r == root(xml::nodes_view(nodes@)),
{
    for j in 0..nodes.len()
        invariant
            root(xml::nodes_view(nodes@)) == element_from(xml::nodes_view(nodes@), 0, j as int),
    {
        assert(xml::nodes_view(nodes@)[j as int] == nodes@[j as int]@);
        if let Some(p) = nodes[j].parent {
            if p == 0 && !nodes[j].is("") {
                proof {
                    reveal_strlit("");
                    assert(nodes@[j as int]@.tag != ""@);
                    if nodes@[j as int]@.tag.len() == 0 {
                        assert(nodes@[j as int]@.tag =~= ""@);
                    }
                }
                return j;
            }
            proof {
                reveal_strlit("");
            }
        }
    }
    0
}

/// Text of the child with the given name, if there are both.
pub open spec fn child_text(nodes: Seq<NodeView>, i: int, tag: Seq<char>) -> Option<Seq<char>> {
    match xml::child(nodes, i, tag) {
        Some(c) => nodes[c].text,
        None => None,
    }
}

pub(crate) fn read_child_text(nodes: &Vec<XmlNode>, i: usize, tag: &str) -> (r: Option<String>)
    ensures
        mesh::text_view(r) == child_text(xml::nodes_view(nodes@), i as int, tag@),
{
    match find_child(nodes, i, tag) {
        Some(c) => {
            assert(xml::nodes_view(nodes@)[c as int] == nodes@[c as int]@);
            match &nodes[c].text {
                Some(t) => Some(t.clone()),
                None => None,
            }
        },
        None => None,
    }
}

/// The up axis that a document states, or y.
pub open spec fn up_axis(nodes: Seq<NodeView>) -> Seq<char> {
    match xml::child(nodes, root(nodes), "asset"@) {
        Some(a) => match child_text(nodes, a, "up_axis"@) {
            Some(t) => t,
            None => "Y_UP"@,
        },
        None => "Y_UP"@,
    }
}

/// Reads the up axis.
pub fn read_up_axis(nodes: &Vec<XmlNode>, root_at: usize) -> (r: String)
    requires
        root_at == root(xml::nodes_view(nodes@)),
    ensures
        r@ == up_axis(xml::nodes_view(nodes@)),
{
    match find_child(nodes, root_at, "asset") {
        Some(a) => match read_child_text(nodes, a, "up_axis") {
            Some(t) => t,
            None => "Y_UP".to_owned(),
        },
        None => "Y_UP".to_owned(),
    }
}

// ── Images ──

/// The images among the first `n` nodes: id and file.
pub open spec fn images_in(nodes: Seq<NodeView>, r: ReadingsView, lib: int, n: int) -> Texts
    decreases n,
{
    if n <= 0 {
        Seq::empty()
    } else {
        let j = n - 1;
        let rest = images_in(nodes, r, lib, j);
        if xml::is_child(nodes, lib, j) && nodes[j].tag == "image"@ {
            match xml::below(nodes, j, "init_from"@) {
                Some(x) => match r.paths[x] {
                    Some(p) => rest.push((nodes[j].attribute_or_empty("id"@), p)),
                    None => rest,
                },
                None => rest,
            }
        } else {
            rest
        }
    }
}

/// The images of a document: id and file.
pub open spec fn images(nodes: Seq<NodeView>, r: ReadingsView) -> Texts {
    match xml::child(nodes, root(nodes), "library_images"@) {
        Some(lib) => images_in(nodes, r, lib, nodes.len() as int),
        None => Seq::empty(),
    }
}

/// Tells whether node `j` is a child of node `i` and an element of the given name.
pub(crate) fn is_child_named(nodes: &Vec<XmlNode>, i: usize, j: usize, tag: &str) -> (r: bool)
    requires
        j < nodes@.len(),
    ensures
        r == (xml::is_child(xml::nodes_view(nodes@), i as int, j as int) && xml::nodes_view(nodes@)[j as int].tag == tag@),
{
    assert(xml::nodes_view(nodes@)[j as int] == nodes@[j as int]@);
    match nodes[j].parent {
        Some(p) => p == i && nodes[j].is(tag),
        None => false,
    }
}

/// Reads the images of a document.
pub fn parse_library_images(nodes: &Vec<XmlNode>, root_at: usize, r: &Readings) -> (m: Table<String>)
    requires
        root_at == root(xml::nodes_view(nodes@)),
        r@.covers(xml::nodes_view(nodes@)),
    ensures
        m@ == images(xml::nodes_view(nodes@), r@),
{
    let mut m: Table<String> = Table::new();
    let lib: usize = match find_child(nodes, root_at, "library_images") {
        Some(l) => l,
        None => {
            return m;
        },
    };
    for j in 0..nodes.len()
        invariant
            r@.covers(xml::nodes_view(nodes@)),
            m@ == images_in(xml::nodes_view(nodes@), r@, lib as int, j as int),
    {
        assert(xml::nodes_view(nodes@)[j as int] == nodes@[j as int]@);
        if is_child_named(nodes, lib, j, "image") {
            if let Some(x) = find_below(nodes, j, "init_from") {
                assert(r@.paths[x as int] == mesh::text_view(r.paths@[x as int]));
                if let Some(p) = &r.paths[x] {
                    m.put(nodes[j].attribute_or_empty("id"), p.clone());
                }
            }
        }
    }
    m
}

// ── Effects ──

/// Numbers that could be read among the first `n`.
pub open spec fn known(v: Seq<Option<Real>>, n: int) -> Seq<Real>
    decreases n,
{
    if n <= 0 {
        Seq::empty()
    } else {
        match v[n - 1] {
            Some(x) => known(v, n - 1).push(x),
            None => known(v, n - 1),
        }
    }
}

pub(crate) fn read_known(v: &Vec<Option<Real>>) -> (r: Vec<Real>)
    ensures
        r@ == known(v@, v@.len() as int),
{
    let mut r: Vec<Real> = Vec::new();
    for i in 0..v.len()
        invariant
            r@ == known(v@, i as int),
    {
        if let Some(x) = v[i] {
            r.push(x);
        }
    }
    r
}

/// The number at a place, or a default behind the end.
pub open spec fn number_or(v: Seq<Real>, i: int, default: Real) -> Real {
    if i < v.len() {
        v[i]
    } else {
        default
    }
}

/// The colour that a list of numbers gives: missing parts are zero, a missing
/// opacity is one.
pub open spec fn colour(v: Seq<Real>) -> [Real; 4] {
    [
        number_or(v, 0, Real::zero()),
        number_or(v, 1, Real::zero()),
        number_or(v, 2, Real::zero()),
        number_or(v, 3, Real::one()),
    ]
}

fn read_colour(v: &Vec<Real>) -> (r: [Real; 4])
    ensures
        r == colour(v@),
{
    let zero = Real::zero();
    let a = if 0 < v.len() { v[0] } else { zero };
    let b = if 1 < v.len() { v[1] } else { zero };
    let c = if 2 < v.len() { v[2] } else { zero };
    let d = if 3 < v.len() { v[3] } else { Real::one() };
    let r: [Real; 4] = [a, b, c, d];
    assert(r =~= colour(v@));
    r
}

/// The colour of a parameter that is not stated.
pub open spec fn default_colour(tag: Seq<char>) -> [Real; 4] {
    if tag == "diffuse"@ || tag == "ambient"@ {
        [
            Real { bits: FOUR_FIFTHS },
            Real { bits: FOUR_FIFTHS },
            Real { bits: FOUR_FIFTHS },
            Real::one(),
        ]
    } else {
        [Real::zero(), Real::zero(), Real::zero(), Real::one()]
    }
}

/// The colour of a parameter of a shader.
pub open spec fn colour_param(nodes: Seq<NodeView>, r: ReadingsView, shader: int, tag: Seq<char>) -> [Real; 4] {
    match xml::child(nodes, shader, tag) {
        Some(e) => match xml::child(nodes, e, "color"@) {
            Some(c) => colour(known(r.numbers[c], r.numbers[c].len() as int)),
            None => default_colour(tag),
        },
        None => default_colour(tag),
    }
}

/// The number of a parameter of a shader; zero where its text is not one number.
pub open spec fn number_param(nodes: Seq<NodeView>, r: ReadingsView, shader: int, tag: Seq<char>) -> Real {
    match xml::child(nodes, shader, tag) {
        Some(e) => match xml::child(nodes, e, "float"@) {
            Some(f) => if r.numbers[f].len() == 1 && r.numbers[f][0] is Some {
                r.numbers[f][0]->0
            } else {
                Real::zero()
            },
            None => Real::zero(),
        },
        None => Real::zero(),
    }
}

/// The parameters among the first `n` nodes that are of the given kind: id and the
/// trimmed text of their source.
pub open spec fn params_in(
    nodes: Seq<NodeView>,
    profile: int,
    kind: Seq<char>,
    source: Seq<char>,
    n: int,
) -> Texts
    decreases n,
{
    if n <= 0 {
        Seq::empty()
    } else {
        let j = n - 1;
        let rest = params_in(nodes, profile, kind, source, j);
        if xml::is_child(nodes, profile, j) && nodes[j].tag == "newparam"@ {
            match xml::child(nodes, j, kind) {
                Some(e) => match child_text(nodes, e, source) {
                    Some(t) => rest.push((nodes[j].attribute_or_empty("sid"@), text::trimmed(t))),
                    None => rest,
                },
                None => rest,
            }
        } else {
            rest
        }
    }
}

/// The file that a sampler stands for: from the sampler to its surface, from there
/// to an image, from there to a file.
pub open spec fn sampler_path(
    nodes: Seq<NodeView>,
    profile: int,
    images: Texts,
    sampler: Seq<char>,
) -> Option<Seq<char>> {
    let n = nodes.len() as int;
    match table::lookup(params_in(nodes, profile, "sampler2D"@, "source"@, n), sampler) {
        Some(surface) => match table::lookup(
            params_in(nodes, profile, "surface"@, "init_from"@, n),
            surface,
        ) {
            Some(image) => table::lookup(images, image),
            None => None,
        },
        None => None,
    }
}

/// The file of the diffuse texture of a shader.
pub open spec fn texture(nodes: Seq<NodeView>, profile: int, shader: int, images: Texts) -> Option<Seq<char>> {
    match xml::child(nodes, shader, "diffuse"@) {
        Some(e) => match xml::child(nodes, e, "texture"@) {
            Some(t) => sampler_path(nodes, profile, images, nodes[t].attribute_or_empty("texture"@)),
            None => None,
        },
        None => None,
    }
}

/// Whether an element is a shader.
pub open spec fn is_shader(tag: Seq<char>) -> bool {
    tag == "phong"@ || tag == "lambert"@ || tag == "blinn"@
}

/// First shader of a technique from node `j` on.
pub open spec fn shader_from(nodes: Seq<NodeView>, technique: int, j: int) -> Option<int>
    decreases nodes.len() - j,
{
    if j >= nodes.len() {
        None
    } else if xml::is_child(nodes, technique, j) && is_shader(nodes[j].tag) {
        Some(j)
    } else {
        shader_from(nodes, technique, j + 1)
    }
}

/// A material of which nothing is stated.
pub open spec fn default_material(name: Seq<char>) -> MaterialView {
    MaterialView {
        name,
        ambient: default_colour("ambient"@),
        diffuse: default_colour("diffuse"@),
        specular: default_colour("specular"@),
        emission: default_colour("emission"@),
        shininess: Real::zero(),
        texture_diffuse: None,
    }
}

/// The material that an effect describes.
pub open spec fn effect_material(nodes: Seq<NodeView>, r: ReadingsView, images: Texts, e: int) -> MaterialView {
    let name = nodes[e].attribute_or_empty("id"@);
    match xml::below(nodes, e, "profile_COMMON"@) {
        Some(profile) => match xml::below(nodes, profile, "technique"@) {
            Some(technique) => match shader_from(nodes, technique, 0) {
                Some(s) => MaterialView {
                    name,
                    ambient: colour_param(nodes, r, s, "ambient"@),
                    diffuse: colour_param(nodes, r, s, "diffuse"@),
                    specular: colour_param(nodes, r, s, "specular"@),
                    emission: colour_param(nodes, r, s, "emission"@),
                    shininess: number_param(nodes, r, s, "shininess"@),
                    texture_diffuse: texture(nodes, profile, s, images),
                },
                None => default_material(name),
            },
            None => default_material(name),
        },
        None => default_material(name),
    }
}

/// The effects among the first `n` nodes: id and material.
pub open spec fn effects_in(
    nodes: Seq<NodeView>,
    r: ReadingsView,
    images: Texts,
    lib: int,
    n: int,
) -> Seq<(Seq<char>, MaterialView)>
    decreases n,
{
    if n <= 0 {
        Seq::empty()
    } else {
        let j = n - 1;
        let rest = effects_in(nodes, r, images, lib, j);
        if xml::is_child(nodes, lib, j) && nodes[j].tag == "effect"@ {
            rest.push((nodes[j].attribute_or_empty("id"@), effect_material(nodes, r, images, j)))
        } else {
            rest
        }
    }
}

/// The effects of a document: id and material.
pub open spec fn effects(nodes: Seq<NodeView>, r: ReadingsView) -> Seq<(Seq<char>, MaterialView)> {
    match xml::child(nodes, root(nodes), "library_effects"@) {
        Some(lib) => effects_in(nodes, r, images(nodes, r), lib, nodes.len() as int),
        None => Seq::empty(),
    }
}

fn read_default_colour(tag: &str) -> (r: [Real; 4])
    ensures
        r == default_colour(tag@),
{
    let one = Real::one();
    let x = if same_text(tag, "diffuse") || same_text(tag, "ambient") {
        Real { bits: FOUR_FIFTHS }
    } else {
        Real::zero()
    };
    let r: [Real; 4] = [x, x, x, one];
    assert(r =~= default_colour(tag@));
    r
}

fn read_colour_param(
    nodes: &Vec<XmlNode>,
    r: &Readings,
    shader: usize,
    tag: &str,
) -> (c: [Real; 4])
    requires
        r@.covers(xml::nodes_view(nodes@)),
    ensures
        c == colour_param(xml::nodes_view(nodes@), r@, shader as int, tag@),
{
    if let Some(e) = find_child(nodes, shader, tag) {
        if let Some(c) = find_child(nodes, e, "color") {
            assert(r@.numbers[c as int] == r.numbers@[c as int]@);
            return read_colour(&read_known(&r.numbers[c]));
        }
    }
    read_default_colour(tag)
}

fn parse_float_param(
    nodes: &Vec<XmlNode>,
    r: &Readings,
    shader: usize,
    tag: &str,
) -> (x: Real)
    requires
        r@.covers(xml::nodes_view(nodes@)),
    ensures
        x == number_param(xml::nodes_view(nodes@), r@, shader as int, tag@),
{
    if let Some(e) = find_child(nodes, shader, tag) {
        if let Some(f) = find_child(nodes, e, "float") {
            assert(r@.numbers[f as int] == r.numbers@[f as int]@);
            if r.numbers[f].len() == 1 {
                if let Some(x) = r.numbers[f][0] {
                    return x;
                }
            }
        }
    }
    Real::zero()
}

fn read_params(nodes: &Vec<XmlNode>, profile: usize, kind: &str, source: &str) -> (m: Table<String>)
    ensures
        m@ == params_in(xml::nodes_view(nodes@), profile as int, kind@, source@, nodes@.len() as int),
{
    let mut m: Table<String> = Table::new();
    for j in 0..nodes.len()
        invariant
            m@ == params_in(xml::nodes_view(nodes@), profile as int, kind@, source@, j as int),
    {
        assert(xml::nodes_view(nodes@)[j as int] == nodes@[j as int]@);
        if is_child_named(nodes, profile, j, "newparam") {
            if let Some(e) = find_child(nodes, j, kind) {
                if let Some(t) = read_child_text(nodes, e, source) {
                    m.put(nodes[j].attribute_or_empty("sid"), trim(t.as_str()));
                }
            }
        }
    }
    m
}

fn resolve_sampler_chain(
    nodes: &Vec<XmlNode>,
    profile: usize,
    images: &Table<String>,
    sampler: &str,
) -> (r: Option<String>)
    ensures
        mesh::text_view(r) == sampler_path(xml::nodes_view(nodes@), profile as int, images@, sampler@),
{
    let samplers = read_params(nodes, profile, "sampler2D", "source");
    let surfaces = read_params(nodes, profile, "surface", "init_from");
    match samplers.get(sampler) {
        Some(surface) => match surfaces.get(surface.as_str()) {
            Some(image) => match images.get(image.as_str()) {
                Some(path) => Some(path.clone()),
                None => None,
            },
            None => None,
        },
        None => None,
    }
}

fn read_texture(nodes: &Vec<XmlNode>, profile: usize, shader: usize, images: &Table<String>) -> (r: Option<
    String,
>)
    ensures
        mesh::text_view(r) == texture(xml::nodes_view(nodes@), profile as int, shader as int, images@),
{
    if let Some(e) = find_child(nodes, shader, "diffuse") {
        if let Some(t) = find_child(nodes, e, "texture") {
            assert(xml::nodes_view(nodes@)[t as int] == nodes@[t as int]@);
            let name = nodes[t].attribute_or_empty("texture");
            return resolve_sampler_chain(nodes, profile, images, name.as_str());
        }
    }
    None
}

fn find_shader(nodes: &Vec<XmlNode>, technique: usize) -> (r: Option<usize>)
    ensures
        match r {
            Some(j) => j < nodes@.len() && shader_from(xml::nodes_view(nodes@), technique as int, 0) == Some(
                j as int,
            ),
            None => shader_from(xml::nodes_view(nodes@), technique as int, 0) is None,
        },
{
    for j in 0..nodes.len()
        invariant
            shader_from(xml::nodes_view(nodes@), technique as int, 0) == shader_from(
                xml::nodes_view(nodes@),
                technique as int,
                j as int,
            ),
    {
        assert(xml::nodes_view(nodes@)[j as int] == nodes@[j as int]@);
        if is_child_named(nodes, technique, j, "phong") || is_child_named(nodes, technique, j, "lambert")
            || is_child_named(nodes, technique, j, "blinn") {
            return Some(j);
        }
    }
    None
}

fn new_material(name: String) -> (m: Material)
    ensures
        m@ == default_material(name@),
{
    let m = Material {
        name,
        ambient: read_default_colour("ambient"),
        diffuse: read_default_colour("diffuse"),
        specular: read_default_colour("specular"),
        emission: read_default_colour("emission"),
        shininess: Real::zero(),
        texture_diffuse: None,
    };
    m
}

fn read_effect(
    nodes: &Vec<XmlNode>,
    r: &Readings,
    images: &Table<String>,
    e: usize,
) -> (m: Material)
    requires
        e < nodes@.len(),
        r@.covers(xml::nodes_view(nodes@)),
    ensures
        m@ == effect_material(xml::nodes_view(nodes@), r@, images@, e as int),
{
    assert(xml::nodes_view(nodes@)[e as int] == nodes@[e as int]@);
    let name = nodes[e].attribute_or_empty("id");
    let profile: usize = match find_below(nodes, e, "profile_COMMON") {
        Some(p) => p,
        None => {
            return new_material(name);
        },
    };
    let technique: usize = match find_below(nodes, profile, "technique") {
        Some(t) => t,
        None => {
            return new_material(name);
        },
    };
    let s: usize = match find_shader(nodes, technique) {
        Some(s) => s,
        None => {
            return new_material(name);
        },
    };
    Material {
        name,
        ambient: read_colour_param(nodes, r, s, "ambient"),
        diffuse: read_colour_param(nodes, r, s, "diffuse"),
        specular: read_colour_param(nodes, r, s, "specular"),
        emission: read_colour_param(nodes, r, s, "emission"),
        shininess: parse_float_param(nodes, r, s, "shininess"),
        texture_diffuse: read_texture(nodes, profile, s, images),
    }
}

/// Reads the effects of a document.
pub fn parse_library_effects(
    nodes: &Vec<XmlNode>,
    root_at: usize,
    r: &Readings,
    images_at: &Table<String>,
) -> (m: Table<Material>)
    requires
        root_at == root(xml::nodes_view(nodes@)),
        r@.covers(xml::nodes_view(nodes@)),
        images_at@ == images(xml::nodes_view(nodes@), r@),
    ensures
        m@ == effects(xml::nodes_view(nodes@), r@),
{
    let mut m: Table<Material> = Table::new();
    let lib: usize = match find_child(nodes, root_at, "library_effects") {
        Some(l) => l,
        None => {
            return m;
        },
    };
    for j in 0..nodes.len()
        invariant
            r@.covers(xml::nodes_view(nodes@)),
            m@ == effects_in(xml::nodes_view(nodes@), r@, images_at@, lib as int, j as int),
    {
        assert(xml::nodes_view(nodes@)[j as int] == nodes@[j as int]@);
        if is_child_named(nodes, lib, j, "effect") {
            let x = read_effect(nodes, r, images_at, j);
            m.put(nodes[j].attribute_or_empty("id"), x);
        }
    }
    m
}

// ── Materials ──

/// The materials among the first `n` nodes: id and effect.
pub open spec fn material_effects_in(nodes: Seq<NodeView>, lib: int, n: int) -> Texts
    decreases n,
{
    if n <= 0 {
        Seq::empty()
    } else {
        let j = n - 1;
        let rest = material_effects_in(nodes, lib, j);
        if xml::is_child(nodes, lib, j) && nodes[j].tag == "material"@ {
            match xml::child(nodes, j, "instance_effect"@) {
                Some(e) => match nodes[e].attribute("url"@) {
                    Some(url) => rest.push((nodes[j].attribute_or_empty("id"@), text::unhashed(url))),
                    None => rest,
                },
                None => rest,
            }
        } else {
            rest
        }
    }
}

/// The materials of a document: id and effect.
pub open spec fn material_effects(nodes: Seq<NodeView>) -> Texts {
    match xml::child(nodes, root(nodes), "library_materials"@) {
        Some(lib) => material_effects_in(nodes, lib, nodes.len() as int),
        None => Seq::empty(),
    }
}

/// Reads which effect each material has.
pub fn parse_library_materials(nodes: &Vec<XmlNode>, root_at: usize) -> (m: Table<String>)
    requires
        root_at == root(xml::nodes_view(nodes@)),
    ensures
        m@ == material_effects(xml::nodes_view(nodes@)),
{
    let mut m: Table<String> = Table::new();
    let lib: usize = match find_child(nodes, root_at, "library_materials") {
        Some(l) => l,
        None => {
            return m;
        },
    };
    for j in 0..nodes.len()
        invariant
            m@ == material_effects_in(xml::nodes_view(nodes@), lib as int, j as int),
    {
        assert(xml::nodes_view(nodes@)[j as int] == nodes@[j as int]@);
        if is_child_named(nodes, lib, j, "material") {
            if let Some(e) = find_child(nodes, j, "instance_effect") {
                assert(xml::nodes_view(nodes@)[e as int] == nodes@[e as int]@);
                if let Some(url) = nodes[e].attribute("url") {
                    m.put(nodes[j].attribute_or_empty("id"), strip_hashes(url.as_str()));
                }
            }
        }
    }
    m
}

// ── Scene ──

/// The bindings below an instance among the first `n` nodes: symbol and material.
pub open spec fn bindings_of(nodes: Seq<NodeView>, instance: int, n: int) -> Texts
    decreases n,
{
    if n <= 0 {
        Seq::empty()
    } else {
        let j = n - 1;
        let rest = bindings_of(nodes, instance, j);
        if xml::is_under(nodes, instance, j) && nodes[j].tag == "instance_material"@ {
            rest.push(
                (
                    nodes[j].attribute_or_empty("symbol"@),
                    text::unhashed(nodes[j].attribute_or_empty("target"@)),
                ),
            )
        } else {
            rest
        }
    }
}

/// The instances among the first `n` nodes: geometry and bindings.
pub open spec fn instances_in(nodes: Seq<NodeView>, lib: int, n: int) -> Seq<(Seq<char>, Texts)>
    decreases n,
{
    if n <= 0 {
        Seq::empty()
    } else {
        let j = n - 1;
        let rest = instances_in(nodes, lib, j);
        if xml::is_under(nodes, lib, j) && nodes[j].tag == "instance_geometry"@ {
            rest.push(
                (
                    text::unhashed(nodes[j].attribute_or_empty("url"@)),
                    bindings_of(nodes, j, nodes.len() as int),
                ),
            )
        } else {
            rest
        }
    }
}

/// The instances of a document: geometry and bindings.
pub open spec fn instances(nodes: Seq<NodeView>) -> Seq<(Seq<char>, Texts)> {
    match xml::child(nodes, root(nodes), "library_visual_scenes"@) {
        Some(lib) => instances_in(nodes, lib, nodes.len() as int),
        None => Seq::empty(),
    }
}

fn read_bindings(nodes: &Vec<XmlNode>, instance: usize) -> (m: Table<String>)
    ensures
        m@ == bindings_of(xml::nodes_view(nodes@), instance as int, nodes@.len() as int),
{
    let mut m: Table<String> = Table::new();
    for j in 0..nodes.len()
        invariant
            m@ == bindings_of(xml::nodes_view(nodes@), instance as int, j as int),
    {
        assert(xml::nodes_view(nodes@)[j as int] == nodes@[j as int]@);
        if nodes[j].is("instance_material") && test_under(nodes, instance, j) {
            let target = nodes[j].attribute_or_empty("target");
            m.put(nodes[j].attribute_or_empty("symbol"), strip_hashes(target.as_str()));
        }
    }
    m
}

/// Reads how geometries are placed in the scene.
pub fn parse_visual_scene_bindings(nodes: &Vec<XmlNode>, root_at: usize) -> (m: Table<Table<String>>)
    requires
        root_at == root(xml::nodes_view(nodes@)),
    ensures
        m@ == instances(xml::nodes_view(nodes@)),
{
    let mut m: Table<Table<String>> = Table::new();
    let lib: usize = match find_child(nodes, root_at, "library_visual_scenes") {
        Some(l) => l,
        None => {
            return m;
        },
    };
    for j in 0..nodes.len()
        invariant
            m@ == instances_in(xml::nodes_view(nodes@), lib as int, j as int),
    {
        assert(xml::nodes_view(nodes@)[j as int] == nodes@[j as int]@);
        if nodes[j].is("instance_geometry") && test_under(nodes, lib, j) {
            let url = nodes[j].attribute_or_empty("url");
            let b = read_bindings(nodes, j);
            m.put(strip_hashes(url.as_str()), b);
        }
    }
    m
}

} // verus!
