//! The geometries of Collada documents.

use vstd::prelude::*;
use crate::dae_mesh;
use crate::dae_read;
use crate::mesh;
use crate::table;
use crate::text;
use crate::xml;
use crate::dae_mesh::{build_triangles_from_p, build_triangles_from_polylist, read_points, read_texture_points, read_vectors, Corner};
use crate::dae_read::{is_child_named, read_child_text, read_known, Readings, ReadingsView};
use crate::number::{Point2, Point3, Real, Vector3};
use crate::table::Table;
use crate::text::{parse_unsigned, same_text, split_words, strip_hashes};
use crate::xml::{empty_text, find_child, NodeView, XmlNode};

verus! {

/// A table of lists of numbers by name.
pub type Lists = Seq<(Seq<char>, Seq<Real>)>;

/// A list of triangles with the numbers that it refers to.
pub struct RawGeometry {
    pub id: String,
    pub vertices: Vec<Point3>,
    pub normals: Vec<Vector3>,
    pub texcoords: Vec<Point2>,
    /// Places of position, normal and texture point of three corners each; the
    /// largest word for none.
    pub triangles: Vec<[usize; 9]>,
    pub material_symbol: Option<String>,
}

/// Mathematical value of a [`RawGeometry`].
#[verifier::ext_equal]
pub struct RawView {
    pub id: Seq<char>,
    pub vertices: Seq<Point3>,
    pub normals: Seq<Vector3>,
    pub texcoords: Seq<Point2>,
    pub corners: Seq<Corner>,
    pub material_symbol: Option<Seq<char>>,
}

impl View for RawGeometry {
    type V = RawView;

    open spec fn view(&self) -> RawView {
        RawView {
            id: self.id@,
            vertices: self.vertices@,
            normals: self.normals@,
            texcoords: self.texcoords@,
            corners: dae_mesh::corners(self.triangles@),
            material_symbol: mesh::text_view(self.material_symbol),
        }
    }
}

/// An index of each corner: what it means, where the numbers are, its place.
pub struct Input {
    pub semantic: String,
    pub source_id: String,
    pub offset: usize,
}

/// Mathematical value of an [`Input`].
#[verifier::ext_equal]
pub struct InputView {
    pub semantic: Seq<char>,
    pub source_id: Seq<char>,
    pub offset: usize,
}

impl View for Input {
    type V = InputView;

    open spec fn view(&self) -> InputView {
        InputView { semantic: self.semantic@, source_id: self.source_id@, offset: self.offset }
    }
}

// ── Lists of numbers ──

/// The lists among the first `n` nodes: id and numbers.
pub open spec fn sources_in(nodes: Seq<NodeView>, r: ReadingsView, mesh: int, n: int) -> Lists
    decreases n,
{
    if n <= 0 {
        Seq::empty()
    } else {
        let j = n - 1;
        let rest = sources_in(nodes, r, mesh, j);
        if xml::is_child(nodes, mesh, j) && nodes[j].tag == "source"@ {
            match xml::child(nodes, j, "float_array"@) {
                Some(f) => rest.push(
                    (
                        nodes[j].attribute_or_empty("id"@),
                        dae_read::known(r.numbers[f], r.numbers[f].len() as int),
                    ),
                ),
                None => rest,
            }
        } else {
            rest
        }
    }
}

/// The lists of a geometry once the positions have a name of their own.
pub struct Sources {
    pub lists: Lists,
    /// Name of the positions.
    pub positions: Seq<char>,
}

/// The lists after the inputs among the first `n` nodes have named the positions.
pub open spec fn named_in(nodes: Seq<NodeView>, lists: Lists, vertices: int, n: int) -> Sources
    decreases n,
{
    if n <= 0 {
        Sources { lists, positions: Seq::empty() }
    } else {
        let j = n - 1;
        let rest = named_in(nodes, lists, vertices, j);
        let id = nodes[vertices].attribute_or_empty("id"@);
        if xml::is_child(nodes, vertices, j) && nodes[j].tag == "input"@ && nodes[j].attribute("semantic"@)
            == Some("POSITION"@) {
            match nodes[j].attribute("source"@) {
                Some(url) => Sources {
                    lists: match table::lookup(rest.lists, text::unhashed(url)) {
                        Some(data) => rest.lists.push((id, data)),
                        None => rest.lists,
                    },
                    positions: id,
                },
                None => rest,
            }
        } else {
            rest
        }
    }
}

/// The lists of a geometry and the name of its positions.
pub open spec fn sources(nodes: Seq<NodeView>, r: ReadingsView, mesh: int) -> Sources {
    let lists = sources_in(nodes, r, mesh, nodes.len() as int);
    match xml::child(nodes, mesh, "vertices"@) {
        Some(v) => named_in(nodes, lists, v, nodes.len() as int),
        None => Sources { lists, positions: Seq::empty() },
    }
}

fn read_sources(nodes: &Vec<XmlNode>, r: &Readings, mesh: usize) -> (s: (Table<Vec<Real>>, String))
    requires
        r@.covers(xml::nodes_view(nodes@)),
    ensures
        s.0@ == sources(xml::nodes_view(nodes@), r@, mesh as int).lists,
        s.1@ == sources(xml::nodes_view(nodes@), r@, mesh as int).positions,
{
    let mut lists: Table<Vec<Real>> = Table::new();
    for j in 0..nodes.len()
        invariant
            r@.covers(xml::nodes_view(nodes@)),
            lists@ == sources_in(xml::nodes_view(nodes@), r@, mesh as int, j as int),
    {
        assert(xml::nodes_view(nodes@)[j as int] == nodes@[j as int]@);
        if is_child_named(nodes, mesh, j, "source") {
            if let Some(f) = find_child(nodes, j, "float_array") {
                assert(r@.numbers[f as int] == r.numbers@[f as int]@);
                lists.put(nodes[j].attribute_or_empty("id"), read_known(&r.numbers[f]));
            }
        }
    }
    let mut positions: String = empty_text();
    if let Some(v) = find_child(nodes, mesh, "vertices") {
        let ghost first = lists@;
        assert(xml::nodes_view(nodes@)[v as int] == nodes@[v as int]@);
        for j in 0..nodes.len()
            invariant
                v < nodes@.len(),
                xml::nodes_view(nodes@)[v as int] == nodes@[v as int]@,
                lists@ == named_in(xml::nodes_view(nodes@), first, v as int, j as int).lists,
                positions@ == named_in(xml::nodes_view(nodes@), first, v as int, j as int).positions,
        {
            assert(xml::nodes_view(nodes@)[j as int] == nodes@[j as int]@);
            if is_child_named(nodes, v, j, "input") && has_value(&nodes[j], "semantic", "POSITION") {
                if let Some(url) = nodes[j].attribute("source") {
                    let source_id = strip_hashes(url.as_str());
                    let data = match lists.get(source_id.as_str()) {
                        Some(d) => Some(crate::mesh::copy_list(d)),
                        None => None,
                    };
                    if let Some(d) = data {
                        lists.put(nodes[v].attribute_or_empty("id"), d);
                    }
                    positions = nodes[v].attribute_or_empty("id");
                }
            }
        }
    }
    (lists, positions)
}

fn has_value(node: &XmlNode, name: &str, value: &str) -> (r: bool)
    ensures
        r == (node@.attribute(name@) == Some(value@)),
{
    match node.attribute(name) {
        Some(v) => same_text(v.as_str(), value),
        None => false,
    }
}

// ── Inputs ──

/// The place that an input states, or zero.
pub open spec fn offset_of(node: NodeView) -> usize {
    match node.attribute("offset"@) {
        Some(t) => match text::unsigned_value(t) {
            Some(n) => n,
            None => 0,
        },
        None => 0,
    }
}

/// The inputs of a primitive among the first `n` nodes.
pub open spec fn inputs_in(nodes: Seq<NodeView>, prim: int, n: int) -> Seq<InputView>
    decreases n,
{
    if n <= 0 {
        Seq::empty()
    } else {
        let j = n - 1;
        let rest = inputs_in(nodes, prim, j);
        if xml::is_child(nodes, prim, j) && nodes[j].tag == "input"@ {
            rest.push(
                InputView {
                    semantic: nodes[j].attribute_or_empty("semantic"@),
                    source_id: text::unhashed(nodes[j].attribute_or_empty("source"@)),
                    offset: offset_of(nodes[j]),
                },
            )
        } else {
            rest
        }
    }
}

/// The largest place among the first `n` inputs, or zero.
pub open spec fn largest_offset(inputs: Seq<InputView>, n: int) -> usize
    decreases n,
{
    if n <= 0 {
        0
    } else if inputs[n - 1].offset > largest_offset(inputs, n - 1) {
        inputs[n - 1].offset
    } else {
        largest_offset(inputs, n - 1)
    }
}

/// First input from the `i`-th on with the given meaning.
pub open spec fn input_from(inputs: Seq<InputView>, semantic: Seq<char>, i: int) -> Option<InputView>
    decreases inputs.len() - i,
{
    if i >= inputs.len() {
        None
    } else if inputs[i].semantic == semantic {
        Some(inputs[i])
    } else {
        input_from(inputs, semantic, i + 1)
    }
}

/// Place of the first input with the given meaning.
pub open spec fn place_of(inputs: Seq<InputView>, semantic: Seq<char>) -> Option<usize> {
    match input_from(inputs, semantic, 0) {
        Some(i) => Some(i.offset),
        None => None,
    }
}

/// Numbers of the first input with the given meaning; none where they are not listed.
pub open spec fn numbers_of(inputs: Seq<InputView>, lists: Lists, semantic: Seq<char>) -> Seq<Real> {
    match input_from(inputs, semantic, 0) {
        Some(i) => match table::lookup(lists, i.source_id) {
            Some(d) => d,
            None => Seq::empty(),
        },
        None => Seq::empty(),
    }
}

/// Values of a list of inputs.
pub open spec fn inputs_view(v: Seq<Input>) -> Seq<InputView> {
    v.map_values(|i: Input| i@)
}

fn read_inputs(nodes: &Vec<XmlNode>, prim: usize) -> (r: (Vec<Input>, usize))
    ensures
        inputs_view(r.0@) == inputs_in(xml::nodes_view(nodes@), prim as int, nodes@.len() as int),
        r.1 == largest_offset(inputs_view(r.0@), r.0@.len() as int),
{
    let mut inputs: Vec<Input> = Vec::new();
    let mut largest: usize = 0;
    assert(inputs_view(inputs@) =~= Seq::<InputView>::empty());
    for j in 0..nodes.len()
        invariant
            inputs_view(inputs@) == inputs_in(xml::nodes_view(nodes@), prim as int, j as int),
            largest == largest_offset(inputs_view(inputs@), inputs@.len() as int),
    {
        assert(xml::nodes_view(nodes@)[j as int] == nodes@[j as int]@);
        if is_child_named(nodes, prim, j, "input") {
            let semantic = nodes[j].attribute_or_empty("semantic");
            let url = nodes[j].attribute_or_empty("source");
            let source_id = strip_hashes(url.as_str());
            let offset: usize = match nodes[j].attribute("offset") {
                Some(t) => match parse_unsigned(t.as_str()) {
                    Some(n) => n,
                    None => 0,
                },
                None => 0,
            };
            if offset > largest {
                largest = offset;
            }
            let ghost before = inputs@;
            let input = Input { semantic, source_id, offset };
            inputs.push(input);
            proof {
                assert(inputs_view(inputs@) =~= inputs_view(before).push(input@));
                largest_offset_prefix(inputs_view(before), inputs_view(inputs@), before.len() as int);
            }
        }
    }
    (inputs, largest)
}

proof fn largest_offset_prefix(a: Seq<InputView>, b: Seq<InputView>, n: int)
    requires
        0 <= n <= a.len(),
        n <= b.len(),
        forall|i: int| 0 <= i < n ==> a[i] == b[i],
    ensures
        largest_offset(a, n) == largest_offset(b, n),
    decreases n,
{
    if n > 0 {
        largest_offset_prefix(a, b, n - 1);
    }
}

proof fn offset_at_most_largest(inputs: Seq<InputView>, n: int, i: int)
    requires
        0 <= i < n <= inputs.len(),
    ensures
        inputs[i].offset <= largest_offset(inputs, n),
    decreases n,
{
    if i < n - 1 {
        offset_at_most_largest(inputs, n - 1, i);
    }
}

proof fn found_input_is_listed(inputs: Seq<InputView>, semantic: Seq<char>, i: int)
    requires
        0 <= i,
    ensures
        input_from(inputs, semantic, i) matches Some(x) ==> exists|k: int|
            0 <= k < inputs.len() && #[trigger] inputs[k] == x,
    decreases inputs.len() - i,
{
    if i < inputs.len() && inputs[i].semantic != semantic {
        found_input_is_listed(inputs, semantic, i + 1);
    }
}

proof fn place_at_most_largest(inputs: Seq<InputView>, semantic: Seq<char>)
    ensures
        place_of(inputs, semantic) matches Some(o) ==> o <= largest_offset(inputs, inputs.len() as int),
{
    found_input_is_listed(inputs, semantic, 0);
    if let Some(x) = input_from(inputs, semantic, 0) {
        let k = choose|k: int| 0 <= k < inputs.len() && #[trigger] inputs[k] == x;
        offset_at_most_largest(inputs, inputs.len() as int, k);
    }
}

fn find_input(inputs: &Vec<Input>, semantic: &str) -> (r: Option<usize>)
    ensures
        match r {
            Some(i) => i < inputs@.len() && input_from(inputs_view(inputs@), semantic@, 0) == Some(
                inputs@[i as int]@,
            ),
            None => input_from(inputs_view(inputs@), semantic@, 0) is None,
        },
{
    for i in 0..inputs.len()
        invariant
            input_from(inputs_view(inputs@), semantic@, 0) == input_from(
                inputs_view(inputs@),
                semantic@,
                i as int,
            ),
    {
        assert(inputs_view(inputs@)[i as int] == inputs@[i as int]@);
        if same_text(inputs[i].semantic.as_str(), semantic) {
            return Some(i);
        }
    }
    None
}

/// Place and numbers of the first input with the given meaning.
fn read_input(inputs: &Vec<Input>, lists: &Table<Vec<Real>>, semantic: &str) -> (r: (
    Option<usize>,
    Vec<Real>,
))
    ensures
        r.0 == place_of(inputs_view(inputs@), semantic@),
        r.1@ == numbers_of(inputs_view(inputs@), lists@, semantic@),
{
    match find_input(inputs, semantic) {
        Some(i) => {
            let data = match lists.get(inputs[i].source_id.as_str()) {
                Some(d) => crate::mesh::copy_list(d),
                None => Vec::new(),
            };
            (Some(inputs[i].offset), data)
        },
        None => (None, Vec::new()),
    }
}

// ── Primitives ──

/// The unsigned numbers among the first `n` words.
pub open spec fn unsigned_in(w: Seq<Seq<char>>, n: int) -> Seq<usize>
    decreases n,
{
    if n <= 0 {
        Seq::empty()
    } else {
        match text::unsigned_value(w[n - 1]) {
            Some(x) => unsigned_in(w, n - 1).push(x),
            None => unsigned_in(w, n - 1),
        }
    }
}

/// The unsigned numbers in the text of a child; none where there is no text.
pub open spec fn indices_of(nodes: Seq<NodeView>, prim: int, tag: Seq<char>) -> Seq<usize> {
    match dae_read::child_text(nodes, prim, tag) {
        Some(t) => unsigned_in(text::words(t, 0), text::words(t, 0).len() as int),
        None => Seq::empty(),
    }
}

fn read_indices(nodes: &Vec<XmlNode>, prim: usize, tag: &str) -> (r: Vec<usize>)
    ensures
        r@ == indices_of(xml::nodes_view(nodes@), prim as int, tag@),
{
    let mut r: Vec<usize> = Vec::new();
    if let Some(t) = read_child_text(nodes, prim, tag) {
        let w = split_words(t.as_str());
        let ghost ws = text::words(t@, 0);
        for i in 0..w.len()
            invariant
                text::texts(w@) == ws,
                r@ == unsigned_in(ws, i as int),
        {
            assert(ws[i as int] == w@[i as int]@);
            if let Some(x) = parse_unsigned(w[i].as_str()) {
                r.push(x);
            }
        }
    }
    r
}

/// The corners of a primitive.
pub open spec fn primitive_corners(nodes: Seq<NodeView>, inputs: Seq<InputView>, prim: int) -> Seq<Corner> {
    let stride = largest_offset(inputs, inputs.len() as int) + 1;
    let p = indices_of(nodes, prim, "p"@);
    let v = place_of(inputs, "VERTEX"@);
    let n = place_of(inputs, "NORMAL"@);
    let t = place_of(inputs, "TEXCOORD"@);
    if nodes[prim].tag == "triangles"@ {
        dae_mesh::listed_corners(p, stride, v, n, t)
    } else {
        let counts = indices_of(nodes, prim, "vcount"@);
        dae_mesh::fans(p, counts, counts.len() as int, stride, v, n, t)
    }
}

/// What a primitive describes.
pub open spec fn primitive(
    nodes: Seq<NodeView>,
    s: Sources,
    id: Seq<char>,
    up: Seq<char>,
    prim: int,
) -> RawView {
    let inputs = inputs_in(nodes, prim, nodes.len() as int);
    RawView {
        id,
        vertices: dae_mesh::points(
            match table::lookup(s.lists, s.positions) {
                Some(d) => d,
                None => Seq::empty(),
            },
            up,
        ),
        normals: dae_mesh::points(numbers_of(inputs, s.lists, "NORMAL"@), up).map_values(|p: Point3| dae_mesh::as_vector(p)),
        texcoords: dae_mesh::texture_points(numbers_of(inputs, s.lists, "TEXCOORD"@)),
        corners: primitive_corners(nodes, inputs, prim),
        material_symbol: nodes[prim].attribute("material"@),
    }
}

/// With a stride beyond the indices, no corner has any.
proof fn fans_beyond(
    p: Seq<usize>,
    counts: Seq<usize>,
    n: int,
    stride: int,
    v: Option<usize>,
    m: Option<usize>,
    t: Option<usize>,
)
    requires
        stride > p.len(),
        0 <= n <= counts.len(),
    ensures
        dae_mesh::fans(p, counts, n, stride, v, m, t) == dae_mesh::fans(Seq::empty(), counts, n, 1, None, None, None),
    decreases n,
{
    if n > 0 {
        fans_beyond(p, counts, n - 1, stride, v, m, t);
        crate::dae_mesh::corners_before_nonneg(counts, n - 1);
        fan_beyond(
            p,
            crate::dae_mesh::corners_before(counts, n - 1),
            counts[n - 1] - 2,
            stride,
            v,
            m,
            t,
        );
    }
}

proof fn fan_beyond(
    p: Seq<usize>,
    start: int,
    k: int,
    stride: int,
    v: Option<usize>,
    m: Option<usize>,
    t: Option<usize>,
)
    requires
        stride > p.len(),
        start >= 0,
    ensures
        dae_mesh::fan(p, start, k, stride, v, m, t) == dae_mesh::fan(Seq::empty(), start, k, 1, None, None, None),
    decreases k,
{
    if k > 0 {
        fan_beyond(p, start, k - 1, stride, v, m, t);
        assert(start * stride >= 0 && (start + k) * stride >= 0 && (start + k + 1) * stride >= 0)
            by (nonlinear_arith)
            requires
                start >= 0,
                k > 0,
                stride > 0,
        ;
    }
}

fn build_triangles(
    listed: bool,
    p: &Vec<usize>,
    counts: &Vec<usize>,
    largest: usize,
    v: Option<usize>,
    n: Option<usize>,
    t: Option<usize>,
) -> (r: Vec<[usize; 9]>)
    requires
        v matches Some(o) ==> o <= largest,
        n matches Some(o) ==> o <= largest,
        t matches Some(o) ==> o <= largest,
    ensures
        dae_mesh::corners(r@) == (if listed {
            dae_mesh::listed_corners(p@, largest + 1, v, n, t)
        } else {
            dae_mesh::fans(p@, counts@, counts@.len() as int, largest + 1, v, n, t)
        }),
{
    if largest == usize::MAX {
        assert(p@.len() == p.len());
        if listed {
            let r: Vec<[usize; 9]> = Vec::new();
            proof {
                let size = 3 * (largest as int + 1);
                assert(p@.len() as int / size == 0) by (nonlinear_arith)
                    requires
                        0 <= p@.len() < size,
                ;
                assert(dae_mesh::corners(r@) =~= dae_mesh::listed_corners(p@, largest + 1, v, n, t));
            }
            r
        } else {
            proof {
                fans_beyond(p@, counts@, counts@.len() as int, largest + 1, v, n, t);
            }
            let none: Vec<usize> = Vec::new();
            assert(none@ =~= Seq::<usize>::empty());
            build_triangles_from_polylist(&none, counts, 1, None, None, None)
        }
    } else if listed {
        build_triangles_from_p(p, largest + 1, v, n, t)
    } else {
        build_triangles_from_polylist(p, counts, largest + 1, v, n, t)
    }
}

fn read_primitive(
    nodes: &Vec<XmlNode>,
    lists: &Table<Vec<Real>>,
    positions: &str,
    id: &str,
    up: &str,
    prim: usize,
) -> (g: RawGeometry)
    requires
        prim < nodes@.len(),
    ensures
        g@ == primitive(
            xml::nodes_view(nodes@),
            (Sources { lists: lists@, positions: positions@ }),
            id@,
            up@,
            prim as int,
        ),
{
    assert(xml::nodes_view(nodes@)[prim as int] == nodes@[prim as int]@);
    let (inputs, largest) = read_inputs(nodes, prim);
    let ghost iv = inputs_view(inputs@);
    let none: Table<Vec<Real>> = Table::new();
    let (v, _) = read_input(&inputs, &none, "VERTEX");
    let (n, normal_data) = read_input(&inputs, lists, "NORMAL");
    let (t, uv_data) = read_input(&inputs, lists, "TEXCOORD");
    proof {
        place_at_most_largest(iv, "VERTEX"@);
        place_at_most_largest(iv, "NORMAL"@);
        place_at_most_largest(iv, "TEXCOORD"@);
        assert(inputs@.len() == iv.len());
    }
    let position_data = match lists.get(positions) {
        Some(d) => crate::mesh::copy_list(d),
        None => Vec::new(),
    };
    let p = read_indices(nodes, prim, "p");
    let counts = read_indices(nodes, prim, "vcount");
    let listed = nodes[prim].is("triangles");
    RawGeometry {
        id: id.to_owned(),
        vertices: read_points(&position_data, up),
        normals: read_vectors(&normal_data, up),
        texcoords: read_texture_points(&uv_data),
        triangles: build_triangles(listed, &p, &counts, largest, v, n, t),
        material_symbol: nodes[prim].attribute("material"),
    }
}

/// Whether an element is a list of triangles or polygons.
pub open spec fn is_primitive(tag: Seq<char>) -> bool {
    tag == "triangles"@ || tag == "polylist"@
}

/// What the primitives of a mesh among the first `n` nodes describe.
pub open spec fn primitives_in(
    nodes: Seq<NodeView>,
    s: Sources,
    id: Seq<char>,
    up: Seq<char>,
    mesh: int,
    n: int,
) -> Seq<RawView>
    decreases n,
{
    if n <= 0 {
        Seq::empty()
    } else {
        let j = n - 1;
        let rest = primitives_in(nodes, s, id, up, mesh, j);
        if xml::is_child(nodes, mesh, j) && is_primitive(nodes[j].tag) {
            rest.push(primitive(nodes, s, id, up, j))
        } else {
            rest
        }
    }
}

/// What the geometries among the first `n` nodes describe.
pub open spec fn geometries_in(
    nodes: Seq<NodeView>,
    r: ReadingsView,
    up: Seq<char>,
    lib: int,
    n: int,
) -> Seq<RawView>
    decreases n,
{
    if n <= 0 {
        Seq::empty()
    } else {
        let j = n - 1;
        let rest = geometries_in(nodes, r, up, lib, j);
        if xml::is_child(nodes, lib, j) && nodes[j].tag == "geometry"@ {
            match xml::child(nodes, j, "mesh"@) {
                Some(m) => rest + primitives_in(
                    nodes,
                    sources(nodes, r, m),
                    nodes[j].attribute_or_empty("id"@),
                    up,
                    m,
                    nodes.len() as int,
                ),
                None => rest,
            }
        } else {
            rest
        }
    }
}

/// What the geometries of a document describe.
pub open spec fn geometries(nodes: Seq<NodeView>, r: ReadingsView, up: Seq<char>) -> Seq<RawView> {
    match xml::child(nodes, dae_read::root(nodes), "library_geometries"@) {
        Some(lib) => geometries_in(nodes, r, up, lib, nodes.len() as int),
        None => Seq::empty(),
    }
}

/// Values of a list of geometries.
pub open spec fn raw_views(v: Seq<RawGeometry>) -> Seq<RawView> {
    v.map_values(|g: RawGeometry| g@)
}

/// Adds the primitives of a mesh.
fn read_primitives(
    nodes: &Vec<XmlNode>,
    lists: &Table<Vec<Real>>,
    positions: &str,
    id: &str,
    up: &str,
    mesh: usize,
    geoms: &mut Vec<RawGeometry>,
)
    ensures
        raw_views(final(geoms)@) == raw_views(old(geoms)@) + primitives_in(
            xml::nodes_view(nodes@),
            (Sources { lists: lists@, positions: positions@ }),
            id@,
            up@,
            mesh as int,
            nodes@.len() as int,
        ),
{
    let ghost before = raw_views(geoms@);
    let ghost s = Sources { lists: lists@, positions: positions@ };
    assert(before + Seq::<RawView>::empty() =~= before);
    for j in 0..nodes.len()
        invariant
            s == (Sources { lists: lists@, positions: positions@ }),
            raw_views(geoms@) == before + primitives_in(
                xml::nodes_view(nodes@),
                s,
                id@,
                up@,
                mesh as int,
                j as int,
            ),
    {
        assert(xml::nodes_view(nodes@)[j as int] == nodes@[j as int]@);
        if is_child_named(nodes, mesh, j, "triangles") || is_child_named(nodes, mesh, j, "polylist") {
            let g = read_primitive(nodes, lists, positions, id, up, j);
            let ghost g0 = geoms@;
            geoms.push(g);
            assert(raw_views(geoms@) =~= raw_views(g0).push(g@));
            assert(raw_views(geoms@) =~= before + primitives_in(
                xml::nodes_view(nodes@),
                s,
                id@,
                up@,
                mesh as int,
                j + 1,
            ));
        }
    }
}

/// Reads the geometries of a document.
pub fn parse_library_geometries(nodes: &Vec<XmlNode>, root_at: usize, r: &Readings, up: &str) -> (g: Vec<
    RawGeometry,
>)
    requires
        root_at == dae_read::root(xml::nodes_view(nodes@)),
        r@.covers(xml::nodes_view(nodes@)),
    ensures
        raw_views(g@) == geometries(xml::nodes_view(nodes@), r@, up@),
{
    let mut geoms: Vec<RawGeometry> = Vec::new();
    assert(raw_views(geoms@) =~= Seq::<RawView>::empty());
    let lib: usize = match find_child(nodes, root_at, "library_geometries") {
        Some(l) => l,
        None => {
            return geoms;
        },
    };
    for j in 0..nodes.len()
        invariant
            r@.covers(xml::nodes_view(nodes@)),
            raw_views(geoms@) == geometries_in(xml::nodes_view(nodes@), r@, up@, lib as int, j as int),
    {
        assert(xml::nodes_view(nodes@)[j as int] == nodes@[j as int]@);
        if is_child_named(nodes, lib, j, "geometry") {
            if let Some(m) = find_child(nodes, j, "mesh") {
                let id = nodes[j].attribute_or_empty("id");
                let (lists, positions) = read_sources(nodes, r, m);
                proof {
                    let s = sources(xml::nodes_view(nodes@), r@, m as int);
                    assert(s == (Sources { lists: lists@, positions: positions@ }));
                }
                read_primitives(nodes, &lists, positions.as_str(), id.as_str(), up, m, &mut geoms);
            }
        }
    }
    geoms
}

} // verus!
