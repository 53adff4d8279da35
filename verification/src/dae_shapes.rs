//! The shapes in written Collada documents, read again.

use vstd::prelude::*;
use crate::collada;
use crate::dae_geom;
use crate::dae_looks;
use crate::dae_mesh;
use crate::dae_numbers;
use crate::dae_read;
use crate::dae_text;
use crate::dae_tree;
use crate::element;
use crate::table;
use crate::text;
use crate::words;
use crate::xml;
use crate::collada::FilePaths;
use crate::dae_geom::{InputView, Lists, RawView, Sources};
use crate::dae_mesh::Corner;
use crate::dae_read::ReadingsView;
use crate::dae_text::NumberTexts;
use crate::dae_tree::Run;
use crate::element::Element;
use crate::mesh::MeshView;
use crate::number::{Point2, Point3, Real, Vector3};
use crate::numerics::RealText;
use crate::xml::NodeView;

verus! {

// ── Lists of numbers ──

pub open spec fn source_entry(nodes: Seq<NodeView>, r: ReadingsView, j: int) -> Option<(Seq<char>, Seq<Real>)> {
    if nodes[j].tag == "source"@ {
        match xml::child(nodes, j, "float_array"@) {
            Some(f) => Some(
                (
                    nodes[j].attribute_or_empty("id"@),
                    dae_read::known(r.numbers[f], r.numbers[f].len() as int),
                ),
            ),
            None => None,
        }
    } else {
        None
    }
}

proof fn sources_gathered(nodes: Seq<NodeView>, r: ReadingsView, mesh: int, n: int)
    requires
        0 <= n <= nodes.len(),
    ensures
        dae_geom::sources_in(nodes, r, mesh, n) == element::gathered(
            element::members_in(nodes, mesh, n),
            |j: int| source_entry(nodes, r, j),
            element::members_in(nodes, mesh, n).len() as int,
        ),
    decreases n,
{
    reveal_strlit("source");
    if n > 0 {
        sources_gathered(nodes, r, mesh, n - 1);
        element::gathered_on(nodes, mesh, |j: int| source_entry(nodes, r, j), n);
    }
}

/// A list of numbers is read.
proof fn source_is_read<K: RealText + FilePaths>(
    k: &K,
    dir: &str,
    nodes: Seq<NodeView>,
    r: ReadingsView,
    j: int,
    id: Seq<char>,
    total: int,
    content: Seq<char>,
    count: int,
    params: Seq<Element>,
    n: int,
    x: spec_fn(int) -> Real,
)
    requires
        collada::nodes_read(k, dir, nodes, r),
        element::holds(nodes, j, dae_tree::source(id, total, content, count, params)),
        n >= 0,
        dae_numbers::text_reads_as(k, content, n, x),
    ensures
        source_entry(nodes, r, j) == Some((id, Seq::new(n as nat, |c: int| x(c)))),
{
    let e = dae_tree::source(id, total, content, count, params);
    reveal_strlit("float_array");
    element::attribute_is_found(nodes[j], e, "id"@, 0);
    let a = e.children[0];
    assert(a.tag == "float_array"@);
    element::child_is_found(nodes, j, e, "float_array"@, 0);
    let f = element::members(nodes, j)[0];
    dae_numbers::reads_within(k, dae_tree::line(6), content, dae_tree::line(5), n, x);
    dae_looks::leaf_is_read(k, dir, nodes, r, f, a, n, x);
}

/// A coordinate of a list of points.
pub open spec fn coordinate(v: Seq<Point3>, c: int) -> Real {
    if c % 3 == 0 {
        v[c / 3].x
    } else if c % 3 == 1 {
        v[c / 3].y
    } else {
        v[c / 3].z
    }
}

/// The points with the coordinates of vectors.
pub open spec fn as_points(v: Seq<Vector3>) -> Seq<Point3> {
    v.map_values(|p: Vector3| Point3 { x: p.x, y: p.y, z: p.z })
}

/// A coordinate of a list of texture points.
pub open spec fn texture_coordinate(v: Seq<Point2>, c: int) -> Real {
    if c % 2 == 0 {
        v[c / 2].x
    } else {
        v[c / 2].y
    }
}

proof fn triples_read<K: RealText>(k: &K, texts: Seq<String>, v: Seq<Point3>)
    requires
        dae_numbers::prints_plainly(k),
        dae_numbers::reads_back(k),
        texts.len() == v.len(),
        forall|i: int|
            0 <= i < v.len() ==> (#[trigger] v[i]).x.finite() && v[i].y.finite() && v[i].z.finite(),
        forall|i: int|
            0 <= i < v.len() ==> dae_text::is_triple(k, v[i].x, v[i].y, v[i].z, (#[trigger] texts[i])@),
    ensures
        dae_numbers::text_reads_as(
            k,
            dae_text::rows(texts, texts.len() as int),
            3 * v.len() as int,
            |c: int| coordinate(v, c),
        ),
{
    let x = |c: int| coordinate(v, c);
    assert forall|i: int| 0 <= i < texts.len() implies dae_numbers::text_reads_as(
        k,
        (#[trigger] texts[i])@,
        3,
        |j: int| x(3 * i + j),
    ) by {
        assert(v[i].x.finite());
        dae_numbers::triple_reads(k, v[i].x, v[i].y, v[i].z, texts[i]@);
        let f = |j: int|
            if j == 0 {
                v[i].x
            } else if j == 1 {
                v[i].y
            } else {
                v[i].z
            };
        let g = |j: int| x(3 * i + j);
        assert(dae_numbers::text_reads_as(k, texts[i]@, 3, f));
        assert forall|c: int| 0 <= c < 3 implies dae_numbers::reads_as(
            k,
            #[trigger] text::words(texts[i]@, 0)[c],
            g(c),
        ) by {
            assert((3 * i + c) / 3 == i && (3 * i + c) % 3 == c);
            assert(f(c) == g(c));
        }
    }
    dae_numbers::rows_read(k, texts, texts.len() as int, 3, x);
}

proof fn pairs_read<K: RealText>(k: &K, texts: Seq<String>, v: Seq<Point2>)
    requires
        dae_numbers::prints_plainly(k),
        dae_numbers::reads_back(k),
        texts.len() == v.len(),
        forall|i: int| 0 <= i < v.len() ==> (#[trigger] v[i]).x.finite() && v[i].y.finite(),
        forall|i: int| 0 <= i < v.len() ==> dae_text::is_pair(k, v[i].x, v[i].y, (#[trigger] texts[i])@),
    ensures
        dae_numbers::text_reads_as(
            k,
            dae_text::rows(texts, texts.len() as int),
            2 * v.len() as int,
            |c: int| texture_coordinate(v, c),
        ),
{
    let x = |c: int| texture_coordinate(v, c);
    assert forall|i: int| 0 <= i < texts.len() implies dae_numbers::text_reads_as(
        k,
        (#[trigger] texts[i])@,
        2,
        |j: int| x(2 * i + j),
    ) by {
        assert(v[i].x.finite());
        dae_numbers::pair_reads(k, v[i].x, v[i].y, texts[i]@);
        let f = |j: int|
            if j == 0 {
                v[i].x
            } else {
                v[i].y
            };
        let g = |j: int| x(2 * i + j);
        assert(dae_numbers::text_reads_as(k, texts[i]@, 2, f));
        assert forall|c: int| 0 <= c < 2 implies dae_numbers::reads_as(
            k,
            #[trigger] text::words(texts[i]@, 0)[c],
            g(c),
        ) by {
            assert((2 * i + c) / 2 == i && (2 * i + c) % 2 == c);
            assert(f(c) == g(c));
        }
    }
    dae_numbers::rows_read(k, texts, texts.len() as int, 2, x);
}

/// The coordinates of a list of points.
pub open spec fn coordinates(v: Seq<Point3>) -> Seq<Real> {
    Seq::new(3 * v.len(), |c: int| coordinate(v, c))
}

/// The coordinates of a list of texture points.
pub open spec fn texture_coordinates(v: Seq<Point2>) -> Seq<Real> {
    Seq::new(2 * v.len(), |c: int| texture_coordinate(v, c))
}

proof fn points_come_back(v: Seq<Point3>)
    ensures
        dae_mesh::points(coordinates(v), "Z_UP"@) == v,
{
    let d = coordinates(v);
    assert(d.len() / 3 == v.len());
    assert forall|i: int| 0 <= i < v.len() implies #[trigger] dae_mesh::points(d, "Z_UP"@)[i] == v[i] by {
        assert((3 * i) / 3 == i && (3 * i) % 3 == 0);
        assert((3 * i + 1) / 3 == i && (3 * i + 1) % 3 == 1);
        assert((3 * i + 2) / 3 == i && (3 * i + 2) % 3 == 2);
    }
    assert(dae_mesh::points(d, "Z_UP"@) =~= v);
}

proof fn texture_points_come_back(v: Seq<Point2>)
    ensures
        dae_mesh::texture_points(texture_coordinates(v)) == v,
{
    let d = texture_coordinates(v);
    assert(d.len() / 2 == v.len());
    assert forall|i: int| 0 <= i < v.len() implies #[trigger] dae_mesh::texture_points(d)[i] == v[i] by {
        assert((2 * i) / 2 == i && (2 * i) % 2 == 0);
        assert((2 * i + 1) / 2 == i && (2 * i + 1) % 2 == 1);
    }
    assert(dae_mesh::texture_points(d) =~= v);
}

/// The lists of numbers of a geometry.
pub open spec fn lists(id: Seq<char>, m: MeshView) -> Lists {
    let first = seq![
        (id + "-positions"@, coordinates(m.vertices)),
        (id + "-normals"@, coordinates(as_points(dae_text::written_normals(m)))),
    ];
    if m.texcoords.len() > 0 {
        first.push((id + "-texcoords"@, texture_coordinates(m.texcoords)))
    } else {
        first
    }
}

/// Names with different endings differ.
proof fn endings_differ(id: Seq<char>, a: Seq<char>, b: Seq<char>)
    requires
        a != b,
    ensures
        id + a != id + b,
{
    let x = id + a;
    let y = id + b;
    if x == y {
        assert(x.subrange(id.len() as int, x.len() as int) =~= a);
        assert(y.subrange(id.len() as int, y.len() as int) =~= b);
    }
}

proof fn list_names_differ(id: Seq<char>)
    ensures
        id + "-positions"@ != id + "-normals"@,
        id + "-positions"@ != id + "-texcoords"@,
        id + "-positions"@ != id + "-vertices"@,
        id + "-normals"@ != id + "-texcoords"@,
        id + "-normals"@ != id + "-vertices"@,
        id + "-texcoords"@ != id + "-vertices"@,
{
    reveal_strlit("-positions");
    reveal_strlit("-normals");
    reveal_strlit("-texcoords");
    reveal_strlit("-vertices");
    assert("-positions"@.len() != "-normals"@.len());
    assert("-positions"@[1] != "-texcoords"@[1]);
    assert("-positions"@.len() != "-vertices"@.len());
    assert("-normals"@.len() != "-texcoords"@.len());
    assert("-normals"@.len() != "-vertices"@.len());
    assert("-texcoords"@.len() != "-vertices"@.len());
    endings_differ(id, "-positions"@, "-normals"@);
    endings_differ(id, "-positions"@, "-texcoords"@);
    endings_differ(id, "-positions"@, "-vertices"@);
    endings_differ(id, "-normals"@, "-texcoords"@);
    endings_differ(id, "-normals"@, "-vertices"@);
    endings_differ(id, "-texcoords"@, "-vertices"@);
}

proof fn lists_are_read<K: RealText + FilePaths>(
    k: &K,
    dir: &str,
    nodes: Seq<NodeView>,
    r: ReadingsView,
    m: MeshView,
    t: NumberTexts,
    id: Seq<char>,
    run: Run,
    mesh: int,
)
    requires
        collada::nodes_read(k, dir, nodes, r),
        dae_numbers::prints_plainly(k),
        dae_numbers::reads_back(k),
        dae_text::is_mesh_text(k, m, t),
        dae_numbers::is_finite(m),
        element::holds(nodes, mesh, dae_tree::mesh(id, m, t, run)),
    ensures
        dae_geom::sources_in(nodes, r, mesh, nodes.len() as int) == lists(id, m),
{
    let n = nodes.len() as int;
    let e = dae_tree::mesh(id, m, t, run);
    let list = element::members(nodes, mesh);
    let f = |j: int| source_entry(nodes, r, j);
    sources_gathered(nodes, r, mesh, n);
    reveal_strlit("source");
    reveal_strlit("vertices");
    reveal_strlit("triangles");
    assert("source"@.len() != "vertices"@.len());
    assert("source"@.len() != "triangles"@.len());
    let points = as_points(dae_text::written_normals(m));
    assert forall|i: int| 0 <= i < points.len() implies dae_text::is_triple(
        k,
        points[i].x,
        points[i].y,
        points[i].z,
        (#[trigger] t.normals@[i])@,
    ) by {}
    assert forall|i: int| 0 <= i < points.len() implies (#[trigger] points[i]).x.finite() && points[i].y.finite()
        && points[i].z.finite() by {
        assert(dae_text::written_normals(m)[i].x.finite());
    }
    triples_read(k, t.vertices@, m.vertices);
    triples_read(k, t.normals@, points);
    let xyz = seq![dae_tree::param("X"@), dae_tree::param("Y"@), dae_tree::param("Z"@)];
    let v = m.vertices.len() as int;
    let w = t.normals@.len() as int;
    assert(element::holds(nodes, element::members(nodes, mesh)[0], e.children[0]));
    assert(element::holds(nodes, element::members(nodes, mesh)[1], e.children[1]));
    assert(element::holds(nodes, element::members(nodes, mesh)[2], e.children[2]));
    assert(element::holds(nodes, element::members(nodes, mesh)[3], e.children[3]));
    source_is_read(
        k,
        dir,
        nodes,
        r,
        list[0],
        id + "-positions"@,
        3 * v,
        dae_text::rows(t.vertices@, v),
        v,
        xyz,
        3 * v,
        |c: int| coordinate(m.vertices, c),
    );
    source_is_read(
        k,
        dir,
        nodes,
        r,
        list[1],
        id + "-normals"@,
        3 * w,
        dae_text::rows(t.normals@, w),
        w,
        xyz,
        3 * w,
        |c: int| coordinate(points, c),
    );
    assert(coordinates(m.vertices) =~= Seq::new((3 * v) as nat, |c: int| coordinate(m.vertices, c)));
    assert(coordinates(points) =~= Seq::new((3 * w) as nat, |c: int| coordinate(points, c)));
    let a = (id + "-positions"@, coordinates(m.vertices));
    let b = (id + "-normals"@, coordinates(points));
    assert(f(list[0]) == Some(a));
    assert(f(list[1]) == Some(b));
    assert(element::gathered(list, f, 0) =~= Seq::empty());
    assert(element::gathered(list, f, 1) =~= seq![a]);
    assert(element::gathered(list, f, 2) =~= seq![a, b]);
    if m.texcoords.len() > 0 {
        pairs_read(k, t.texcoords@, m.texcoords);
        let u = m.texcoords.len() as int;
        source_is_read(
            k,
            dir,
            nodes,
            r,
            list[2],
            id + "-texcoords"@,
            2 * u,
            dae_text::rows(t.texcoords@, u),
            u,
            seq![dae_tree::param("S"@), dae_tree::param("T"@)],
            2 * u,
            |c: int| texture_coordinate(m.texcoords, c),
        );
        assert(texture_coordinates(m.texcoords) =~= Seq::new(
            (2 * u) as nat,
            |c: int| texture_coordinate(m.texcoords, c),
        ));
        assert(element::holds(nodes, element::members(nodes, mesh)[4], e.children[4]));
        assert(nodes[list[3]].tag == "vertices"@);
        assert(nodes[list[4]].tag == "triangles"@);
        assert(f(list[3]) is None && f(list[4]) is None);
        let c = (id + "-texcoords"@, texture_coordinates(m.texcoords));
        assert(f(list[2]) == Some(c));
        assert(element::gathered(list, f, 3) =~= seq![a, b, c]);
        assert(element::gathered(list, f, 4) =~= seq![a, b, c]);
        assert(element::gathered(list, f, 5) =~= lists(id, m));
    } else {
        assert(nodes[list[2]].tag == "vertices"@);
        assert(nodes[list[3]].tag == "triangles"@);
        assert(f(list[2]) is None && f(list[3]) is None);
        assert(element::gathered(list, f, 3) =~= seq![a, b]);
        assert(element::gathered(list, f, 4) =~= lists(id, m));
    }
}

/// The id of a geometry begins like a name.
proof fn id_is_plain(i: int)
    ensures
        dae_text::mesh_id(i).len() > 0,
        dae_text::mesh_id(i)[0] == 'm',
{
    reveal_strlit("mesh_");
}

proof fn naming_waits(nodes: Seq<NodeView>, l: Lists, vertices: int, n: int)
    requires
        0 <= n <= nodes.len(),
        element::members_in(nodes, vertices, n).len() == 0,
    ensures
        dae_geom::named_in(nodes, l, vertices, n) == (Sources { lists: l, positions: Seq::empty() }),
    decreases n,
{
    reveal_strlit("input");
    if n > 0 {
        assert(!element::is_member(nodes, vertices, n - 1));
        naming_waits(nodes, l, vertices, n - 1);
    }
}

proof fn naming_happens(nodes: Seq<NodeView>, l: Lists, vertices: int, n: int, id: Seq<char>, url: Seq<char>, d: Seq<Real>)
    requires
        0 <= n <= nodes.len(),
        element::members_in(nodes, vertices, n).len() == 1,
        nodes[vertices].attribute_or_empty("id"@) == id,
        nodes[element::members_in(nodes, vertices, n)[0]].tag == "input"@,
        nodes[element::members_in(nodes, vertices, n)[0]].attribute("semantic"@) == Some("POSITION"@),
        nodes[element::members_in(nodes, vertices, n)[0]].attribute("source"@) == Some(url),
        table::lookup(l, text::unhashed(url)) == Some(d),
    ensures
        dae_geom::named_in(nodes, l, vertices, n) == (Sources { lists: l.push((id, d)), positions: id }),
    decreases n,
{
    reveal_strlit("input");
    if element::is_member(nodes, vertices, n - 1) {
        assert(element::members_in(nodes, vertices, n - 1).len() == 0);
        assert(element::members_in(nodes, vertices, n)[0] == n - 1);
        naming_waits(nodes, l, vertices, n - 1);
    } else {
        naming_happens(nodes, l, vertices, n - 1, id, url, d);
    }
}

/// The lists of numbers of a geometry with a name for the positions.
pub open spec fn named_lists(id: Seq<char>, m: MeshView) -> Lists {
    lists(id, m).push((id + "-vertices"@, coordinates(m.vertices)))
}

/// Where the vertices of a geometry are.
pub open spec fn vertices_place(m: MeshView) -> int {
    if m.texcoords.len() > 0 {
        3
    } else {
        2
    }
}

proof fn sources_are_read<K: RealText + FilePaths>(
    k: &K,
    dir: &str,
    nodes: Seq<NodeView>,
    r: ReadingsView,
    m: MeshView,
    t: NumberTexts,
    id: Seq<char>,
    run: Run,
    mesh: int,
)
    requires
        collada::nodes_read(k, dir, nodes, r),
        dae_numbers::prints_plainly(k),
        dae_numbers::reads_back(k),
        dae_text::is_mesh_text(k, m, t),
        dae_numbers::is_finite(m),
        id.len() > 0,
        id[0] == 'm',
        element::holds(nodes, mesh, dae_tree::mesh(id, m, t, run)),
    ensures
        dae_geom::sources(nodes, r, mesh) == (Sources {
            lists: named_lists(id, m),
            positions: id + "-vertices"@,
        }),
{
    let n = nodes.len() as int;
    let e = dae_tree::mesh(id, m, t, run);
    lists_are_read(k, dir, nodes, r, m, t, id, run, mesh);
    list_names_differ(id);
    reveal_strlit("source");
    reveal_strlit("vertices");
    assert("source"@.len() != "vertices"@.len());
    let c = vertices_place(m);
    assert(e.children[0].tag == "source"@);
    assert(e.children[1].tag == "source"@);
    assert(m.texcoords.len() > 0 ==> e.children[2].tag == "source"@);
    let v = dae_tree::vertices(id);
    assert(e.children[c] == v);
    element::child_is_found(nodes, mesh, e, "vertices"@, c);
    let at = element::members(nodes, mesh)[c];
    element::attribute_is_found(nodes[at], v, "id"@, 0);
    let list = element::members(nodes, at);
    assert(element::holds(nodes, element::members(nodes, at)[0], v.children[0]));
    let x = v.children[0];
    reveal_strlit("semantic");
    reveal_strlit("source");
    assert("semantic"@.len() != "source"@.len());
    element::attribute_is_found(nodes[list[0]], x, "semantic"@, 0);
    element::attribute_is_found(nodes[list[0]], x, "source"@, 1);
    dae_looks::link_leads_back(id + "-positions"@);
    let l = lists(id, m);
    dae_looks::sole_entry(l, id + "-positions"@, 0);
    naming_happens(
        nodes,
        l,
        at,
        n,
        id + "-vertices"@,
        dae_tree::link(id + "-positions"@),
        coordinates(m.vertices),
    );
}

// ── Inputs ──

pub open spec fn input_entry(nodes: Seq<NodeView>, j: int) -> Option<InputView> {
    if nodes[j].tag == "input"@ {
        Some(
            InputView {
                semantic: nodes[j].attribute_or_empty("semantic"@),
                source_id: text::unhashed(nodes[j].attribute_or_empty("source"@)),
                offset: dae_geom::offset_of(nodes[j]),
            },
        )
    } else {
        None
    }
}

proof fn inputs_gathered(nodes: Seq<NodeView>, prim: int, n: int)
    requires
        0 <= n <= nodes.len(),
    ensures
        dae_geom::inputs_in(nodes, prim, n) == element::gathered(
            element::members_in(nodes, prim, n),
            |j: int| input_entry(nodes, j),
            element::members_in(nodes, prim, n).len() as int,
        ),
    decreases n,
{
    reveal_strlit("input");
    if n > 0 {
        inputs_gathered(nodes, prim, n - 1);
        element::gathered_on(nodes, prim, |j: int| input_entry(nodes, j), n);
    }
}

/// An input of a corner.
pub open spec fn input_view(semantic: Seq<char>, source_id: Seq<char>, offset: usize) -> InputView {
    InputView { semantic, source_id, offset }
}

proof fn input_is_read(
    nodes: Seq<NodeView>,
    j: int,
    e: Element,
    semantic: Seq<char>,
    source_id: Seq<char>,
    offset: usize,
)
    requires
        element::holds(nodes, j, e),
        e.tag == "input"@,
        e.attributes.len() >= 3,
        e.attributes[0] == ("semantic"@, semantic),
        e.attributes[1] == ("source"@, dae_tree::link(source_id)),
        e.attributes[2] == ("offset"@, text::dec(offset as int)),
        source_id.len() > 0,
        source_id[0] != '#',
    ensures
        input_entry(nodes, j) == Some(input_view(semantic, source_id, offset)),
{
    reveal_strlit("semantic");
    reveal_strlit("source");
    reveal_strlit("offset");
    assert("semantic"@.len() != "source"@.len());
    assert("semantic"@.len() != "offset"@.len());
    assert("source"@[0] != "offset"@[0]);
    element::attribute_is_found(nodes[j], e, "semantic"@, 0);
    element::attribute_is_found(nodes[j], e, "source"@, 1);
    element::attribute_is_found(nodes[j], e, "offset"@, 2);
    dae_looks::link_leads_back(source_id);
    text::decimal_reads_back(offset);
}

/// The inputs of each corner, read again.
pub open spec fn input_views(id: Seq<char>, m: MeshView) -> Seq<InputView> {
    let v = input_view("VERTEX"@, id + "-vertices"@, 0);
    let n = input_view("NORMAL"@, id + "-normals"@, 1);
    if m.vertex_normals.len() > 0 {
        if m.texcoords.len() > 0 {
            seq![v, n, input_view("TEXCOORD"@, id + "-texcoords"@, 2)]
        } else {
            seq![v, n]
        }
    } else if m.texcoords.len() > 0 {
        seq![v, input_view("TEXCOORD"@, id + "-texcoords"@, 1)]
    } else {
        seq![v]
    }
}

proof fn inputs_are_read(nodes: Seq<NodeView>, m: MeshView, id: Seq<char>, run: Run, prim: int)
    requires
        id.len() > 0,
        id[0] == 'm',
        element::holds(nodes, prim, dae_tree::triangles(id, m, run)),
    ensures
        dae_geom::inputs_in(nodes, prim, nodes.len() as int) == input_views(id, m),
{
    let n = nodes.len() as int;
    let e = dae_tree::triangles(id, m, run);
    let list = element::members(nodes, prim);
    let f = |j: int| input_entry(nodes, j);
    inputs_gathered(nodes, prim, n);
    reveal_strlit("input");
    reveal_strlit("p");
    reveal_strlit("0");
    assert("p"@.len() != "input"@.len());
    assert("0"@ =~= text::dec(0));
    let views = input_views(id, m);
    let last = views.len() as int;
    assert(e.children.len() == last + 1);
    assert(element::holds(nodes, element::members(nodes, prim)[last], e.children[last]));
    assert(e.children[last].tag == "p"@);
    assert(nodes[list[last]].tag == "p"@);
    assert(f(list[last]) is None);
    assert(element::holds(nodes, element::members(nodes, prim)[0], e.children[0]));
    assert(e.children[0] == dae_tree::vertex_input(id));
    input_is_read(nodes, list[0], e.children[0], "VERTEX"@, id + "-vertices"@, 0);
    assert(f(list[0]) == Some(views[0]));
    if m.vertex_normals.len() > 0 {
        assert(element::holds(nodes, element::members(nodes, prim)[1], e.children[1]));
        assert(e.children[1] == dae_tree::normal_input(id));
        input_is_read(nodes, list[1], e.children[1], "NORMAL"@, id + "-normals"@, 1);
        assert(f(list[1]) == Some(views[1]));
        if m.texcoords.len() > 0 {
            assert(element::holds(nodes, element::members(nodes, prim)[2], e.children[2]));
            assert(e.children[2] == dae_tree::texcoord_input(id, 2));
            input_is_read(nodes, list[2], e.children[2], "TEXCOORD"@, id + "-texcoords"@, 2);
            assert(f(list[2]) == Some(views[2]));
        }
    } else if m.texcoords.len() > 0 {
        assert(element::holds(nodes, element::members(nodes, prim)[1], e.children[1]));
        assert(e.children[1] == dae_tree::texcoord_input(id, 1));
        input_is_read(nodes, list[1], e.children[1], "TEXCOORD"@, id + "-texcoords"@, 1);
        assert(f(list[1]) == Some(views[1]));
    }
    assert forall|c: int| 0 <= c < last implies f(#[trigger] list[c]) == Some(views[c]) by {}
    element::all_gathered(list, f, last);
    element::rest_is_not_gathered(list, f, last + 1, last);
    assert(element::gathered(list, f, last) =~= views);
}

/// The places of the indices of a corner.
proof fn places_are_read(id: Seq<char>, m: MeshView)
    ensures
        ({
            let v = input_views(id, m);
            let normals = m.vertex_normals.len() > 0;
            let texcoords = m.texcoords.len() > 0;
            &&& dae_geom::largest_offset(v, v.len() as int) + 1 == dae_numbers::stride(normals, texcoords)
            &&& dae_geom::input_from(v, "VERTEX"@, 0) == Some(v[0])
            &&& dae_geom::place_of(v, "VERTEX"@) == Some(0usize)
            &&& dae_geom::input_from(v, "NORMAL"@, 0) == (if normals {
                Some(v[1])
            } else {
                None
            })
            &&& dae_geom::place_of(v, "NORMAL"@) == (if normals {
                Some(1usize)
            } else {
                None
            })
            &&& dae_geom::input_from(v, "TEXCOORD"@, 0) == (if texcoords {
                Some(v[v.len() - 1])
            } else {
                None
            })
            &&& dae_geom::place_of(v, "TEXCOORD"@) == (if texcoords {
                if normals {
                    Some(2usize)
                } else {
                    Some(1usize)
                }
            } else {
                None
            })
        }),
{
    reveal_strlit("VERTEX");
    reveal_strlit("NORMAL");
    reveal_strlit("TEXCOORD");
    assert("VERTEX"@[0] != "NORMAL"@[0]);
    assert("VERTEX"@.len() != "TEXCOORD"@.len());
    assert("NORMAL"@.len() != "TEXCOORD"@.len());
    reveal_with_fuel(dae_geom::largest_offset, 5);
    reveal_with_fuel(dae_geom::input_from, 5);
}

// ── Geometries ──

/// The triangles of a run.
pub open spec fn run_triangles(m: MeshView, run: Run) -> Seq<[u32; 3]> {
    m.indices.subrange(run.start, dae_text::run_end(m, run.start, run.count))
}

/// The corner with the given vertex.
pub open spec fn plain_corner(m: MeshView, v: int) -> Corner {
    (
        v as usize,
        if m.vertex_normals.len() > 0 {
            v as usize
        } else {
            usize::MAX
        },
        if m.texcoords.len() > 0 {
            v as usize
        } else {
            usize::MAX
        },
    )
}

/// A geometry as it comes back.
pub open spec fn plain_geometry(m: MeshView, i: int, run: Run) -> RawView {
    let tris = run_triangles(m, run);
    RawView {
        id: dae_text::mesh_id(i),
        vertices: m.vertices,
        normals: m.vertex_normals,
        texcoords: m.texcoords,
        corners: Seq::new(
            3 * tris.len(),
            |c: int| plain_corner(m, dae_numbers::corner_vertex(tris, c)),
        ),
        material_symbol: run.material,
    }
}

/// Place of the normal among the indices of a corner.
pub open spec fn normal_place(m: MeshView) -> Option<usize> {
    if m.vertex_normals.len() > 0 {
        Some(1)
    } else {
        None
    }
}

/// Place of the texture point among the indices of a corner.
pub open spec fn texcoord_place(m: MeshView) -> Option<usize> {
    if m.texcoords.len() == 0 {
        None
    } else if m.vertex_normals.len() > 0 {
        Some(2)
    } else {
        Some(1)
    }
}

/// The corners that the words for a run of triangles give if only their vertices are read.
pub open spec fn listed_vertices(m: MeshView, run: Run) -> Seq<Corner> {
    let w = text::words(dae_tree::corners(m, run), 0);
    dae_mesh::listed_corners(
        dae_geom::unsigned_in(w, w.len() as int),
        dae_numbers::stride(m.vertex_normals.len() > 0, m.texcoords.len() > 0),
        Some(0),
        None,
        None,
    )
}

/// The words that are written for a run of triangles are read as its triangles, corner by corner, be
/// it with normals and texture points or with vertices only.
pub proof fn written_corners_are_read(m: MeshView, run: Run)
    requires
        0 <= run.start <= m.indices.len(),
        run.count >= 0,
    ensures
        ({
            let tris = run_triangles(m, run);
            let w = text::words(dae_tree::corners(m, run), 0);
            dae_mesh::listed_corners(
                dae_geom::unsigned_in(w, w.len() as int),
                dae_numbers::stride(m.vertex_normals.len() > 0, m.texcoords.len() > 0),
                Some(0),
                normal_place(m),
                texcoord_place(m),
            ) == Seq::new(3 * tris.len(), |c: int| plain_corner(m, dae_numbers::corner_vertex(tris, c)))
        }),
        ({
            let tris = run_triangles(m, run);
            listed_vertices(m, run) == Seq::new(
                3 * tris.len(),
                |c: int| (dae_numbers::corner_vertex(tris, c) as usize, usize::MAX, usize::MAX),
            )
        }),
{
    let tris = run_triangles(m, run);
    let normals = m.vertex_normals.len() > 0;
    let texcoords = m.texcoords.len() > 0;
    let d = dae_numbers::stride(normals, texcoords);
    let s = dae_tree::corners(m, run);
    let n = 3 * tris.len() as int;
    dae_numbers::corners_count(tris, n, normals, texcoords);
    let x = |i: int| dae_numbers::corner_vertex(tris, i / d);
    assert(dae_numbers::text_counts(s, d * n, x));
    assert forall|c: int| 0 <= c < d * n implies 0 <= #[trigger] x(c) <= usize::MAX by {}
    assert(d * n >= 0) by (nonlinear_arith)
        requires
            d > 0,
            n >= 0,
    ;
    dae_numbers::counts_are_read(s, d * n, x);
    let w = text::words(s, 0);
    let p = dae_geom::unsigned_in(w, w.len() as int);
    assert(p =~= Seq::new((d * n) as nat, |c: int| x(c) as usize));
    let got = dae_mesh::listed_corners(p, d, Some(0), normal_place(m), texcoord_place(m));
    let want = Seq::new(
        3 * tris.len(),
        |c: int| plain_corner(m, dae_numbers::corner_vertex(tris, c)),
    );
    assert((d * n) / (3 * d) == tris.len()) by (nonlinear_arith)
        requires
            n == 3 * tris.len(),
            d > 0,
    ;
    assert(got.len() == want.len());
    assert forall|c: int| 0 <= c < want.len() implies got[c] == want[c] by {
        assert(0 <= c * d && c * d + d <= d * n) by (nonlinear_arith)
            requires
                0 <= c < n,
                d > 0,
        ;
        assert forall|o: int| 0 <= o < d implies #[trigger] p[c * d + o] == dae_numbers::corner_vertex(
            tris,
            c,
        ) as usize by {
            assert((c * d + o) / d == c) by (nonlinear_arith)
                requires
                    0 <= o < d,
            ;
            assert(p[c * d + o] == x(c * d + o) as usize);
        }
        assert(p[c * d + 0] == dae_numbers::corner_vertex(tris, c) as usize);
        assert(d > 1 ==> p[c * d + 1] == dae_numbers::corner_vertex(tris, c) as usize);
        assert(d > 2 ==> p[c * d + 2] == dae_numbers::corner_vertex(tris, c) as usize);
    }
    assert(got =~= want);
    let bare = listed_vertices(m, run);
    let vertices = Seq::new(
        3 * tris.len(),
        |c: int| (dae_numbers::corner_vertex(tris, c) as usize, usize::MAX, usize::MAX),
    );
    assert(bare.len() == vertices.len());
    assert forall|c: int| 0 <= c < vertices.len() implies bare[c] == vertices[c] by {
        assert(got[c] == want[c]);
        assert(got[c].0 == p[c * d + 0]);
    }
    assert(bare =~= vertices);
}

/// The triangles that are read of the words for a run of triangles, as `dae_mesh::build_triangles_from_p`
/// reads the vertices, are those of the run in their order.
pub proof fn written_triangles_are_read(m: MeshView, run: Run, r: Seq<[usize; 9]>)
    requires
        0 <= run.start <= m.indices.len(),
        run.count >= 0,
        dae_mesh::corners(r) == listed_vertices(m, run),
    ensures
        r.len() == run_triangles(m, run).len(),
        forall|t: int|
            0 <= t < r.len() ==> {
                let tri = run_triangles(m, run)[t];
                (#[trigger] r[t])[0] == tri[0] && r[t][3] == tri[1] && r[t][6] == tri[2]
            },
{
    written_corners_are_read(m, run);
    let tris = run_triangles(m, run);
    let c = dae_mesh::corners(r);
    assert(c.len() == 3 * tris.len());
    assert forall|t: int| 0 <= t < r.len() implies {
        let tri = tris[t];
        (#[trigger] r[t])[0] == tri[0] && r[t][3] == tri[1] && r[t][6] == tri[2]
    } by {
        assert(c[3 * t].0 == r[t][0]);
        assert(c[3 * t + 1].0 == r[t][3]);
        assert(c[3 * t + 2].0 == r[t][6]);
        assert(c[3 * t].0 == dae_numbers::corner_vertex(tris, 3 * t) as usize);
        assert(c[3 * t + 1].0 == dae_numbers::corner_vertex(tris, 3 * t + 1) as usize);
        assert(c[3 * t + 2].0 == dae_numbers::corner_vertex(tris, 3 * t + 2) as usize);
    }
}

proof fn corners_are_read(nodes: Seq<NodeView>, m: MeshView, id: Seq<char>, run: Run, prim: int)
    requires
        id.len() > 0,
        id[0] == 'm',
        0 <= run.start <= m.indices.len(),
        run.count >= 0,
        element::holds(nodes, prim, dae_tree::triangles(id, m, run)),
    ensures
        ({
            let tris = run_triangles(m, run);
            dae_geom::primitive_corners(nodes, input_views(id, m), prim) == Seq::new(
                3 * tris.len(),
                |c: int| plain_corner(m, dae_numbers::corner_vertex(tris, c)),
            )
        }),
{
    let e = dae_tree::triangles(id, m, run);
    let last = input_views(id, m).len() as int;
    places_are_read(id, m);
    reveal_strlit("p");
    reveal_strlit("input");
    assert("p"@.len() != "input"@.len());
    assert(e.children.len() == last + 1);
    assert(e.children[last].tag == "p"@);
    assert forall|c: int| 0 <= c < last implies (#[trigger] e.children[c]).tag != "p"@ by {
        assert(e.children[c].tag == "input"@);
    }
    element::child_text_is_found(nodes, prim, e, "p"@, last);
    written_corners_are_read(m, run);
    let s = dae_tree::corners(m, run);
    let w = text::words(s, 0);
    if s.len() == 0 {
        words::blank_has_no_words(s);
    }
    assert(dae_geom::indices_of(nodes, prim, "p"@) =~= dae_geom::unsigned_in(w, w.len() as int));
    assert(nodes[prim].tag == "triangles"@);
}

proof fn primitive_is_read(nodes: Seq<NodeView>, m: MeshView, i: int, run: Run, prim: int)
    requires
        0 <= run.start <= m.indices.len(),
        run.count >= 0,
        element::holds(nodes, prim, dae_tree::triangles(dae_text::mesh_id(i), m, run)),
    ensures
        dae_geom::primitive(
            nodes,
            (Sources {
                lists: named_lists(dae_text::mesh_id(i), m),
                positions: dae_text::mesh_id(i) + "-vertices"@,
            }),
            dae_text::mesh_id(i),
            "Z_UP"@,
            prim,
        ) == plain_geometry(m, i, run),
{
    let id = dae_text::mesh_id(i);
    id_is_plain(i);
    inputs_are_read(nodes, m, id, run, prim);
    corners_are_read(nodes, m, id, run, prim);
    places_are_read(id, m);
    list_names_differ(id);
    let views = input_views(id, m);
    let l = named_lists(id, m);
    let at = l.len() - 1;
    dae_looks::sole_entry(l, id + "-vertices"@, at);
    points_come_back(m.vertices);
    if m.vertex_normals.len() > 0 {
        dae_looks::sole_entry(l, id + "-normals"@, 1);
        points_come_back(as_points(m.vertex_normals));
        assert(as_points(m.vertex_normals).map_values(|p: Point3| dae_mesh::as_vector(p)) =~= m.vertex_normals);
    } else {
        assert(m.vertex_normals =~= Seq::empty());
        assert(dae_mesh::points(Seq::empty(), "Z_UP"@).map_values(|p: Point3| dae_mesh::as_vector(p))
            =~= m.vertex_normals);
    }
    if m.texcoords.len() > 0 {
        dae_looks::sole_entry(l, id + "-texcoords"@, 2);
        texture_points_come_back(m.texcoords);
    } else {
        assert(m.texcoords =~= Seq::empty());
        assert(dae_mesh::texture_points(Seq::empty()) =~= m.texcoords);
    }
    let e = dae_tree::triangles(id, m, run);
    reveal_strlit("count");
    reveal_strlit("material");
    assert("count"@.len() != "material"@.len());
    if run.material is Some {
        element::attribute_is_found(nodes[prim], e, "material"@, 1);
    } else {
        element::attribute_is_missing(nodes[prim], e, "material"@);
    }
}

pub open spec fn primitive_entry(nodes: Seq<NodeView>, s: Sources, id: Seq<char>, j: int) -> Option<RawView> {
    if dae_geom::is_primitive(nodes[j].tag) {
        Some(dae_geom::primitive(nodes, s, id, "Z_UP"@, j))
    } else {
        None
    }
}

proof fn primitives_gathered(nodes: Seq<NodeView>, s: Sources, id: Seq<char>, mesh: int, n: int)
    requires
        0 <= n <= nodes.len(),
    ensures
        dae_geom::primitives_in(nodes, s, id, "Z_UP"@, mesh, n) == element::gathered(
            element::members_in(nodes, mesh, n),
            |j: int| primitive_entry(nodes, s, id, j),
            element::members_in(nodes, mesh, n).len() as int,
        ),
    decreases n,
{
    reveal_strlit("triangles");
    reveal_strlit("polylist");
    if n > 0 {
        primitives_gathered(nodes, s, id, mesh, n - 1);
        element::gathered_on(nodes, mesh, |j: int| primitive_entry(nodes, s, id, j), n);
    }
}

proof fn geometry_is_read<K: RealText + FilePaths>(
    k: &K,
    dir: &str,
    nodes: Seq<NodeView>,
    r: ReadingsView,
    m: MeshView,
    t: NumberTexts,
    i: int,
    run: Run,
    j: int,
)
    requires
        collada::nodes_read(k, dir, nodes, r),
        dae_numbers::prints_plainly(k),
        dae_numbers::reads_back(k),
        dae_text::is_mesh_text(k, m, t),
        dae_numbers::is_finite(m),
        0 <= run.start <= m.indices.len(),
        run.count >= 0,
        element::holds(nodes, j, dae_tree::geometry(dae_text::mesh_id(i), m, t, run)),
    ensures
        nodes[j].tag == "geometry"@,
        nodes[j].attribute_or_empty("id"@) == dae_text::mesh_id(i),
        xml::child(nodes, j, "mesh"@) matches Some(x) && dae_geom::primitives_in(
            nodes,
            dae_geom::sources(nodes, r, x),
            dae_text::mesh_id(i),
            "Z_UP"@,
            x,
            nodes.len() as int,
        ) == seq![plain_geometry(m, i, run)],
{
    let n = nodes.len() as int;
    let id = dae_text::mesh_id(i);
    let e = dae_tree::geometry(dae_text::mesh_id(i), m, t, run);
    id_is_plain(i);
    reveal_strlit("mesh");
    element::attribute_is_found(nodes[j], e, "id"@, 0);
    let me = dae_tree::mesh(id, m, t, run);
    assert(e.children[0] == me);
    element::child_is_found(nodes, j, e, "mesh"@, 0);
    let x = element::members(nodes, j)[0];
    sources_are_read(k, dir, nodes, r, m, t, id, run, x);
    let s = dae_geom::sources(nodes, r, x);
    primitives_gathered(nodes, s, id, x, n);
    let list = element::members(nodes, x);
    let f = |y: int| primitive_entry(nodes, s, id, y);
    reveal_strlit("source");
    reveal_strlit("vertices");
    reveal_strlit("triangles");
    reveal_strlit("polylist");
    assert("vertices"@[0] != "polylist"@[0]);
    let last = vertices_place(m) + 1;
    assert(me.children.len() == last + 1);
    assert forall|c: int| 0 <= c < last implies f(#[trigger] list[c]) is None by {
        assert(element::holds(nodes, element::members(nodes, x)[c], me.children[c]));
        assert(me.children[c].tag == "source"@ || me.children[c].tag == "vertices"@);
        assert(nodes[list[c]].tag == me.children[c].tag);
    }
    assert(element::holds(nodes, element::members(nodes, x)[last], me.children[last]));
    assert(me.children[last] == dae_tree::triangles(id, m, run));
    primitive_is_read(nodes, m, i, run, list[last]);
    assert(f(list[last]) == Some(plain_geometry(m, i, run)));
    element::rest_is_not_gathered(list, f, last, 0);
    assert(element::gathered(list, f, last) =~= Seq::empty());
    assert(element::gathered(list, f, last + 1) =~= seq![plain_geometry(m, i, run)]);
}

proof fn geometries_gathered(nodes: Seq<NodeView>, r: ReadingsView, lib: int, n: int, g: spec_fn(int) -> RawView)
    requires
        0 <= n <= nodes.len(),
        forall|j: int|
            0 <= j < nodes.len() && #[trigger] element::is_member(nodes, lib, j) ==> nodes[j].tag == "geometry"@ && (
            xml::child(nodes, j, "mesh"@) matches Some(x) && dae_geom::primitives_in(
                nodes,
                dae_geom::sources(nodes, r, x),
                nodes[j].attribute_or_empty("id"@),
                "Z_UP"@,
                x,
                nodes.len() as int,
            ) == seq![g(j)]),
    ensures
        dae_geom::geometries_in(nodes, r, "Z_UP"@, lib, n) == element::gathered(
            element::members_in(nodes, lib, n),
            |j: int| Some(g(j)),
            element::members_in(nodes, lib, n).len() as int,
        ),
    decreases n,
{
    reveal_strlit("geometry");
    if n > 0 {
        geometries_gathered(nodes, r, lib, n - 1, g);
        let f = |j: int| Some(g(j));
        element::gathered_on(nodes, lib, f, n);
        let rest = dae_geom::geometries_in(nodes, r, "Z_UP"@, lib, n - 1);
        if element::is_member(nodes, lib, n - 1) {
            assert(rest + seq![g(n - 1)] =~= rest.push(g(n - 1)));
            assert(f(n - 1) == Some(g(n - 1)));
        }
    }
}

/// Whether the runs begin within the list of triangles.
pub open spec fn runs_begin_within(m: MeshView) -> bool {
    forall|i: int| 0 <= i < m.submeshes.len() ==> (#[trigger] m.submeshes[i]).tri_start <= m.indices.len()
}

/// The up axis of a written document is z.
pub proof fn axis_is_read(nodes: Seq<NodeView>, m: MeshView, t: NumberTexts)
    requires
        element::is_document(nodes, dae_tree::document_tree(m, t)),
    ensures
        dae_read::up_axis(nodes) == "Z_UP"@,
{
    dae_looks::parts_are_found(nodes, m, t);
    let a = element::members(nodes, dae_read::root(nodes))[0];
    reveal_strlit("up_axis");
    reveal_strlit("Z_UP");
    let e = dae_tree::asset();
    assert(e.children[0].tag == "up_axis"@);
    element::child_text_is_found(nodes, a, e, "up_axis"@, 0);
}

/// The geometries of a written document come back.
pub proof fn geometries_are_read<K: RealText + FilePaths>(
    k: &K,
    dir: &str,
    nodes: Seq<NodeView>,
    r: ReadingsView,
    m: MeshView,
    t: NumberTexts,
)
    requires
        element::is_document(nodes, dae_tree::document_tree(m, t)),
        collada::nodes_read(k, dir, nodes, r),
        dae_numbers::prints_plainly(k),
        dae_numbers::reads_back(k),
        dae_text::is_mesh_text(k, m, t),
        dae_numbers::is_finite(m),
        runs_begin_within(m),
    ensures
        dae_geom::geometries(nodes, r, "Z_UP"@) == Seq::new(
            dae_tree::runs(m).len(),
            |i: int| plain_geometry(m, i, dae_tree::runs(m)[i]),
        ),
{
    let n = nodes.len() as int;
    dae_looks::parts_are_found(nodes, m, t);
    let lib = element::members(nodes, dae_read::root(nodes))[dae_looks::part(m, 3)];
    let e = dae_tree::library_geometries(m, t);
    let list = element::members(nodes, lib);
    let runs = dae_tree::runs(m);
    element::members_are(nodes, lib, n);
    let g = |j: int| {
        let c = choose|c: int| 0 <= c < list.len() && list[c] == j;
        plain_geometry(m, c, runs[c])
    };
    assert forall|c: int| 0 <= c < list.len() implies g(#[trigger] list[c]) == plain_geometry(m, c, runs[c]) by {
        let d = choose|d: int| 0 <= d < list.len() && list[d] == list[c];
        if d < c {
            assert(list[d] < list[c]);
        } else if c < d {
            assert(list[c] < list[d]);
        }
    }
    assert forall|j: int| 0 <= j < nodes.len() && #[trigger] element::is_member(nodes, lib, j) implies nodes[j].tag
        == "geometry"@ && (xml::child(nodes, j, "mesh"@) matches Some(x) && dae_geom::primitives_in(
        nodes,
        dae_geom::sources(nodes, r, x),
        nodes[j].attribute_or_empty("id"@),
        "Z_UP"@,
        x,
        nodes.len() as int,
    ) == seq![g(j)]) by {
        let c = element::member_is_listed(nodes, lib, n, j);
        assert(element::holds(nodes, element::members(nodes, lib)[c], e.children[c]));
        assert(e.children[c] == dae_tree::geometry(dae_text::mesh_id(c), m, t, runs[c]));
        assert(0 <= runs[c].start <= m.indices.len() && runs[c].count >= 0) by {
            if m.submeshes.len() > 0 {
                assert(m.submeshes[c].tri_start <= m.indices.len());
            }
        }
        geometry_is_read(k, dir, nodes, r, m, t, c, runs[c], j);
        assert(g(list[c]) == plain_geometry(m, c, runs[c]));
    }
    geometries_gathered(nodes, r, lib, n, g);
    let f = |j: int| Some(g(j));
    element::all_gathered(list, f, list.len() as int);
    let all = element::gathered(list, f, list.len() as int);
    assert(dae_geom::geometries(nodes, r, "Z_UP"@) == all);
    let want = Seq::new(runs.len(), |i: int| plain_geometry(m, i, runs[i]));
    assert forall|c: int| 0 <= c < want.len() implies all[c] == want[c] by {
        assert(f(list[c]) == Some(g(list[c])));
        assert(g(list[c]) == plain_geometry(m, c, runs[c]));
    }
    assert(all =~= want);
}

} // verus!
