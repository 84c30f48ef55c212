//! Planar rings on an integer grid and their shoelace area.
//!
//! A coordinate is a signed 32-bit grid position (a caller scales degrees
//! to whatever resolution it wants). A ring is the sequence of its
//! vertices, taken as a cycle: the edge from the last vertex back to the
//! first belongs to it, so a ring that repeats its first vertex at the
//! end and one that does not have the same area.

use vstd::prelude::*;

verus! {

/// A vertex on the grid.
#[derive(Clone, Copy, Debug, PartialEq, Eq, Structural)]
pub struct Point {
    pub x: i32,
    pub y: i32,
}

/// A polygon: its outer boundary and the boundaries of its holes.
#[derive(Debug)]
pub struct Polygon {
    pub exterior: Vec<Point>,
    pub interiors: Vec<Vec<Point>>,
}

/// What a polygon is: the vertex sequences of its rings.
pub struct PolygonModel {
    pub exterior: Seq<Point>,
    pub interiors: Seq<Seq<Point>>,
}

/// The vertex sequences of a list of rings.
pub open spec fn rings_view(rings: Seq<Vec<Point>>) -> Seq<Seq<Point>> {
    Seq::new(rings.len(), |i: int| rings[i]@)
}

impl View for Polygon {
    type V = PolygonModel;

    open spec fn view(&self) -> PolygonModel {
        PolygonModel { exterior: self.exterior@, interiors: rings_view(self.interiors@) }
    }
}

/// The models of a list of polygons.
pub open spec fn polygons_view(polygons: Seq<Polygon>) -> Seq<PolygonModel> {
    Seq::new(polygons.len(), |i: int| polygons[i]@)
}

/// The geometry of one feature of a geometry document.
#[derive(Debug)]
pub enum Shape {
    /// A single polygon.
    Polygon(Polygon),
    /// Several polygons that make up one feature.
    MultiPolygon(Vec<Polygon>),
    /// A point, a line or any other kind that has no outline to draw.
    Other,
    /// A geometry that could not be turned into vertices.
    Unconvertible,
}

/// What a shape is.
pub enum ShapeModel {
    Polygon(PolygonModel),
    MultiPolygon(Seq<PolygonModel>),
    Other,
    Unconvertible,
}

impl View for Shape {
    type V = ShapeModel;

    open spec fn view(&self) -> ShapeModel {
        match *self {
            Shape::Polygon(p) => ShapeModel::Polygon(p@),
            Shape::MultiPolygon(polygons) => ShapeModel::MultiPolygon(polygons_view(polygons@)),
            Shape::Other => ShapeModel::Other,
            Shape::Unconvertible => ShapeModel::Unconvertible,
        }
    }
}

/// One feature of a geometry document: the display name it carries, if
/// it carries one, and its geometry, if it has one.
#[derive(Debug)]
pub struct Feature {
    pub name: Option<String>,
    pub geometry: Option<Shape>,
}

/// What a feature is.
pub struct FeatureModel {
    pub name: Option<Seq<char>>,
    pub geometry: Option<ShapeModel>,
}

impl View for Feature {
    type V = FeatureModel;

    open spec fn view(&self) -> FeatureModel {
        FeatureModel {
            name: match self.name {
                Some(n) => Some(n@),
                None => None,
            },
            geometry: match self.geometry {
                Some(g) => Some(g@),
                None => None,
            },
        }
    }
}

/// The models of a list of features.
pub open spec fn features_view(features: Seq<Feature>) -> Seq<FeatureModel> {
    Seq::new(features.len(), |i: int| features[i]@)
}

/// A parsed geometry document.
#[derive(Debug)]
pub enum GeoDocument {
    /// A collection of features, the only kind that yields a map.
    FeatureCollection(Vec<Feature>),
    /// A single feature or a bare geometry.
    Other,
}

/// What a geometry document is.
pub enum DocumentModel {
    FeatureCollection(Seq<FeatureModel>),
    Other,
}

impl View for GeoDocument {
    type V = DocumentModel;

    open spec fn view(&self) -> DocumentModel {
        match *self {
            GeoDocument::FeatureCollection(features) => DocumentModel::FeatureCollection(
                features_view(features@),
            ),
            GeoDocument::Other => DocumentModel::Other,
        }
    }
}

/// The cross product of two vertices taken as vectors from the origin.
pub open spec fn cross(a: Point, b: Point) -> int {
    a.x * b.y - b.x * a.y
}

/// The index of the vertex that follows vertex `i` in a cycle of `n`.
pub open spec fn following(i: int, n: int) -> int {
    if i + 1 < n {
        i + 1
    } else {
        0
    }
}

/// The cross product along the edge that leaves vertex `i` of the cycle.
pub open spec fn edge(ring: Seq<Point>, i: int) -> int {
    cross(ring[i], ring[following(i, ring.len() as int)])
}

/// The edge terms of a ring, one per vertex.
pub open spec fn edges(ring: Seq<Point>) -> Seq<int> {
    Seq::new(ring.len(), |i: int| edge(ring, i))
}

/// The sum of a sequence of integers.
pub open spec fn total(s: Seq<int>) -> int
    decreases s.len(),
{
    if s.len() == 0 {
        0
    } else {
        total(s.drop_last()) + s.last()
    }
}

/// The signed shoelace sum of a ring: twice its signed area.
pub open spec fn shoelace(ring: Seq<Point>) -> int {
    total(edges(ring))
}

/// Twice the area that a ring encloses.
pub open spec fn doubled_area(ring: Seq<Point>) -> nat {
    let s = shoelace(ring);
    if s < 0 {
        (-s) as nat
    } else {
        s as nat
    }
}

/// The ring that starts at vertex `k` of `ring` and runs once round.
pub open spec fn rotated(ring: Seq<Point>, k: int) -> Seq<Point> {
    ring.subrange(k, ring.len() as int) + ring.subrange(0, k)
}

proof fn lemma_total_concat(a: Seq<int>, b: Seq<int>)
    ensures
        total(a + b) == total(a) + total(b),
    decreases b.len(),
{
    if b.len() == 0 {
        assert(a + b == a);
    } else {
        lemma_total_concat(a, b.drop_last());
        assert((a + b).drop_last() == a + b.drop_last());
    }
}

proof fn lemma_total_reverse(a: Seq<int>)
    ensures
        total(a.reverse()) == total(a),
    decreases a.len(),
{
    if a.len() > 0 {
        let head = seq![a.last()];
        lemma_total_reverse(a.drop_last());
        assert(a.reverse() =~= head + a.drop_last().reverse());
        lemma_total_concat(head, a.drop_last().reverse());
        assert(head.drop_last() =~= Seq::<int>::empty());
        assert(total(head.drop_last()) == 0);
        assert(total(head) == a.last());
    }
}

proof fn lemma_total_negated(a: Seq<int>, b: Seq<int>)
    requires
        a.len() == b.len(),
        forall|i: int| 0 <= i < a.len() ==> a[i] == -b[i],
    ensures
        total(a) == -total(b),
    decreases a.len(),
{
    if a.len() > 0 {
        lemma_total_negated(a.drop_last(), b.drop_last());
    }
}

/// The shoelace sum does not depend on the vertex a ring starts from.
pub proof fn lemma_shoelace_rotation(ring: Seq<Point>, k: int)
    requires
        0 <= k <= ring.len(),
    ensures
        shoelace(rotated(ring, k)) == shoelace(ring),
{
    let n = ring.len() as int;
    let e = edges(ring);
    let r = rotated(ring, k);
    let front = e.subrange(0, k);
    let back = e.subrange(k, n);
    assert forall|i: int| 0 <= i < n implies #[trigger] edges(r)[i] == (back + front)[i] by {
        let j = if i < n - k { i + k } else { i + k - n };
        let i1 = following(i, n);
        let j1 = following(j, n);
        assert(r[i] == ring[j]);
        assert(r[i1] == ring[j1]);
    }
    assert(edges(r) == back + front);
    assert(e == front + back);
    lemma_total_concat(front, back);
    lemma_total_concat(back, front);
}

/// Walking a ring the other way round negates its shoelace sum.
pub proof fn lemma_shoelace_reversal(ring: Seq<Point>)
    ensures
        shoelace(ring.reverse()) == -shoelace(ring),
{
    let n = ring.len() as int;
    if n > 0 {
        let e = edges(ring);
        let r = ring.reverse();
        let turned = (e.subrange(n - 1, n) + e.subrange(0, n - 1)).reverse();
        assert forall|i: int| 0 <= i < n implies #[trigger] edges(r)[i] == -turned[i] by {
            let i1 = following(i, n);
            let j = if i < n - 1 { n - 2 - i } else { n - 1 };
            let j1 = following(j, n);
            assert(turned[i] == e[j]);
            assert(r[i] == ring[j1]);
            assert(r[i1] == ring[j]);
        }
        lemma_total_negated(edges(r), turned);
        lemma_total_reverse(e.subrange(n - 1, n) + e.subrange(0, n - 1));
        lemma_total_concat(e.subrange(n - 1, n), e.subrange(0, n - 1));
        lemma_total_concat(e.subrange(0, n - 1), e.subrange(n - 1, n));
        assert(e == e.subrange(0, n - 1) + e.subrange(n - 1, n));
    } else {
        assert(edges(ring.reverse()) == edges(ring));
    }
}

/// The area of a ring is the same from whichever vertex the ring is
/// written down.
pub proof fn area_invariant_under_rotation(ring: Seq<Point>, k: int)
    requires
        0 <= k <= ring.len(),
    ensures
        doubled_area(rotated(ring, k)) == doubled_area(ring),
{
    lemma_shoelace_rotation(ring, k);
}

/// The area of a ring is the same in whichever direction the ring is
/// walked.
pub proof fn area_invariant_under_reversal(ring: Seq<Point>)
    ensures
        doubled_area(ring.reverse()) == doubled_area(ring),
{
    lemma_shoelace_reversal(ring);
}

proof fn lemma_cross_bound(a: Point, b: Point)
    ensures
        -0x8000_0000_0000_0000 <= cross(a, b) <= 0x8000_0000_0000_0000,
{
    let ax = a.x as int;
    let ay = a.y as int;
    let bx = b.x as int;
    let by = b.y as int;
    assert(-0x4000_0000_0000_0000 <= ax * by <= 0x4000_0000_0000_0000) by (nonlinear_arith)
        requires
            -0x8000_0000 <= ax <= 0x8000_0000,
            -0x8000_0000 <= by <= 0x8000_0000,
    ;
    assert(-0x4000_0000_0000_0000 <= bx * ay <= 0x4000_0000_0000_0000) by (nonlinear_arith)
        requires
            -0x8000_0000 <= bx <= 0x8000_0000,
            -0x8000_0000 <= ay <= 0x8000_0000,
    ;
}

/// Twice the area enclosed by `ring`, by the shoelace formula over the
/// cycle of its vertices.
pub fn ring_doubled_area(ring: &Vec<Point>) -> (area: u128)
    ensures
        area == doubled_area(ring@),
{
    let n = ring.len();
    let mut acc: i128 = 0;
    let mut i: usize = 0;
    while i < n
        invariant
            n == ring.len(),
            i <= n,
            acc == total(edges(ring@).take(i as int)),
            -(i as int) * 0x8000_0000_0000_0000 <= acc <= (i as int) * 0x8000_0000_0000_0000,
        decreases n - i,
    {
        let a = ring[i];
        let b = if i + 1 < n {
            ring[i + 1]
        } else {
            ring[0]
        };
        proof {
            lemma_cross_bound(a, b);
            let e = edges(ring@);
            assert(e.take(i + 1).drop_last() == e.take(i as int));
            assert(e.take(i + 1).last() == cross(a, b));
            assert((i as int) * 0x8000_0000_0000_0000 + 0x8000_0000_0000_0000 == (i + 1)
                * 0x8000_0000_0000_0000) by (nonlinear_arith);
            assert((i + 1) * 0x8000_0000_0000_0000 <= 0xffff_ffff_ffff_ffff
                * 0x8000_0000_0000_0000) by (nonlinear_arith)
                requires
                    i + 1 <= 0xffff_ffff_ffff_ffff,
            ;
        }
        let ax: i128 = a.x as i128;
        let ay: i128 = a.y as i128;
        let bx: i128 = b.x as i128;
        let by: i128 = b.y as i128;
        assert(-0x4000_0000_0000_0000 <= ax * by <= 0x4000_0000_0000_0000) by (nonlinear_arith)
            requires
                -0x8000_0000 <= ax <= 0x8000_0000,
                -0x8000_0000 <= by <= 0x8000_0000,
        ;
        assert(-0x4000_0000_0000_0000 <= bx * ay <= 0x4000_0000_0000_0000) by (nonlinear_arith)
            requires
                -0x8000_0000 <= bx <= 0x8000_0000,
                -0x8000_0000 <= ay <= 0x8000_0000,
        ;
        let term: i128 = ax * by - bx * ay;
        acc = acc + term;
        i += 1;
    }
    assert(edges(ring@).take(n as int) == edges(ring@));
    if acc < 0 {
        (-acc) as u128
    } else {
        acc as u128
    }
}

/// A copy of a ring.
pub fn copy_ring(ring: &Vec<Point>) -> (r: Vec<Point>)
    ensures
        r@ == ring@,
{
    let mut out: Vec<Point> = Vec::new();
    let mut i: usize = 0;
    while i < ring.len()
        invariant
            i <= ring.len(),
            out@ == ring@.take(i as int),
        decreases ring.len() - i,
    {
        out.push(ring[i]);
        assert(ring@.take(i + 1) == ring@.take(i as int).push(ring@[i as int]));
        i += 1;
    }
    assert(ring@.take(ring@.len() as int) == ring@);
    out
}

/// A copy of a polygon, ring by ring.
pub fn copy_polygon(polygon: &Polygon) -> (r: Polygon)
    ensures
        r@ == polygon@,
{
    let exterior = copy_ring(&polygon.exterior);
    let mut interiors: Vec<Vec<Point>> = Vec::new();
    let mut i: usize = 0;
    while i < polygon.interiors.len()
        invariant
            i <= polygon.interiors.len(),
            rings_view(interiors@) == rings_view(polygon.interiors@).take(i as int),
        decreases polygon.interiors.len() - i,
    {
        let ghost before = interiors@;
        interiors.push(copy_ring(&polygon.interiors[i]));
        assert(rings_view(interiors@) =~= rings_view(before).push(polygon.interiors@[i as int]@));
        assert(rings_view(polygon.interiors@).take(i + 1) =~= rings_view(polygon.interiors@).take(
            i as int,
        ).push(polygon.interiors@[i as int]@));
        i += 1;
    }
    assert(rings_view(polygon.interiors@).take(polygon.interiors@.len() as int) == rings_view(
        polygon.interiors@,
    ));
    Polygon { exterior, interiors }
}

/// A copy of a list of polygons.
pub fn copy_polygons(polygons: &Vec<Polygon>) -> (r: Vec<Polygon>)
    ensures
        polygons_view(r@) == polygons_view(polygons@),
{
    let mut out: Vec<Polygon> = Vec::new();
    let mut i: usize = 0;
    while i < polygons.len()
        invariant
            i <= polygons.len(),
            polygons_view(out@) == polygons_view(polygons@).take(i as int),
        decreases polygons.len() - i,
    {
        let ghost before = out@;
        out.push(copy_polygon(&polygons[i]));
        assert(polygons_view(out@) =~= polygons_view(before).push(polygons@[i as int]@));
        assert(polygons_view(polygons@).take(i + 1) =~= polygons_view(polygons@).take(
            i as int,
        ).push(polygons@[i as int]@));
        i += 1;
    }
    assert(polygons_view(polygons@).take(polygons@.len() as int) == polygons_view(polygons@));
    out
}

/// A copy of a feature.
pub fn copy_feature(feature: &Feature) -> (r: Feature)
    ensures
        r@ == feature@,
{
    let name = match &feature.name {
        Some(n) => Some(n.clone()),
        None => None,
    };
    let geometry = match &feature.geometry {
        Some(Shape::Polygon(p)) => Some(Shape::Polygon(copy_polygon(p))),
        Some(Shape::MultiPolygon(polygons)) => Some(Shape::MultiPolygon(copy_polygons(polygons))),
        Some(Shape::Other) => Some(Shape::Other),
        Some(Shape::Unconvertible) => Some(Shape::Unconvertible),
        None => None,
    };
    Feature { name, geometry }
}

/// A copy of a geometry document.
pub fn copy_document(document: &GeoDocument) -> (r: GeoDocument)
    ensures
        r@ == document@,
{
    match document {
        GeoDocument::FeatureCollection(features) => {
            let mut out: Vec<Feature> = Vec::new();
            let mut i: usize = 0;
            while i < features.len()
                invariant
                    i <= features.len(),
                    features_view(out@) == features_view(features@).take(i as int),
                decreases features.len() - i,
            {
                let ghost before = out@;
                out.push(copy_feature(&features[i]));
                assert(features_view(out@) =~= features_view(before).push(features@[i as int]@));
                assert(features_view(features@).take(i + 1) =~= features_view(features@).take(
                    i as int,
                ).push(features@[i as int]@));
                i += 1;
            }
            assert(features_view(features@).take(features@.len() as int) == features_view(
                features@,
            ));
            GeoDocument::FeatureCollection(out)
        },
        GeoDocument::Other => GeoDocument::Other,
    }
}

/// The largest doubled exterior area among `polygons`; 0 for none.
pub open spec fn largest_area(polygons: Seq<PolygonModel>) -> nat
    decreases polygons.len(),
{
    if polygons.len() == 0 {
        0
    } else {
        let rest = largest_area(polygons.drop_last());
        let last = doubled_area(polygons.last().exterior);
        if last > rest {
            last
        } else {
            rest
        }
    }
}

/// Whether a polygon is large enough beside the largest one: its area is
/// at least a fifth of `largest`.
pub open spec fn is_kept(polygon: PolygonModel, largest: nat) -> bool {
    5 * doubled_area(polygon.exterior) >= largest
}

/// The polygons that are large enough, in their order.
pub open spec fn kept(polygons: Seq<PolygonModel>, largest: nat) -> Seq<PolygonModel>
    decreases polygons.len(),
{
    if polygons.len() == 0 {
        Seq::empty()
    } else {
        let rest = kept(polygons.drop_last(), largest);
        if is_kept(polygons.last(), largest) {
            rest.push(polygons.last())
        } else {
            rest
        }
    }
}

/// What fragment filtering leaves of a multipolygon: with two polygons or
/// more, those whose area is at least a fifth of the largest area; the
/// polygons as they are if there are fewer, or if none would be left.
pub open spec fn retained(polygons: Seq<PolygonModel>) -> Seq<PolygonModel> {
    if polygons.len() > 1 {
        let large = kept(polygons, largest_area(polygons));
        if large.len() == 0 {
            polygons
        } else {
            large
        }
    } else {
        polygons
    }
}

/// Fragment filtering leaves something exactly when there was something.
pub proof fn retained_nonempty_iff_nonempty(polygons: Seq<PolygonModel>)
    ensures
        retained(polygons).len() > 0 <==> polygons.len() > 0,
{
}

/// No area exceeds the largest, and some polygon has it.
pub proof fn lemma_largest_area(polygons: Seq<PolygonModel>)
    ensures
        forall|i: int|
            0 <= i < polygons.len() ==> doubled_area(#[trigger] polygons[i].exterior)
                <= largest_area(polygons),
        polygons.len() > 0 ==> exists|i: int|
            0 <= i < polygons.len() && doubled_area(#[trigger] polygons[i].exterior)
                == largest_area(polygons),
    decreases polygons.len(),
{
    if polygons.len() > 0 {
        let rest = polygons.drop_last();
        lemma_largest_area(rest);
        assert forall|i: int| 0 <= i < polygons.len() implies doubled_area(
            #[trigger] polygons[i].exterior,
        ) <= largest_area(polygons) by {
            if i < rest.len() {
                assert(rest[i] == polygons[i]);
            }
        }
        if doubled_area(polygons.last().exterior) > largest_area(rest) || rest.len() == 0 {
            let w = polygons.len() - 1;
            assert(doubled_area(polygons[w].exterior) == largest_area(polygons));
        } else {
            let w = choose|i: int|
                0 <= i < rest.len() && doubled_area(#[trigger] rest[i].exterior) == largest_area(
                    rest,
                );
            assert(rest[w] == polygons[w]);
            assert(doubled_area(polygons[w].exterior) == largest_area(polygons));
        }
    }
}

/// A polygon that is large enough is among the kept ones.
pub proof fn lemma_kept_has(polygons: Seq<PolygonModel>, largest: nat, i: int)
    requires
        0 <= i < polygons.len(),
        is_kept(polygons[i], largest),
    ensures
        kept(polygons, largest).contains(polygons[i]),
    decreases polygons.len(),
{
    let k = kept(polygons, largest);
    if i == polygons.len() - 1 {
        assert(k[k.len() - 1] == polygons[i]);
    } else {
        let rest = polygons.drop_last();
        lemma_kept_has(rest, largest, i);
        let kr = kept(rest, largest);
        let j = choose|j: int| 0 <= j < kr.len() && kr[j] == rest[i];
        assert(k[j] == polygons[i]);
    }
}

/// The largest polygon always survives fragment filtering, so the filter
/// by itself never empties a multipolygon.
pub proof fn lemma_largest_is_kept(polygons: Seq<PolygonModel>)
    requires
        polygons.len() > 0,
    ensures
        kept(polygons, largest_area(polygons)).len() > 0,
{
    lemma_largest_area(polygons);
    let w = choose|i: int|
        0 <= i < polygons.len() && doubled_area(#[trigger] polygons[i].exterior) == largest_area(
            polygons,
        );
    lemma_kept_has(polygons, largest_area(polygons), w);
}

/// Whether five times `area` reaches `largest`, without overflow.
fn reaches_fifth(area: u128, largest: u128) -> (b: bool)
    requires
        largest <= 0x8000_0000_0000_0000_0000_0000_0000_0000,
    ensures
        b == (5 * area >= largest),
{
    let floor: u128 = largest / 5;
    let need: u128 = if largest % 5 == 0 {
        floor
    } else {
        floor + 1
    };
    area >= need
}

proof fn lemma_area_bound(ring: Seq<Point>)
    ensures
        doubled_area(ring) <= ring.len() * 0x8000_0000_0000_0000,
{
    assert forall|i: int| 0 <= i < ring.len() implies -0x8000_0000_0000_0000 <= (
    #[trigger] edges(ring)[i]) <= 0x8000_0000_0000_0000 by {
        lemma_cross_bound(ring[i], ring[following(i, ring.len() as int)]);
    }
    lemma_total_bound(edges(ring), 0x8000_0000_0000_0000);
}

proof fn lemma_total_bound(s: Seq<int>, bound: int)
    requires
        forall|i: int| 0 <= i < s.len() ==> -bound <= #[trigger] s[i] <= bound,
    ensures
        -(s.len() * bound) <= total(s) <= s.len() * bound,
    decreases s.len(),
{
    if s.len() > 0 {
        lemma_total_bound(s.drop_last(), bound);
        assert((s.len() - 1) * bound + bound == s.len() * bound) by (nonlinear_arith);
    } else {
        assert(s.len() * bound == 0) by (nonlinear_arith)
            requires
                s.len() == 0,
        ;
    }
}

/// Fragment filtering of a multipolygon: drops the polygons whose area is
/// under a fifth of the largest one's.
pub fn filter_fragments(polygons: &Vec<Polygon>) -> (r: Vec<Polygon>)
    ensures
        polygons_view(r@) == retained(polygons_view(polygons@)),
{
    let n = polygons.len();
    if n <= 1 {
        return copy_polygons(polygons);
    }
    let ghost models = polygons_view(polygons@);
    let mut largest: u128 = 0;
    let mut i: usize = 0;
    while i < n
        invariant
            n == polygons.len(),
            i <= n,
            models == polygons_view(polygons@),
            largest == largest_area(models.take(i as int)),
            largest <= 0x8000_0000_0000_0000_0000_0000_0000_0000,
        decreases n - i,
    {
        let area = ring_doubled_area(&polygons[i].exterior);
        let m = polygons[i].exterior.len();
        proof {
            assert(models.take(i + 1).drop_last() == models.take(i as int));
            assert(models.take(i + 1).last().exterior == polygons@[i as int].exterior@);
            lemma_area_bound(polygons@[i as int].exterior@);
            assert(m * 0x8000_0000_0000_0000 <= 0xffff_ffff_ffff_ffff * 0x8000_0000_0000_0000)
                by (nonlinear_arith)
                requires
                    m <= 0xffff_ffff_ffff_ffff,
            ;
        }
        if area > largest {
            largest = area;
        }
        i += 1;
    }
    assert(models.take(n as int) == models);
    let mut out: Vec<Polygon> = Vec::new();
    let mut j: usize = 0;
    while j < n
        invariant
            n == polygons.len(),
            j <= n,
            models == polygons_view(polygons@),
            largest == largest_area(models),
            largest <= 0x8000_0000_0000_0000_0000_0000_0000_0000,
            polygons_view(out@) == kept(models.take(j as int), largest as nat),
        decreases n - j,
    {
        let area = ring_doubled_area(&polygons[j].exterior);
        proof {
            assert(models.take(j + 1).drop_last() == models.take(j as int));
            assert(models.take(j + 1).last() == polygons@[j as int]@);
        }
        if reaches_fifth(area, largest) {
            let ghost before = out@;
            out.push(copy_polygon(&polygons[j]));
            assert(polygons_view(out@) =~= polygons_view(before).push(polygons@[j as int]@));
        }
        j += 1;
    }
    if out.len() == 0 {
        copy_polygons(polygons)
    } else {
        out
    }
}

} // verus!
