//! The map model: the outlines of one geometry document, their bounding
//! box, and the rule that decides which features a selector highlights.

use crate::data::{membership_map, Continent, DataCache, DataError};
use crate::shape::{
    copy_polygon, filter_fragments, features_view, polygons_view, retained, rings_view,
    DocumentModel, FeatureModel, GeoDocument, Point, Polygon, PolygonModel, Shape, ShapeModel,
};
use crate::text::{find_text, lemma_first_index, same_text, texts};
use vstd::prelude::*;

verus! {

/// A bounding box: the least and the greatest coordinate on each axis.
/// The box of no vertex at all has each least coordinate above its
/// greatest one, which a caller takes as "nothing to draw".
#[derive(Clone, Copy, Debug, PartialEq, Eq, Structural)]
pub struct Bounds {
    pub min_x: i32,
    pub max_x: i32,
    pub min_y: i32,
    pub max_y: i32,
}

/// The box of no vertex.
pub open spec fn empty_bounds() -> Bounds {
    Bounds { min_x: i32::MAX, max_x: i32::MIN, min_y: i32::MAX, max_y: i32::MIN }
}

/// The box `b` widened to hold `p`.
pub open spec fn widened(b: Bounds, p: Point) -> Bounds {
    Bounds {
        min_x: if p.x < b.min_x {
            p.x
        } else {
            b.min_x
        },
        max_x: if p.x > b.max_x {
            p.x
        } else {
            b.max_x
        },
        min_y: if p.y < b.min_y {
            p.y
        } else {
            b.min_y
        },
        max_y: if p.y > b.max_y {
            p.y
        } else {
            b.max_y
        },
    }
}

/// The box `b` widened to hold every vertex of a ring.
pub open spec fn ring_bounds(b: Bounds, ring: Seq<Point>) -> Bounds
    decreases ring.len(),
{
    if ring.len() == 0 {
        b
    } else {
        widened(ring_bounds(b, ring.drop_last()), ring.last())
    }
}

/// The box `b` widened to hold every vertex of some rings.
pub open spec fn rings_bounds(b: Bounds, rings: Seq<Seq<Point>>) -> Bounds
    decreases rings.len(),
{
    if rings.len() == 0 {
        b
    } else {
        ring_bounds(rings_bounds(b, rings.drop_last()), rings.last())
    }
}

/// The box `b` widened to hold a polygon, its holes included.
pub open spec fn polygon_bounds(b: Bounds, polygon: PolygonModel) -> Bounds {
    rings_bounds(ring_bounds(b, polygon.exterior), polygon.interiors)
}

/// The box `b` widened to hold some polygons.
pub open spec fn polygons_bounds(b: Bounds, polygons: Seq<PolygonModel>) -> Bounds
    decreases polygons.len(),
{
    if polygons.len() == 0 {
        b
    } else {
        polygon_bounds(polygons_bounds(b, polygons.drop_last()), polygons.last())
    }
}

/// One entry of a map: a feature's name and its polygons.
#[derive(Debug)]
pub struct MapItem {
    pub name: String,
    pub polygons: Vec<Polygon>,
}

/// What a map entry is.
pub struct ItemModel {
    pub name: Seq<char>,
    pub polygons: Seq<PolygonModel>,
}

impl View for MapItem {
    type V = ItemModel;

    open spec fn view(&self) -> ItemModel {
        ItemModel { name: self.name@, polygons: polygons_view(self.polygons@) }
    }
}

/// The models of a list of map entries.
pub open spec fn items_view(items: Seq<MapItem>) -> Seq<ItemModel> {
    Seq::new(items.len(), |i: int| items[i]@)
}

/// The box `b` widened to hold every entry of a map.
pub open spec fn items_bounds(b: Bounds, items: Seq<ItemModel>) -> Bounds
    decreases items.len(),
{
    if items.len() == 0 {
        b
    } else {
        polygons_bounds(items_bounds(b, items.drop_last()), items.last().polygons)
    }
}

/// The name under which a feature enters a map: the one it carries, or
/// the empty name.
pub open spec fn feature_name(feature: FeatureModel) -> Seq<char> {
    match feature.name {
        Some(name) => name,
        None => Seq::empty(),
    }
}

/// The map entry that a feature yields: its polygons after fragment
/// filtering, or nothing where it has no geometry or one without an
/// outline.
pub open spec fn feature_item(feature: FeatureModel) -> Option<ItemModel> {
    match feature.geometry {
        Some(ShapeModel::Polygon(p)) => Some(
            ItemModel { name: feature_name(feature), polygons: seq![p] },
        ),
        Some(ShapeModel::MultiPolygon(polygons)) => Some(
            ItemModel { name: feature_name(feature), polygons: retained(polygons) },
        ),
        _ => None,
    }
}

/// The entries that a list of features yields, in the features' order.
pub open spec fn feature_items(features: Seq<FeatureModel>) -> Seq<ItemModel>
    decreases features.len(),
{
    if features.len() == 0 {
        Seq::empty()
    } else {
        let rest = feature_items(features.drop_last());
        match feature_item(features.last()) {
            Some(item) => rest.push(item),
            None => rest,
        }
    }
}

/// The features of a document: those of a feature collection, none of any
/// other document.
pub open spec fn document_features(document: DocumentModel) -> Seq<FeatureModel> {
    match document {
        DocumentModel::FeatureCollection(features) => features,
        DocumentModel::Other => Seq::empty(),
    }
}

/// Whether some feature carries a geometry that could not be converted.
pub open spec fn has_unconvertible(features: Seq<FeatureModel>) -> bool {
    exists|i: int|
        0 <= i < features.len() && (#[trigger] features[i]).geometry == Some(
            ShapeModel::Unconvertible,
        )
}

/// One line to draw: from a vertex to the next one of its ring, in the
/// colour of a highlight or in the plain colour.
#[derive(Clone, Copy, Debug, PartialEq, Eq, Structural)]
pub struct Stroke {
    pub from: Point,
    pub to: Point,
    pub highlighted: bool,
}

/// The outline of a ring: a stroke from each vertex to the one after it,
/// then the stroke that closes the ring from the last vertex to the first.
pub open spec fn ring_strokes(ring: Seq<Point>, highlighted: bool) -> Seq<Stroke> {
    if ring.len() == 0 {
        Seq::empty()
    } else {
        Seq::new(
            (ring.len() - 1) as nat,
            |i: int| Stroke { from: ring[i], to: ring[i + 1], highlighted },
        ).push(Stroke { from: ring.last(), to: ring[0], highlighted })
    }
}

/// The outlines of the outer rings of some polygons, one after another.
pub open spec fn polygons_strokes(polygons: Seq<PolygonModel>, highlighted: bool) -> Seq<Stroke>
    decreases polygons.len(),
{
    if polygons.len() == 0 {
        Seq::empty()
    } else {
        polygons_strokes(polygons.drop_last(), highlighted) + ring_strokes(
            polygons.last().exterior,
            highlighted,
        )
    }
}

/// The plain outlines of every entry of a map.
pub open spec fn plain_strokes(items: Seq<ItemModel>) -> Seq<Stroke>
    decreases items.len(),
{
    if items.len() == 0 {
        Seq::empty()
    } else {
        plain_strokes(items.drop_last()) + polygons_strokes(items.last().polygons, false)
    }
}

/// The highlighted outlines of the entries that a selector highlights.
pub open spec fn marked_strokes(
    items: Seq<ItemModel>,
    continents: Map<Seq<char>, Set<Seq<char>>>,
    selector: Seq<char>,
) -> Seq<Stroke>
    decreases items.len(),
{
    if items.len() == 0 {
        Seq::empty()
    } else {
        let before = marked_strokes(items.drop_last(), continents, selector);
        if is_highlighted(continents, selector, items.last().name) {
            before + polygons_strokes(items.last().polygons, true)
        } else {
            before
        }
    }
}

/// What a map draws: every outline in the plain colour, and after them,
/// where there is a selector, the outlines it highlights once more in the
/// highlight colour.
pub open spec fn rendered(
    items: Seq<ItemModel>,
    continents: Map<Seq<char>, Set<Seq<char>>>,
    highlight: Option<Seq<char>>,
) -> Seq<Stroke> {
    plain_strokes(items) + match highlight {
        Some(selector) => marked_strokes(items, continents, selector),
        None => Seq::empty(),
    }
}

/// Whether a selector highlights the feature called `name`: where the
/// selector is a continent of the membership, the feature's name must be
/// one of the continent's countries; else it must be the selector itself.
pub open spec fn is_highlighted(
    continents: Map<Seq<char>, Set<Seq<char>>>,
    selector: Seq<char>,
    name: Seq<char>,
) -> bool {
    if continents.contains_key(selector) {
        continents[selector].contains(name)
    } else {
        name == selector
    }
}

/// The names of the entries of a map.
pub open spec fn item_names(items: Seq<ItemModel>) -> Set<Seq<char>> {
    Set::new(|name: Seq<char>| exists|i: int| 0 <= i < items.len() && items[i].name == name)
}

/// The names of the entries that a selector highlights.
pub open spec fn highlighted_names(
    items: Seq<ItemModel>,
    continents: Map<Seq<char>, Set<Seq<char>>>,
    selector: Seq<char>,
) -> Set<Seq<char>> {
    Set::new(
        |name: Seq<char>|
            exists|i: int|
                0 <= i < items.len() && items[i].name == name && is_highlighted(
                    continents,
                    selector,
                    items[i].name,
                ),
    )
}

/// Selecting a continent highlights exactly the countries of its
/// membership set that are present in the map.
pub proof fn continent_highlights_its_members(
    items: Seq<ItemModel>,
    continents: Map<Seq<char>, Set<Seq<char>>>,
    selector: Seq<char>,
)
    requires
        continents.contains_key(selector),
    ensures
        highlighted_names(items, continents, selector) == continents[selector].intersect(
            item_names(items),
        ),
{
    assert(highlighted_names(items, continents, selector) =~= continents[selector].intersect(
        item_names(items),
    ));
}

proof fn lemma_concat_contains(a: Seq<Stroke>, b: Seq<Stroke>, x: Stroke)
    ensures
        (a + b).contains(x) <==> a.contains(x) || b.contains(x),
{
    if a.contains(x) {
        let i = choose|i: int| 0 <= i < a.len() && a[i] == x;
        assert((a + b)[i] == x);
    }
    if b.contains(x) {
        let i = choose|i: int| 0 <= i < b.len() && b[i] == x;
        assert((a + b)[a.len() + i] == x);
    }
    if (a + b).contains(x) {
        let i = choose|i: int| 0 <= i < (a + b).len() && (a + b)[i] == x;
        if i < a.len() {
            assert(a[i] == x);
        } else {
            assert(b[i - a.len()] == x);
        }
    }
}

/// Every stroke of an outline has the outline's colour.
proof fn lemma_strokes_colour(polygons: Seq<PolygonModel>, highlighted: bool, x: Stroke)
    requires
        polygons_strokes(polygons, highlighted).contains(x),
    ensures
        x.highlighted == highlighted,
    decreases polygons.len(),
{
    if polygons.len() > 0 {
        let before = polygons_strokes(polygons.drop_last(), highlighted);
        let ring = ring_strokes(polygons.last().exterior, highlighted);
        lemma_concat_contains(before, ring, x);
        if before.contains(x) {
            lemma_strokes_colour(polygons.drop_last(), highlighted, x);
        } else {
            let i = choose|i: int| 0 <= i < ring.len() && ring[i] == x;
            assert(ring[i].highlighted == highlighted);
        }
    }
}

/// A stroke is among the plain outlines exactly when it is on the plain
/// outline of some entry.
proof fn lemma_plain_strokes(items: Seq<ItemModel>, x: Stroke)
    ensures
        plain_strokes(items).contains(x) <==> exists|i: int|
            0 <= i < items.len() && polygons_strokes(
                (#[trigger] items[i]).polygons,
                false,
            ).contains(x),
    decreases items.len(),
{
    if items.len() > 0 {
        let rest = items.drop_last();
        let last = polygons_strokes(items.last().polygons, false);
        lemma_plain_strokes(rest, x);
        lemma_concat_contains(plain_strokes(rest), last, x);
        if plain_strokes(rest).contains(x) {
            let i = choose|i: int|
                0 <= i < rest.len() && polygons_strokes((#[trigger] rest[i]).polygons, false).contains(
                    x,
                );
            assert(rest[i] == items[i]);
        }
        if last.contains(x) {
            assert(items[items.len() - 1] == items.last());
        }
        if exists|i: int|
            0 <= i < items.len() && polygons_strokes((#[trigger] items[i]).polygons, false).contains(
                x,
            ) {
            let i = choose|i: int|
                0 <= i < items.len() && polygons_strokes(
                    (#[trigger] items[i]).polygons,
                    false,
                ).contains(x);
            if i < rest.len() {
                assert(rest[i] == items[i]);
            }
        }
    }
}

/// A stroke is among the highlighted outlines exactly when it is on the
/// highlighted outline of some entry that the selector highlights.
proof fn lemma_marked_strokes(
    items: Seq<ItemModel>,
    continents: Map<Seq<char>, Set<Seq<char>>>,
    selector: Seq<char>,
    x: Stroke,
)
    ensures
        marked_strokes(items, continents, selector).contains(x) <==> exists|i: int|
            0 <= i < items.len() && is_highlighted(
                continents,
                selector,
                (#[trigger] items[i]).name,
            ) && polygons_strokes(items[i].polygons, true).contains(x),
    decreases items.len(),
{
    if items.len() > 0 {
        let rest = items.drop_last();
        let before = marked_strokes(rest, continents, selector);
        let last = polygons_strokes(items.last().polygons, true);
        lemma_marked_strokes(rest, continents, selector, x);
        lemma_concat_contains(before, last, x);
        if before.contains(x) {
            let i = choose|i: int|
                0 <= i < rest.len() && is_highlighted(
                    continents,
                    selector,
                    (#[trigger] rest[i]).name,
                ) && polygons_strokes(rest[i].polygons, true).contains(x);
            assert(rest[i] == items[i]);
        }
        if is_highlighted(continents, selector, items.last().name) && last.contains(x) {
            assert(items[items.len() - 1] == items.last());
        }
        if exists|i: int|
            0 <= i < items.len() && is_highlighted(
                continents,
                selector,
                (#[trigger] items[i]).name,
            ) && polygons_strokes(items[i].polygons, true).contains(x) {
            let i = choose|i: int|
                0 <= i < items.len() && is_highlighted(
                    continents,
                    selector,
                    (#[trigger] items[i]).name,
                ) && polygons_strokes(items[i].polygons, true).contains(x);
            if i < rest.len() {
                assert(rest[i] == items[i]);
            }
        }
    }
}

/// With a continent as selector, a map draws in the highlight colour the
/// outlines of exactly those entries whose names are in the continent's
/// membership set: a stroke in that colour is drawn if and only if it is
/// on the outline of such an entry. An entry that is no member is drawn in
/// the plain colour only, and a member that has no entry draws nothing.
pub proof fn render_highlights_the_members(
    items: Seq<ItemModel>,
    continents: Map<Seq<char>, Set<Seq<char>>>,
    selector: Seq<char>,
    x: Stroke,
)
    requires
        continents.contains_key(selector),
        x.highlighted,
    ensures
        rendered(items, continents, Some(selector)).contains(x) <==> exists|i: int|
            0 <= i < items.len() && continents[selector].contains((#[trigger] items[i]).name)
                && polygons_strokes(items[i].polygons, true).contains(x),
{
    let plain = plain_strokes(items);
    let marked = marked_strokes(items, continents, selector);
    lemma_concat_contains(plain, marked, x);
    lemma_marked_strokes(items, continents, selector, x);
    if plain.contains(x) {
        lemma_plain_strokes(items, x);
        let i = choose|i: int|
            0 <= i < items.len() && polygons_strokes((#[trigger] items[i]).polygons, false).contains(
                x,
            );
        lemma_strokes_colour(items[i].polygons, false, x);
    }
}

/// A map draws the plain outline of every entry, whatever the selector:
/// a stroke in the plain colour is drawn if and only if it is on the
/// outline of some entry.
pub proof fn render_draws_every_outline(
    items: Seq<ItemModel>,
    continents: Map<Seq<char>, Set<Seq<char>>>,
    highlight: Option<Seq<char>>,
    x: Stroke,
)
    requires
        !x.highlighted,
    ensures
        rendered(items, continents, highlight).contains(x) <==> exists|i: int|
            0 <= i < items.len() && polygons_strokes(
                (#[trigger] items[i]).polygons,
                false,
            ).contains(x),
{
    let plain = plain_strokes(items);
    lemma_plain_strokes(items, x);
    match highlight {
        Some(selector) => {
            let marked = marked_strokes(items, continents, selector);
            lemma_concat_contains(plain, marked, x);
            if marked.contains(x) {
                lemma_marked_strokes(items, continents, selector, x);
                let i = choose|i: int|
                    0 <= i < items.len() && is_highlighted(
                        continents,
                        selector,
                        (#[trigger] items[i]).name,
                    ) && polygons_strokes(items[i].polygons, true).contains(x);
                lemma_strokes_colour(items[i].polygons, true, x);
            }
        },
        None => {
            assert(plain + Seq::<Stroke>::empty() =~= plain);
        },
    }
}

/// Whether a box holds a vertex.
pub open spec fn covers(b: Bounds, p: Point) -> bool {
    b.min_x <= p.x <= b.max_x && b.min_y <= p.y <= b.max_y
}

/// Whether a box holds whatever another box holds.
pub open spec fn contains_box(outer: Bounds, inner: Bounds) -> bool {
    forall|q: Point| covers(inner, q) ==> covers(outer, q)
}

proof fn lemma_ring_covered(b: Bounds, ring: Seq<Point>)
    ensures
        contains_box(ring_bounds(b, ring), b),
        forall|k: int| 0 <= k < ring.len() ==> covers(ring_bounds(b, ring), #[trigger] ring[k]),
    decreases ring.len(),
{
    if ring.len() > 0 {
        let rest = ring.drop_last();
        lemma_ring_covered(b, rest);
        assert forall|k: int| 0 <= k < ring.len() implies covers(
            ring_bounds(b, ring),
            #[trigger] ring[k],
        ) by {
            if k < rest.len() {
                assert(covers(ring_bounds(b, rest), rest[k]));
            }
        }
    }
}

proof fn lemma_rings_covered(b: Bounds, rings: Seq<Seq<Point>>)
    ensures
        contains_box(rings_bounds(b, rings), b),
        forall|r: int, k: int|
            0 <= r < rings.len() && 0 <= k < rings[r].len() ==> covers(
                rings_bounds(b, rings),
                #[trigger] rings[r][k],
            ),
    decreases rings.len(),
{
    if rings.len() > 0 {
        let rest = rings.drop_last();
        lemma_rings_covered(b, rest);
        lemma_ring_covered(rings_bounds(b, rest), rings.last());
        assert forall|r: int, k: int|
            0 <= r < rings.len() && 0 <= k < rings[r].len() implies covers(
            rings_bounds(b, rings),
            #[trigger] rings[r][k],
        ) by {
            if r < rest.len() {
                assert(covers(rings_bounds(b, rest), rest[r][k]));
            }
        }
    }
}

/// Whether a vertex is one of a polygon's, on its outer ring or on a hole.
pub open spec fn on_polygon(polygon: PolygonModel, p: Point) -> bool {
    polygon.exterior.contains(p) || exists|r: int|
        0 <= r < polygon.interiors.len() && (#[trigger] polygon.interiors[r]).contains(p)
}

proof fn lemma_polygon_covered(b: Bounds, polygon: PolygonModel)
    ensures
        contains_box(polygon_bounds(b, polygon), b),
        forall|p: Point| on_polygon(polygon, p) ==> covers(polygon_bounds(b, polygon), p),
{
    let outer = ring_bounds(b, polygon.exterior);
    lemma_ring_covered(b, polygon.exterior);
    lemma_rings_covered(outer, polygon.interiors);
    assert forall|p: Point| on_polygon(polygon, p) implies covers(
        polygon_bounds(b, polygon),
        p,
    ) by {
        if polygon.exterior.contains(p) {
            let k = choose|k: int| 0 <= k < polygon.exterior.len() && polygon.exterior[k] == p;
            assert(covers(outer, polygon.exterior[k]));
        } else {
            let r = choose|r: int|
                0 <= r < polygon.interiors.len() && (#[trigger] polygon.interiors[r]).contains(p);
            let k = choose|k: int|
                0 <= k < polygon.interiors[r].len() && polygon.interiors[r][k] == p;
            assert(covers(polygon_bounds(b, polygon), polygon.interiors[r][k]));
        }
    }
}

proof fn lemma_polygons_covered(b: Bounds, polygons: Seq<PolygonModel>)
    ensures
        contains_box(polygons_bounds(b, polygons), b),
        forall|j: int, p: Point|
            0 <= j < polygons.len() && on_polygon(#[trigger] polygons[j], p) ==> #[trigger] covers(
                polygons_bounds(b, polygons),
                p,
            ),
    decreases polygons.len(),
{
    if polygons.len() > 0 {
        let rest = polygons.drop_last();
        lemma_polygons_covered(b, rest);
        lemma_polygon_covered(polygons_bounds(b, rest), polygons.last());
        assert forall|j: int, p: Point|
            0 <= j < polygons.len() && on_polygon(
                #[trigger] polygons[j],
                p,
            ) implies #[trigger] covers(polygons_bounds(b, polygons), p) by {
            if j < rest.len() {
                assert(rest[j] == polygons[j]);
                assert(covers(polygons_bounds(b, rest), p));
            }
        }
    }
}

proof fn lemma_items_covered(b: Bounds, items: Seq<ItemModel>)
    ensures
        contains_box(items_bounds(b, items), b),
        forall|i: int, j: int, p: Point|
            0 <= i < items.len() && 0 <= j < items[i].polygons.len() && on_polygon(
                #[trigger] items[i].polygons[j],
                p,
            ) ==> #[trigger] covers(items_bounds(b, items), p),
    decreases items.len(),
{
    if items.len() > 0 {
        let rest = items.drop_last();
        lemma_items_covered(b, rest);
        lemma_polygons_covered(items_bounds(b, rest), items.last().polygons);
        assert forall|i: int, j: int, p: Point|
            0 <= i < items.len() && 0 <= j < items[i].polygons.len() && on_polygon(
                #[trigger] items[i].polygons[j],
                p,
            ) implies #[trigger] covers(items_bounds(b, items), p) by {
            if i < rest.len() {
                assert(rest[i] == items[i]);
                assert(covers(items_bounds(b, rest), p));
            }
        }
    }
}

/// The bounding box of a map holds every vertex of every polygon of every
/// entry, on outer rings and on holes alike.
pub proof fn bounds_hold_every_vertex(items: Seq<ItemModel>, i: int, j: int, p: Point)
    requires
        0 <= i < items.len(),
        0 <= j < items[i].polygons.len(),
        on_polygon(items[i].polygons[j], p),
    ensures
        covers(items_bounds(empty_bounds(), items), p),
{
    lemma_items_covered(empty_bounds(), items);
}

/// The bounding box of a map without entries has its least coordinate
/// above its greatest one on both axes.
pub proof fn empty_map_has_inverted_bounds()
    ensures
        items_bounds(empty_bounds(), Seq::empty()).min_x > items_bounds(
            empty_bounds(),
            Seq::empty(),
        ).max_x,
        items_bounds(empty_bounds(), Seq::empty()).min_y > items_bounds(
            empty_bounds(),
            Seq::empty(),
        ).max_y,
{
}

/// Widening by a ring all of whose vertices are `p` gives the box widened
/// by `p`, if the ring has a vertex.
proof fn lemma_ring_of_one_point(b: Bounds, ring: Seq<Point>, p: Point)
    requires
        ring.len() > 0,
        forall|i: int| 0 <= i < ring.len() ==> ring[i] == p,
    ensures
        ring_bounds(b, ring) == widened(b, p),
    decreases ring.len(),
{
    let rest = ring.drop_last();
    assert(ring.last() == p);
    if ring.len() > 1 {
        assert forall|i: int| 0 <= i < rest.len() implies rest[i] == p by {
            assert(rest[i] == ring[i]);
        }
        lemma_ring_of_one_point(b, rest, p);
        assert(ring_bounds(b, rest) == widened(b, p));
        assert(widened(widened(b, p), p) == widened(b, p));
    } else {
        assert(rest.len() == 0);
        assert(ring_bounds(b, rest) == b);
    }
}

/// The bounding box of a map whose only polygon has collapsed to a single
/// point has its least coordinate equal to its greatest one on both axes.
pub proof fn single_point_map_has_flat_bounds(name: Seq<char>, ring: Seq<Point>, p: Point)
    requires
        ring.len() > 0,
        forall|i: int| 0 <= i < ring.len() ==> ring[i] == p,
    ensures
        ({
            let polygon = PolygonModel { exterior: ring, interiors: Seq::empty() };
            let item = ItemModel { name, polygons: seq![polygon] };
            let b = items_bounds(empty_bounds(), seq![item]);
            b.min_x == p.x && b.max_x == p.x && b.min_y == p.y && b.max_y == p.y
        }),
{
    let polygon = PolygonModel { exterior: ring, interiors: Seq::empty() };
    let item = ItemModel { name, polygons: seq![polygon] };
    lemma_ring_of_one_point(empty_bounds(), ring, p);
    assert(seq![item].drop_last() =~= Seq::<ItemModel>::empty());
    assert(seq![polygon].drop_last() =~= Seq::<PolygonModel>::empty());
    assert(items_bounds(empty_bounds(), seq![item].drop_last()) == empty_bounds());
    assert(polygons_bounds(empty_bounds(), seq![polygon].drop_last()) == empty_bounds());
    assert(seq![item].last() == item);
    assert(seq![polygon].last() == polygon);
}

fn widen(b: Bounds, p: Point) -> (r: Bounds)
    ensures
        r == widened(b, p),
{
    Bounds {
        min_x: if p.x < b.min_x {
            p.x
        } else {
            b.min_x
        },
        max_x: if p.x > b.max_x {
            p.x
        } else {
            b.max_x
        },
        min_y: if p.y < b.min_y {
            p.y
        } else {
            b.min_y
        },
        max_y: if p.y > b.max_y {
            p.y
        } else {
            b.max_y
        },
    }
}

fn widen_ring(b: Bounds, ring: &Vec<Point>) -> (r: Bounds)
    ensures
        r == ring_bounds(b, ring@),
{
    let mut acc = b;
    let mut i: usize = 0;
    while i < ring.len()
        invariant
            i <= ring.len(),
            acc == ring_bounds(b, ring@.take(i as int)),
        decreases ring.len() - i,
    {
        assert(ring@.take(i + 1).drop_last() == ring@.take(i as int));
        acc = widen(acc, ring[i]);
        i += 1;
    }
    assert(ring@.take(ring@.len() as int) == ring@);
    acc
}

fn widen_polygon(b: Bounds, polygon: &Polygon) -> (r: Bounds)
    ensures
        r == polygon_bounds(b, polygon@),
{
    let start = widen_ring(b, &polygon.exterior);
    let ghost rings = rings_view(polygon.interiors@);
    let mut acc = start;
    let mut i: usize = 0;
    while i < polygon.interiors.len()
        invariant
            i <= polygon.interiors.len(),
            rings == rings_view(polygon.interiors@),
            acc == rings_bounds(start, rings.take(i as int)),
        decreases polygon.interiors.len() - i,
    {
        assert(rings.take(i + 1).drop_last() == rings.take(i as int));
        acc = widen_ring(acc, &polygon.interiors[i]);
        i += 1;
    }
    assert(rings.take(rings.len() as int) == rings);
    acc
}

fn widen_polygons(b: Bounds, polygons: &Vec<Polygon>) -> (r: Bounds)
    ensures
        r == polygons_bounds(b, polygons_view(polygons@)),
{
    let ghost models = polygons_view(polygons@);
    let mut acc = b;
    let mut i: usize = 0;
    while i < polygons.len()
        invariant
            i <= polygons.len(),
            models == polygons_view(polygons@),
            acc == polygons_bounds(b, models.take(i as int)),
        decreases polygons.len() - i,
    {
        assert(models.take(i + 1).drop_last() == models.take(i as int));
        acc = widen_polygon(acc, &polygons[i]);
        i += 1;
    }
    assert(models.take(models.len() as int) == models);
    acc
}

/// The bounding box of the entries of a map.
pub fn bounds_of(items: &Vec<MapItem>) -> (r: Bounds)
    ensures
        r == items_bounds(empty_bounds(), items_view(items@)),
{
    let ghost models = items_view(items@);
    let mut acc = Bounds { min_x: i32::MAX, max_x: i32::MIN, min_y: i32::MAX, max_y: i32::MIN };
    let mut i: usize = 0;
    while i < items.len()
        invariant
            i <= items.len(),
            models == items_view(items@),
            acc == items_bounds(empty_bounds(), models.take(i as int)),
        decreases items.len() - i,
    {
        assert(models.take(i + 1).drop_last() == models.take(i as int));
        acc = widen_polygons(acc, &items[i].polygons);
        i += 1;
    }
    assert(models.take(models.len() as int) == models);
    acc
}

/// The map entries that the features of a document yield, or
/// `DataError::Geometry` where a feature's geometry could not be
/// converted.
pub fn build_items(features: &Vec<crate::shape::Feature>) -> (r: Result<Vec<MapItem>, DataError>)
    ensures
        match r {
            Ok(items) => !has_unconvertible(features_view(features@)) && items_view(items@)
                == feature_items(features_view(features@)),
            Err(e) => has_unconvertible(features_view(features@)) && e == DataError::Geometry,
        },
{
    let ghost models = features_view(features@);
    let mut items: Vec<MapItem> = Vec::new();
    let mut i: usize = 0;
    while i < features.len()
        invariant
            i <= features.len(),
            models == features_view(features@),
            items_view(items@) == feature_items(models.take(i as int)),
            forall|j: int|
                0 <= j < i ==> (#[trigger] models[j]).geometry != Some(ShapeModel::Unconvertible),
        decreases features.len() - i,
    {
        assert(models.take(i + 1).drop_last() == models.take(i as int));
        assert(models.take(i + 1).last() == features@[i as int]@);
        let feature = &features[i];
        let ghost before = items@;
        match &feature.geometry {
            Some(Shape::Polygon(p)) => {
                let name = match &feature.name {
                    Some(n) => n.clone(),
                    None => String::new(),
                };
                let mut polygons: Vec<Polygon> = Vec::new();
                polygons.push(copy_polygon(p));
                assert(polygons_view(polygons@) =~= seq![p@]);
                items.push(MapItem { name, polygons });
                assert(items_view(items@) =~= items_view(before).push(
                    feature_item(features@[i as int]@).unwrap(),
                ));
            },
            Some(Shape::MultiPolygon(all)) => {
                let name = match &feature.name {
                    Some(n) => n.clone(),
                    None => String::new(),
                };
                let polygons = filter_fragments(all);
                items.push(MapItem { name, polygons });
                assert(items_view(items@) =~= items_view(before).push(
                    feature_item(features@[i as int]@).unwrap(),
                ));
            },
            Some(Shape::Unconvertible) => {
                assert(models[i as int].geometry == Some(ShapeModel::Unconvertible));
                return Err(DataError::Geometry);
            },
            Some(Shape::Other) => {},
            None => {},
        }
        i += 1;
    }
    assert(models.take(models.len() as int) == models);
    Ok(items)
}

/// A renderable map: the outlines of one geometry document with their
/// bounding box, and the continent membership used for highlighting.
pub struct MapView {
    items: Vec<MapItem>,
    bounds: Bounds,
    continents: Vec<Continent>,
}

impl MapView {
    /// The bounding box is always that of the entries.
    #[verifier::type_invariant]
    spec fn boxed(self) -> bool {
        self.bounds == items_bounds(empty_bounds(), items_view(self.items@))
    }

    /// The entries of the map.
    pub closed spec fn items(&self) -> Seq<ItemModel> {
        items_view(self.items@)
    }

    /// The bounding box of the map.
    pub closed spec fn bounds(&self) -> Bounds {
        self.bounds
    }

    /// The continent membership of the map.
    pub closed spec fn continents(&self) -> Map<Seq<char>, Set<Seq<char>>> {
        membership_map(self.continents@)
    }

    /// Whether the map is the one that a document and a continent
    /// membership give: the document's outlines after fragment filtering,
    /// their bounding box, and the membership, or none where there is
    /// none.
    pub open spec fn shows(
        &self,
        document: DocumentModel,
        membership: Option<Map<Seq<char>, Set<Seq<char>>>>,
    ) -> bool {
        &&& self.items() == feature_items(document_features(document))
        &&& self.bounds() == items_bounds(empty_bounds(), self.items())
        &&& self.continents() == match membership {
            Some(m) => m,
            None => Map::empty(),
        }
    }

    /// Builds the map of a geometry document and loads continent
    /// membership from the catalogue. Features without an outline are
    /// left out; a feature whose geometry could not be converted fails
    /// the whole map, before the catalogue is touched. Where membership
    /// cannot be loaded the map has none.
    pub fn new(raw: GeoDocument, data_cache: &mut DataCache) -> (r: Result<MapView, DataError>)
        ensures
            final(data_cache).same_data(old(data_cache)),
            old(data_cache).faithful() ==> final(data_cache).faithful(),
            match r {
                Ok(view) => {
                    &&& !has_unconvertible(document_features(raw@))
                    &&& view.shows(raw@, old(data_cache).stored_membership())
                    &&& final(data_cache).index() == old(data_cache).cached_membership(
                        old(data_cache).index(),
                    )
                },
                Err(e) => {
                    &&& has_unconvertible(document_features(raw@))
                    &&& e == DataError::Geometry
                    &&& *final(data_cache) == *old(data_cache)
                },
            },
    {
        let items = match &raw {
            GeoDocument::FeatureCollection(features) => match build_items(features) {
                Ok(items) => items,
                Err(e) => {
                    return Err(e);
                },
            },
            GeoDocument::Other => {
                let none: Vec<MapItem> = Vec::new();
                assert(items_view(none@) =~= feature_items(Seq::empty()));
                none
            },
        };
        let bounds = bounds_of(&items);
        let continents = match data_cache.load_continent_mappings() {
            Ok(m) => m,
            Err(_) => Vec::new(),
        };
        Ok(MapView { items, bounds, continents })
    }

    /// The number of entries of the map.
    pub fn feature_count(&self) -> (n: usize)
        ensures
            n == self.items().len(),
    {
        self.items.len()
    }

    /// The bounding box of the map: the least and the greatest coordinate
    /// of every vertex of every entry, holes included; with no vertex in
    /// the map its least coordinates lie above its greatest ones.
    pub fn bounding_box(&self) -> (b: Bounds)
        ensures
            b == self.bounds(),
            b == items_bounds(empty_bounds(), self.items()),
    {
        proof {
            use_type_invariant(self);
        }
        self.bounds
    }

    /// The entries of the map, in the order of the document's features.
    pub fn entries(&self) -> (r: &Vec<MapItem>)
        ensures
            items_view(r@) == self.items(),
    {
        &self.items
    }

    /// The lines that draw the map: the outline of every entry in the
    /// plain colour, then, where there is a selector, the outlines of the
    /// entries it highlights in the highlight colour.
    pub fn render(&self, highlight: Option<&str>) -> (strokes: Vec<Stroke>)
        ensures
            strokes@ == rendered(
                self.items(),
                self.continents(),
                match highlight {
                    Some(selector) => Some(selector@),
                    None => None,
                },
            ),
            forall|x: Stroke|
                !x.highlighted ==> (strokes@.contains(x) <==> exists|i: int|
                    0 <= i < self.items().len() && polygons_strokes(
                        (#[trigger] self.items()[i]).polygons,
                        false,
                    ).contains(x)),
            match highlight {
                Some(selector) => self.continents().contains_key(selector@) ==> forall|x: Stroke|
                    x.highlighted ==> (strokes@.contains(x) <==> exists|i: int|
                        0 <= i < self.items().len() && self.continents()[selector@].contains(
                            (#[trigger] self.items()[i]).name,
                        ) && polygons_strokes(self.items()[i].polygons, true).contains(x)),
                None => forall|x: Stroke| strokes@.contains(x) ==> !x.highlighted,
            },
    {
        let ghost models = items_view(self.items@);
        let mut strokes: Vec<Stroke> = Vec::new();
        let mut i: usize = 0;
        assert(strokes@ =~= plain_strokes(models.take(0)));
        while i < self.items.len()
            invariant
                i <= self.items.len(),
                models == items_view(self.items@),
                strokes@ == plain_strokes(models.take(i as int)),
            decreases self.items.len() - i,
        {
            assert(models.take(i + 1).drop_last() == models.take(i as int));
            assert(models.take(i + 1).last() == self.items@[i as int]@);
            push_polygons(&mut strokes, &self.items[i].polygons, false);
            i += 1;
        }
        assert(models.take(models.len() as int) == models);
        match highlight {
            Some(selector) => {
                let flags = self.highlighted(selector);
                let ghost plain = strokes@;
                let ghost continents = membership_map(self.continents@);
                let mut k: usize = 0;
                assert(strokes@ =~= plain + marked_strokes(models.take(0), continents, selector@));
                while k < self.items.len()
                    invariant
                        k <= self.items.len(),
                        models == items_view(self.items@),
                        continents == membership_map(self.continents@),
                        flags.len() == self.items.len(),
                        forall|j: int|
                            0 <= j < flags.len() ==> flags[j] == is_highlighted(
                                continents,
                                selector@,
                                (#[trigger] models[j]).name,
                            ),
                        strokes@ == plain + marked_strokes(
                            models.take(k as int),
                            continents,
                            selector@,
                        ),
                    decreases self.items.len() - k,
                {
                    assert(models.take(k + 1).drop_last() == models.take(k as int));
                    assert(models.take(k + 1).last() == models[k as int]);
                    assert(models[k as int] == self.items@[k as int]@);
                    if flags[k] {
                        push_polygons(&mut strokes, &self.items[k].polygons, true);
                        assert(strokes@ =~= plain + marked_strokes(
                            models.take(k + 1),
                            continents,
                            selector@,
                        ));
                    }
                    k += 1;
                }
                assert(models.take(models.len() as int) == models);
            },
            None => {
                assert(strokes@ =~= strokes@ + Seq::<Stroke>::empty());
            },
        }
        proof {
            let items = self.items();
            let continents = self.continents();
            let shown = match highlight {
                Some(selector) => Some(selector@),
                None => None,
            };
            assert forall|x: Stroke| !x.highlighted implies (strokes@.contains(x) <==> exists|
                i: int,
            |
                0 <= i < items.len() && polygons_strokes(
                    (#[trigger] items[i]).polygons,
                    false,
                ).contains(x)) by {
                render_draws_every_outline(items, continents, shown, x);
            }
            match highlight {
                Some(selector) => {
                    if continents.contains_key(selector@) {
                        assert forall|x: Stroke| x.highlighted implies (strokes@.contains(x)
                            <==> exists|i: int|
                            0 <= i < items.len() && continents[selector@].contains(
                                (#[trigger] items[i]).name,
                            ) && polygons_strokes(items[i].polygons, true).contains(x)) by {
                            render_highlights_the_members(items, continents, selector@, x);
                        }
                    }
                },
                None => {
                    assert forall|x: Stroke| strokes@.contains(x) implies !x.highlighted by {
                        if x.highlighted {
                            lemma_plain_strokes(items, x);
                            let i = choose|i: int|
                                0 <= i < items.len() && polygons_strokes(
                                    (#[trigger] items[i]).polygons,
                                    false,
                                ).contains(x);
                            lemma_strokes_colour(items[i].polygons, false, x);
                        }
                    }
                },
            }
        }
        strokes
    }

    /// Which entries a selector highlights, one flag per entry: with a
    /// continent as selector, the entries named like one of its countries;
    /// with any other selector, the entries named exactly like it.
    pub fn highlighted(&self, selector: &str) -> (flags: Vec<bool>)
        ensures
            flags.len() == self.items().len(),
            forall|i: int|
                0 <= i < flags.len() ==> flags[i] == is_highlighted(
                    self.continents(),
                    selector@,
                    (#[trigger] self.items()[i]).name,
                ),
            self.continents().contains_key(selector@) ==> forall|i: int|
                0 <= i < flags.len() ==> flags[i] == self.continents()[selector@].contains(
                    (#[trigger] self.items()[i]).name,
                ),
            !self.continents().contains_key(selector@) ==> forall|i: int|
                0 <= i < flags.len() ==> flags[i] == ((#[trigger] self.items()[i]).name
                    == selector@),
    {
        let continent = find_continent(&self.continents, selector);
        let mut flags: Vec<bool> = Vec::new();
        let mut i: usize = 0;
        while i < self.items.len()
            invariant
                i <= self.items.len(),
                flags.len() == i,
                match continent {
                    Some(c) => c < self.continents.len() && membership_map(
                        self.continents@,
                    ).contains_key(selector@) && membership_map(self.continents@)[selector@]
                        == texts(self.continents@[c as int].countries@).to_set(),
                    None => !membership_map(self.continents@).contains_key(selector@),
                },
                forall|j: int|
                    0 <= j < i ==> flags[j] == is_highlighted(
                        membership_map(self.continents@),
                        selector@,
                        (#[trigger] items_view(self.items@)[j]).name,
                    ),
            decreases self.items.len() - i,
        {
            let name = self.items[i].name.as_str();
            let flag = match continent {
                Some(c) => {
                    let countries = &self.continents[c].countries;
                    proof {
                        lemma_first_index(texts(countries@), name@);
                    }
                    match find_text(countries, name) {
                        Some(k) => {
                            assert(texts(countries@)[k as int] == name@);
                            assert(texts(countries@).contains(name@));
                            true
                        },
                        None => {
                            assert(!texts(countries@).contains(name@));
                            false
                        },
                    }
                },
                None => same_text(name, selector),
            };
            flags.push(flag);
            i += 1;
        }
        flags
    }
}

/// Appends the outline of a ring.
fn push_ring(strokes: &mut Vec<Stroke>, ring: &Vec<Point>, highlighted: bool)
    ensures
        final(strokes)@ == old(strokes)@ + ring_strokes(ring@, highlighted),
{
    let n = ring.len();
    if n == 0 {
        assert(strokes@ =~= old(strokes)@ + ring_strokes(ring@, highlighted));
        return ;
    }
    let ghost outline = ring_strokes(ring@, highlighted);
    let mut i: usize = 0;
    while i + 1 < n
        invariant
            n == ring.len(),
            n > 0,
            i < n,
            outline == ring_strokes(ring@, highlighted),
            strokes@ == old(strokes)@ + outline.take(i as int),
        decreases n - i,
    {
        strokes.push(Stroke { from: ring[i], to: ring[i + 1], highlighted });
        assert(outline.take(i + 1) =~= outline.take(i as int).push(outline[i as int]));
        i += 1;
    }
    strokes.push(Stroke { from: ring[n - 1], to: ring[0], highlighted });
    assert(outline =~= outline.take(n - 1).push(outline[n - 1]));
}

/// Appends the outlines of the outer rings of some polygons.
fn push_polygons(strokes: &mut Vec<Stroke>, polygons: &Vec<Polygon>, highlighted: bool)
    ensures
        final(strokes)@ == old(strokes)@ + polygons_strokes(polygons_view(polygons@), highlighted),
{
    let ghost models = polygons_view(polygons@);
    let mut i: usize = 0;
    assert(strokes@ =~= old(strokes)@ + polygons_strokes(models.take(0), highlighted));
    while i < polygons.len()
        invariant
            i <= polygons.len(),
            models == polygons_view(polygons@),
            strokes@ == old(strokes)@ + polygons_strokes(models.take(i as int), highlighted),
        decreases polygons.len() - i,
    {
        assert(models.take(i + 1).drop_last() == models.take(i as int));
        assert(models.take(i + 1).last().exterior == polygons@[i as int].exterior@);
        let ghost before = strokes@;
        push_ring(strokes, &polygons[i].exterior, highlighted);
        assert(strokes@ =~= old(strokes)@ + polygons_strokes(models.take(i + 1), highlighted));
        i += 1;
    }
    assert(models.take(models.len() as int) == models);
}

/// The entry that decides a continent's membership: the last one with
/// that name.
fn find_continent(entries: &Vec<Continent>, name: &str) -> (r: Option<usize>)
    ensures
        match r {
            Some(c) => c < entries.len() && membership_map(entries@).contains_key(name@)
                && membership_map(entries@)[name@] == texts(entries@[c as int].countries@).to_set(),
            None => !membership_map(entries@).contains_key(name@),
        },
{
    let mut found: Option<usize> = None;
    let mut i: usize = 0;
    while i < entries.len()
        invariant
            i <= entries.len(),
            match found {
                Some(c) => c < i && membership_map(entries@.take(i as int)).contains_key(name@)
                    && membership_map(entries@.take(i as int))[name@] == texts(
                    entries@[c as int].countries@,
                ).to_set(),
                None => !membership_map(entries@.take(i as int)).contains_key(name@),
            },
        decreases entries.len() - i,
    {
        assert(entries@.take(i + 1).drop_last() == entries@.take(i as int));
        if same_text(entries[i].name.as_str(), name) {
            found = Some(i);
        }
        i += 1;
    }
    assert(entries@.take(entries@.len() as int) == entries@);
    found
}

} // verus!
