//! Which objects of a drawing are rendered, and in what order: entities in
//! insertion order, then dimensions in insertion order, skipping those on a
//! hidden layer. The conversion of one object into a render primitive is a
//! function handed in by the caller.

use vstd::prelude::*;

use crate::drawing::DrawingView;
use crate::ids::LayerId;
use crate::keys::{lemma_first_index, lemma_first_index_unique};
use crate::model::layer_ids;
use crate::model::{Dimension, Drawing, Entity, Project};

verus! {

broadcast use vstd::seq_lib::group_seq_properties;

/// Whether objects on layer `id` are shown: a layer that exists shows its
/// objects when it is visible; a reference to a missing layer is shown.
pub open spec fn layer_visible<G, Pt, L>(d: DrawingView<G, Pt, L>, id: LayerId) -> bool {
    let i = d.layer_index(id);
    i < 0 || d.layers[i].visible
}

/// Whether objects on layer `id` are shown (see `layer_visible`).
pub fn is_layer_visible<G, Pt, L>(drawing: &Drawing<G, Pt, L>, layer_id: LayerId) -> (b: bool)
    ensures
        b == layer_visible(drawing@, layer_id),
{
    match drawing.layer(layer_id) {
        None => true,
        Some(layer) => layer.visible,
    }
}

/// An object of a drawing that is to be rendered, by position.
#[derive(Clone, Copy, Debug, PartialEq, Eq, Structural)]
pub enum RenderItem {
    Entity(usize),
    Dimension(usize),
}

/// The positions of the entities among `es[..n]` whose layer is shown, in order.
pub open spec fn visible_entities<G, Pt, L>(d: DrawingView<G, Pt, L>, n: int) -> Seq<RenderItem>
    decreases n,
{
    if n <= 0 {
        seq![]
    } else {
        let before = visible_entities(d, n - 1);
        if layer_visible(d, d.entities[n - 1].layer_id) {
            before.push(RenderItem::Entity((n - 1) as usize))
        } else {
            before
        }
    }
}

/// The positions of the dimensions among `ds[..n]` whose layer is shown, in order.
pub open spec fn visible_dimensions<G, Pt, L>(d: DrawingView<G, Pt, L>, n: int) -> Seq<RenderItem>
    decreases n,
{
    if n <= 0 {
        seq![]
    } else {
        let before = visible_dimensions(d, n - 1);
        if layer_visible(d, d.dimensions[n - 1].layer_id) {
            before.push(RenderItem::Dimension((n - 1) as usize))
        } else {
            before
        }
    }
}

/// What a drawing renders: the shown entities, then the shown dimensions.
pub open spec fn render_order_of<G, Pt, L>(d: DrawingView<G, Pt, L>) -> Seq<RenderItem> {
    visible_entities(d, d.entities.len() as int) + visible_dimensions(d, d.dimensions.len() as int)
}

/// The objects to render, in the order they are drawn.
pub fn render_order<G, Pt, L>(drawing: &Drawing<G, Pt, L>) -> (items: Vec<RenderItem>)
    ensures
        items@ == render_order_of(drawing@),
{
    let mut items: Vec<RenderItem> = Vec::new();
    let mut i: usize = 0;
    while i < drawing.entities.len()
        invariant
            i <= drawing.entities@.len(),
            items@ == visible_entities(drawing@, i as int),
        decreases drawing.entities@.len() - i,
    {
        if is_layer_visible(drawing, drawing.entities[i].layer_id) {
            items.push(RenderItem::Entity(i));
        }
        i = i + 1;
    }
    let ghost ents = items@;
    let mut k: usize = 0;
    while k < drawing.dimensions.len()
        invariant
            k <= drawing.dimensions@.len(),
            ents == visible_entities(drawing@, drawing.entities@.len() as int),
            items@ == ents + visible_dimensions(drawing@, k as int),
        decreases drawing.dimensions@.len() - k,
    {
        let ghost before = items@;
        if is_layer_visible(drawing, drawing.dimensions[k].layer_id) {
            items.push(RenderItem::Dimension(k));
            assert(items@ =~= ents + visible_dimensions(drawing@, k + 1));
        } else {
            assert(items@ =~= ents + visible_dimensions(drawing@, k + 1));
        }
        k = k + 1;
    }
    items
}

/// Each rendered item lies within the drawing and is on a shown layer.
pub proof fn lemma_render_order_shows_visible_only<G, Pt, L>(d: DrawingView<G, Pt, L>)
    requires
        d.entities.len() <= usize::MAX,
        d.dimensions.len() <= usize::MAX,
    ensures
        forall|k: int| 0 <= k < render_order_of(d).len() ==> match #[trigger] render_order_of(d)[k] {
            RenderItem::Entity(i) => i < d.entities.len() && layer_visible(d, d.entities[i as int].layer_id),
            RenderItem::Dimension(i) => i < d.dimensions.len() && layer_visible(d, d.dimensions[i as int].layer_id),
        },
{
    lemma_visible_entities(d, d.entities.len() as int);
    lemma_visible_dimensions(d, d.dimensions.len() as int);
    let a = visible_entities(d, d.entities.len() as int);
    let b = visible_dimensions(d, d.dimensions.len() as int);
    assert forall|k: int| 0 <= k < render_order_of(d).len() implies match #[trigger] render_order_of(d)[k] {
        RenderItem::Entity(i) => i < d.entities.len() && layer_visible(d, d.entities[i as int].layer_id),
        RenderItem::Dimension(i) => i < d.dimensions.len() && layer_visible(d, d.dimensions[i as int].layer_id),
    } by {
        if k < a.len() {
            assert(render_order_of(d)[k] == a[k]);
        } else {
            assert(render_order_of(d)[k] == b[k - a.len()]);
        }
    }
}

proof fn lemma_visible_entities<G, Pt, L>(d: DrawingView<G, Pt, L>, n: int)
    requires
        0 <= n <= d.entities.len(),
        d.entities.len() <= usize::MAX,
    ensures
        forall|k: int| 0 <= k < visible_entities(d, n).len() ==> match #[trigger] visible_entities(d, n)[k] {
            RenderItem::Entity(i) => i < n && layer_visible(d, d.entities[i as int].layer_id),
            RenderItem::Dimension(i) => false,
        },
        forall|k1: int, k2: int| 0 <= k1 < k2 < visible_entities(d, n).len() ==>
            item_index(#[trigger] visible_entities(d, n)[k1]) < item_index(#[trigger] visible_entities(d, n)[k2]),
        forall|i: int| 0 <= i < n && layer_visible(d, #[trigger] d.entities[i].layer_id) ==>
            visible_entities(d, n).contains(RenderItem::Entity(i as usize)),
    decreases n,
{
    if n > 0 {
        lemma_visible_entities(d, n - 1);
        let before = visible_entities(d, n - 1);
        let all = visible_entities(d, n);
        assert(((n - 1) as usize) as int == n - 1);
        assert forall|k: int| 0 <= k < all.len() implies match #[trigger] all[k] {
            RenderItem::Entity(i) => i < n && layer_visible(d, d.entities[i as int].layer_id),
            RenderItem::Dimension(i) => false,
        } by {
            if k < before.len() {
                assert(all[k] == before[k]);
            } else {
                assert(all[k] == RenderItem::Entity((n - 1) as usize));
            }
        }
        assert forall|k1: int, k2: int| 0 <= k1 < k2 < all.len() implies
            item_index(#[trigger] all[k1]) < item_index(#[trigger] all[k2]) by {
            assert(all[k1] == before[k1]);
            if k2 < before.len() {
                assert(all[k2] == before[k2]);
            } else {
                assert(all[k2] == RenderItem::Entity((n - 1) as usize));
                assert(match before[k1] {
                    RenderItem::Entity(i) => i < n - 1,
                    RenderItem::Dimension(i) => false,
                });
            }
        }
        assert forall|i: int| 0 <= i < n && layer_visible(d, #[trigger] d.entities[i].layer_id) implies
            all.contains(RenderItem::Entity(i as usize)) by {
            if i < n - 1 {
                let k = choose|k: int| 0 <= k < before.len() && before[k] == RenderItem::Entity(i as usize);
                assert(all[k] == before[k]);
            } else {
                assert(all[all.len() - 1] == RenderItem::Entity((n - 1) as usize));
            }
        }
    }
}

proof fn lemma_visible_dimensions<G, Pt, L>(d: DrawingView<G, Pt, L>, n: int)
    requires
        0 <= n <= d.dimensions.len(),
        d.dimensions.len() <= usize::MAX,
    ensures
        forall|k: int| 0 <= k < visible_dimensions(d, n).len() ==> match #[trigger] visible_dimensions(d, n)[k] {
            RenderItem::Dimension(i) => i < n && layer_visible(d, d.dimensions[i as int].layer_id),
            RenderItem::Entity(i) => false,
        },
        forall|k1: int, k2: int| 0 <= k1 < k2 < visible_dimensions(d, n).len() ==>
            item_index(#[trigger] visible_dimensions(d, n)[k1]) < item_index(#[trigger] visible_dimensions(d, n)[k2]),
        forall|i: int| 0 <= i < n && layer_visible(d, #[trigger] d.dimensions[i].layer_id) ==>
            visible_dimensions(d, n).contains(RenderItem::Dimension(i as usize)),
    decreases n,
{
    if n > 0 {
        lemma_visible_dimensions(d, n - 1);
        let before = visible_dimensions(d, n - 1);
        let all = visible_dimensions(d, n);
        assert(((n - 1) as usize) as int == n - 1);
        assert forall|k: int| 0 <= k < all.len() implies match #[trigger] all[k] {
            RenderItem::Dimension(i) => i < n && layer_visible(d, d.dimensions[i as int].layer_id),
            RenderItem::Entity(i) => false,
        } by {
            if k < before.len() {
                assert(all[k] == before[k]);
            } else {
                assert(all[k] == RenderItem::Dimension((n - 1) as usize));
            }
        }
        assert forall|k1: int, k2: int| 0 <= k1 < k2 < all.len() implies
            item_index(#[trigger] all[k1]) < item_index(#[trigger] all[k2]) by {
            assert(all[k1] == before[k1]);
            if k2 < before.len() {
                assert(all[k2] == before[k2]);
            } else {
                assert(all[k2] == RenderItem::Dimension((n - 1) as usize));
                assert(match before[k1] {
                    RenderItem::Dimension(i) => i < n - 1,
                    RenderItem::Entity(i) => false,
                });
            }
        }
        assert forall|i: int| 0 <= i < n && layer_visible(d, #[trigger] d.dimensions[i].layer_id) implies
            all.contains(RenderItem::Dimension(i as usize)) by {
            if i < n - 1 {
                let k = choose|k: int| 0 <= k < before.len() && before[k] == RenderItem::Dimension(i as usize);
                assert(all[k] == before[k]);
            } else {
                assert(all[all.len() - 1] == RenderItem::Dimension((n - 1) as usize));
            }
        }
    }
}

/// The position an item is drawn from: its index among the entities or among the dimensions.
pub open spec fn item_index(item: RenderItem) -> int {
    match item {
        RenderItem::Entity(i) => i as int,
        RenderItem::Dimension(i) => i as int,
    }
}

/// Only a layer's `visible` flag decides whether its objects are shown,
/// whatever its `locked` flag: objects on a layer the drawing does not have
/// are shown, and objects on a layer it has are shown exactly when the first
/// layer with that id is visible.
pub proof fn lemma_visibility_follows_the_visible_flag<G, Pt, L>(d: DrawingView<G, Pt, L>, id: LayerId, i: int)
    ensures
        (forall|j: int| 0 <= j < d.layers.len() ==> d.layers[j].id != id) ==> layer_visible(d, id),
        0 <= i < d.layers.len() && d.layers[i].id == id && (forall|j: int| 0 <= j < i ==> d.layers[j].id != id)
            ==> (layer_visible(d, id) <==> d.layers[i].visible),
{
    let keys = layer_ids(d.layers);
    assert(keys.len() == d.layers.len());
    assert(forall|j: int| 0 <= j < keys.len() ==> #[trigger] keys[j] == d.layers[j].id);
    lemma_first_index(keys, id);
    if 0 <= i < d.layers.len() && d.layers[i].id == id && (forall|j: int| 0 <= j < i ==> d.layers[j].id != id) {
        lemma_first_index_unique(keys, id, i);
    }
}

/// What is rendered is complete and in order: every entity and every
/// dimension is rendered exactly when its layer is shown; entities come
/// first, then dimensions, each in insertion order.
pub proof fn lemma_render_order_is_complete<G, Pt, L>(d: DrawingView<G, Pt, L>)
    requires
        d.entities.len() <= usize::MAX,
        d.dimensions.len() <= usize::MAX,
    ensures
        forall|i: int| 0 <= i < d.entities.len() ==>
            (render_order_of(d).contains(RenderItem::Entity(i as usize)) <==> layer_visible(d, #[trigger] d.entities[i].layer_id)),
        forall|i: int| 0 <= i < d.dimensions.len() ==>
            (render_order_of(d).contains(RenderItem::Dimension(i as usize)) <==> layer_visible(d, #[trigger] d.dimensions[i].layer_id)),
        forall|k1: int, k2: int| 0 <= k1 < k2 < render_order_of(d).len() ==> match (#[trigger] render_order_of(d)[k1], #[trigger] render_order_of(d)[k2]) {
            (RenderItem::Entity(a), RenderItem::Entity(b)) => a < b,
            (RenderItem::Dimension(a), RenderItem::Dimension(b)) => a < b,
            (RenderItem::Entity(a), RenderItem::Dimension(b)) => true,
            (RenderItem::Dimension(a), RenderItem::Entity(b)) => false,
        },
{
    lemma_visible_entities(d, d.entities.len() as int);
    lemma_visible_dimensions(d, d.dimensions.len() as int);
    lemma_render_order_shows_visible_only(d);
    let a = visible_entities(d, d.entities.len() as int);
    let b = visible_dimensions(d, d.dimensions.len() as int);
    let all = render_order_of(d);
    assert forall|i: int| 0 <= i < d.entities.len() implies
        (all.contains(RenderItem::Entity(i as usize)) <==> layer_visible(d, #[trigger] d.entities[i].layer_id)) by {
        if layer_visible(d, d.entities[i].layer_id) {
            let k = choose|k: int| 0 <= k < a.len() && a[k] == RenderItem::Entity(i as usize);
            assert(all[k] == a[k]);
        }
        if all.contains(RenderItem::Entity(i as usize)) {
            let k = choose|k: int| 0 <= k < all.len() && all[k] == RenderItem::Entity(i as usize);
            assert((i as usize) as int == i);
        }
    }
    assert forall|i: int| 0 <= i < d.dimensions.len() implies
        (all.contains(RenderItem::Dimension(i as usize)) <==> layer_visible(d, #[trigger] d.dimensions[i].layer_id)) by {
        if layer_visible(d, d.dimensions[i].layer_id) {
            let k = choose|k: int| 0 <= k < b.len() && b[k] == RenderItem::Dimension(i as usize);
            assert(all[a.len() + k] == b[k]);
        }
        if all.contains(RenderItem::Dimension(i as usize)) {
            let k = choose|k: int| 0 <= k < all.len() && all[k] == RenderItem::Dimension(i as usize);
            assert((i as usize) as int == i);
        }
    }
    assert forall|k1: int, k2: int| 0 <= k1 < k2 < all.len() implies match (#[trigger] all[k1], #[trigger] all[k2]) {
        (RenderItem::Entity(x), RenderItem::Entity(y)) => x < y,
        (RenderItem::Dimension(x), RenderItem::Dimension(y)) => x < y,
        (RenderItem::Entity(x), RenderItem::Dimension(y)) => true,
        (RenderItem::Dimension(x), RenderItem::Entity(y)) => false,
    } by {
        if k2 < a.len() {
            assert(all[k1] == a[k1] && all[k2] == a[k2]);
            assert(item_index(a[k1]) < item_index(a[k2]));
        } else if k1 >= a.len() {
            assert(all[k1] == b[k1 - a.len()] && all[k2] == b[k2 - a.len()]);
            assert(item_index(b[k1 - a.len()]) < item_index(b[k2 - a.len()]));
        } else {
            assert(all[k1] == a[k1] && all[k2] == b[k2 - a.len()]);
        }
    }
}

/// Builds the render model of a project: one primitive per shown entity
/// (by `entity_primitive` on its shape), then one per shown dimension (by
/// `dimension_primitive`), in render order.
pub fn build_render_model<G, Pt, L, R, FE, FD>(
    project: &Project<G, Pt, L>,
    entity_primitive: &FE,
    dimension_primitive: &FD,
) -> (out: Vec<R>) where
    FE: Fn(&G) -> R,
    FD: Fn(&Dimension<Pt, L>) -> R,

    requires
        forall|g: G| call_requires(*entity_primitive, (&g,)),
        forall|x: Dimension<Pt, L>| call_requires(*dimension_primitive, (&x,)),
    ensures
        out@.len() == render_order_of(project.drawing@).len(),
        forall|k: int| 0 <= k < out@.len() ==> match #[trigger] render_order_of(project.drawing@)[k] {
            RenderItem::Entity(i) => call_ensures(*entity_primitive, (&project.drawing@.entities[i as int].geometry,), out@[k]),
            RenderItem::Dimension(i) => call_ensures(*dimension_primitive, (&project.drawing@.dimensions[i as int],), out@[k]),
        },
{
    let drawing = &project.drawing;
    let items = render_order(drawing);
    let entity_count = drawing.entities.len();
    let dimension_count = drawing.dimensions.len();
    proof {
        assert(entity_count == drawing@.entities.len() && dimension_count == drawing@.dimensions.len());
        lemma_render_order_shows_visible_only(drawing@);
    }
    let mut out: Vec<R> = Vec::new();
    let mut k: usize = 0;
    while k < items.len()
        invariant
            k <= items@.len(),
            items@ == render_order_of(drawing@),
            out@.len() == k,
            forall|g: G| call_requires(*entity_primitive, (&g,)),
            forall|x: Dimension<Pt, L>| call_requires(*dimension_primitive, (&x,)),
            forall|j: int| 0 <= j < items@.len() ==> match #[trigger] items@[j] {
                RenderItem::Entity(i) => i < drawing@.entities.len(),
                RenderItem::Dimension(i) => i < drawing@.dimensions.len(),
            },
            forall|j: int| 0 <= j < k ==> match #[trigger] items@[j] {
                RenderItem::Entity(i) => call_ensures(*entity_primitive, (&drawing@.entities[i as int].geometry,), out@[j]),
                RenderItem::Dimension(i) => call_ensures(*dimension_primitive, (&drawing@.dimensions[i as int],), out@[j]),
            },
        decreases items@.len() - k,
    {
        let item = items[k];
        assert(item == items@[k as int]);
        let p = match item {
            RenderItem::Entity(i) => entity_primitive(&drawing.entities[i].geometry),
            RenderItem::Dimension(i) => dimension_primitive(&drawing.dimensions[i]),
        };
        out.push(p);
        k = k + 1;
    }
    out
}

} // verus!
