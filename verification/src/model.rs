//! The drawing model: layers, entities and dimensions addressed by stable
//! identifiers, grouped in a drawing inside a project.
//!
//! The shape carried by an entity (`G`), the points of a dimension (`Pt`) and
//! its lengths (`L`) are held as they are; none of the rules here reads them.

use vstd::prelude::*;

use crate::ids::{DimensionId, DrawingId, EntityId, LayerId, ProjectId};
use crate::keys::has_key;

verus! {

/// A drawing layer. Entities and dimensions refer to layers by id.
#[derive(Debug, PartialEq)]
pub struct Layer {
    pub id: LayerId,
    pub name: String,
    pub visible: bool,
    pub locked: bool,
}

impl Clone for Layer {
    fn clone(&self) -> (res: Self)
        ensures
            res == *self,
    {
        Layer { id: self.id, name: self.name.clone(), visible: self.visible, locked: self.locked }
    }
}

impl Layer {
    /// A visible, unlocked layer.
    pub fn new(id: LayerId, name: &str) -> (layer: Self)
        ensures
            layer.id == id,
            layer.name@ == name@,
            layer.visible,
            !layer.locked,
    {
        Layer { id, name: String::from_str(name), visible: true, locked: false }
    }
}

/// The id of the layer that every new drawing starts with.
pub fn default_layer_id() -> (id: LayerId)
    ensures
        id.spec_value() == 0,
{
    LayerId::new(0)
}

/// The id of the first drawing of a new project.
pub fn default_drawing_id() -> (id: DrawingId)
    ensures
        id.spec_value() == 0,
{
    DrawingId::new(0)
}

/// The id of the first project created by the application.
pub fn default_project_id() -> (id: ProjectId)
    ensures
        id.spec_value() == 0,
{
    ProjectId::new(0)
}

/// How a dimension measures.
#[derive(Clone, Copy, Debug, PartialEq, Eq, Structural)]
pub enum DimensionKind {
    /// Horizontal or vertical linear dimension.
    Linear,
    /// Dimension along the true distance between two points.
    Aligned,
}

/// A drawn shape on a layer.
#[derive(Debug, PartialEq)]
pub struct Entity<G> {
    pub id: EntityId,
    pub layer_id: LayerId,
    pub geometry: G,
}

/// `b` is a copy of `a`: the same id and layer, and a clone of its shape.
pub open spec fn entity_cloned<G: Clone>(a: Entity<G>, b: Entity<G>) -> bool {
    &&& b.id == a.id
    &&& b.layer_id == a.layer_id
    &&& cloned(a.geometry, b.geometry)
}

impl<G: Clone> Clone for Entity<G> {
    fn clone(&self) -> (res: Self)
        ensures
            entity_cloned(*self, res),
    {
        Entity { id: self.id, layer_id: self.layer_id, geometry: self.geometry.clone() }
    }
}

/// A dimension between two points, drawn at an offset from the measured segment.
#[derive(Debug, PartialEq)]
pub struct Dimension<Pt, L> {
    pub id: DimensionId,
    pub kind: DimensionKind,
    pub start: Pt,
    pub end: Pt,
    /// Perpendicular offset of the dimension line from the measured segment.
    pub offset: L,
    pub layer_id: LayerId,
}

impl<Pt: Copy, L: Copy> Clone for Dimension<Pt, L> {
    fn clone(&self) -> (res: Self)
        ensures
            res == *self,
    {
        Dimension {
            id: self.id,
            kind: self.kind,
            start: self.start,
            end: self.end,
            offset: self.offset,
            layer_id: self.layer_id,
        }
    }
}

/// A drawing: its entities, layers and dimensions, each kept in insertion order.
#[derive(Debug, PartialEq)]
pub struct Drawing<G, Pt, L> {
    pub id: DrawingId,
    pub entities: Vec<Entity<G>>,
    pub layers: Vec<Layer>,
    pub dimensions: Vec<Dimension<Pt, L>>,
}

/// A project holding one drawing.
#[derive(Debug, PartialEq)]
pub struct Project<G, Pt, L> {
    pub id: ProjectId,
    pub drawing: Drawing<G, Pt, L>,
}

/// The ids of a sequence of entities, in order.
pub open spec fn entity_ids<G>(s: Seq<Entity<G>>) -> Seq<EntityId> {
    s.map_values(|e: Entity<G>| e.id)
}

/// The ids of a sequence of layers, in order.
pub open spec fn layer_ids(s: Seq<Layer>) -> Seq<LayerId> {
    s.map_values(|l: Layer| l.id)
}

/// The ids of a sequence of dimensions, in order.
pub open spec fn dimension_ids<Pt, L>(s: Seq<Dimension<Pt, L>>) -> Seq<DimensionId> {
    s.map_values(|d: Dimension<Pt, L>| d.id)
}

/// Whether a layer with this id exists among `layers`.
pub open spec fn layer_exists(layers: Seq<Layer>, id: LayerId) -> bool {
    has_key(layer_ids(layers), id)
}

/// The drawing a new project starts with: drawing id 0, no entities or
/// dimensions, and one visible, unlocked layer "0" with id 0.
pub open spec fn is_default_drawing<G, Pt, L>(d: Drawing<G, Pt, L>) -> bool {
    &&& d.id.spec_value() == 0
    &&& d.entities@.len() == 0
    &&& d.dimensions@.len() == 0
    &&& d.layers@.len() == 1
    &&& d.layers@[0].id.spec_value() == 0
    &&& d.layers@[0].name@ == seq!['0']
    &&& d.layers@[0].visible
    &&& !d.layers@[0].locked
}

impl<G, Pt, L> Default for Drawing<G, Pt, L> {
    fn default() -> (d: Self)
        ensures
            is_default_drawing(d),
    {
        let mut layers = Vec::new();
        let layer = Layer::new(default_layer_id(), "0");
        proof {
            reveal_strlit("0");
            assert(layer.name@ =~= seq!['0']);
        }
        layers.push(layer);
        let d = Drawing {
            id: default_drawing_id(),
            entities: Vec::new(),
            layers,
            dimensions: Vec::new(),
        };
        assert(d.layers@[0] == layer);
        d
    }
}

impl<G, Pt, L> Default for Project<G, Pt, L> {
    fn default() -> (p: Self)
        ensures
            p.id.spec_value() == 0,
            is_default_drawing(p.drawing),
    {
        Project { id: default_project_id(), drawing: Drawing::default() }
    }
}

} // verus!
