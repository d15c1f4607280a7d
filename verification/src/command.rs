//! Drawing commands, the inverse commands that undo them by position, and a
//! history that executes commands under validation and undoes and redoes them.
//!
//! Moving a shape and checking a shape's own rules are computations on the
//! shape's coordinates; they are handed in as the two functions of
//! [`ShapeOps`], and every statement here about their results is phrased
//! over what those functions may return.

use vstd::prelude::*;

use crate::drawing::{
    find_dimension, find_entity, find_layer, is_default_drawing_view,
    lemma_structural_issues_are_errors, structural_issues, DrawingView,
};
use crate::geometry::{geometry_error_text, GeometryError};
use crate::ids::{DimensionId, EntityId, LayerId};
use crate::keys::has_key;
use crate::model::{dimension_ids, entity_cloned, entity_ids, layer_ids, Dimension, Drawing, Entity, Layer};
use crate::report::{
    issues_have_errors, CoreError, IssueView, ValidationIssue, ValidationReport, ValidationSeverity,
    ValidationTarget,
};
use crate::model::Project;

verus! {

broadcast use vstd::seq_lib::group_seq_properties;

/// An edit of a drawing that can be executed, undone and redone.
#[derive(Debug, PartialEq)]
#[allow(inconsistent_fields)]
pub enum DrawingCommand<G, Pt, L> {
    AddEntity(Entity<G>),
    DeleteEntity { id: EntityId },
    MoveEntity { id: EntityId, dx: L, dy: L },
    SetEntityLayer { id: EntityId, layer_id: LayerId },
    AddLayer(Layer),
    RemoveLayer { id: LayerId },
    AddDimension(Dimension<Pt, L>),
    RemoveDimension { id: DimensionId },
}

/// `b` is a copy of `a`: equal, except that an added entity's shape is a clone.
pub open spec fn command_cloned<G: Clone, Pt, L>(a: DrawingCommand<G, Pt, L>, b: DrawingCommand<G, Pt, L>) -> bool {
    match a {
        DrawingCommand::AddEntity(e) => match b {
            DrawingCommand::AddEntity(f) => entity_cloned(e, f),
            _ => false,
        },
        _ => b == a,
    }
}

impl<G: Clone, Pt: Copy, L: Copy> Clone for DrawingCommand<G, Pt, L> {
    fn clone(&self) -> (res: Self)
        ensures
            command_cloned(*self, res),
    {
        match self {
            DrawingCommand::AddEntity(e) => DrawingCommand::AddEntity(e.clone()),
            DrawingCommand::DeleteEntity { id } => DrawingCommand::DeleteEntity { id: *id },
            DrawingCommand::MoveEntity { id, dx, dy } => DrawingCommand::MoveEntity { id: *id, dx: *dx, dy: *dy },
            DrawingCommand::SetEntityLayer { id, layer_id } => DrawingCommand::SetEntityLayer { id: *id, layer_id: *layer_id },
            DrawingCommand::AddLayer(l) => DrawingCommand::AddLayer(l.clone()),
            DrawingCommand::RemoveLayer { id } => DrawingCommand::RemoveLayer { id: *id },
            DrawingCommand::AddDimension(d) => DrawingCommand::AddDimension(d.clone()),
            DrawingCommand::RemoveDimension { id } => DrawingCommand::RemoveDimension { id: *id },
        }
    }
}

/// Why a command failed: the drawing model refused it, or the drawing it
/// produced did not pass validation (the report says why).
#[derive(Debug, PartialEq)]
pub enum CommandError {
    Core(CoreError),
    Validation(ValidationReport),
}

impl From<CoreError> for CommandError {
    fn from(value: CoreError) -> (r: Self) {
        CommandError::Core(value)
    }
}

impl vstd::std_specs::convert::FromSpecImpl<CoreError> for CommandError {
    open spec fn obeys_from_spec() -> bool {
        true
    }

    open spec fn from_spec(v: CoreError) -> CommandError {
        CommandError::Core(v)
    }
}

/// The shape computations a command needs: moving a shape by an offset,
/// and checking a shape's own rules.
pub struct ShapeOps<T, C> {
    pub translate: T,
    pub check: C,
}

/// Both functions can be called on any argument.
pub open spec fn ops_callable<G, L, T, C>(ops: ShapeOps<T, C>) -> bool where
    T: Fn(&G, &L, &L) -> G,
    C: Fn(&G) -> Option<GeometryError>,
 {
    &&& forall|g: G, a: L, b: L| call_requires(ops.translate, (&g, &a, &b))
    &&& forall|g: G| call_requires(ops.check, (&g,))
}

/// The refusal the drawing model gives to a command on drawing `d`, if any:
/// an add whose id is taken, or an edit or removal whose id is missing.
pub open spec fn refusal<G, Pt, L>(d: DrawingView<G, Pt, L>, c: DrawingCommand<G, Pt, L>) -> Option<CoreError> {
    match c {
        DrawingCommand::AddEntity(e) => if has_key(entity_ids(d.entities), e.id) {
            Some(CoreError::DuplicateEntityId(e.id))
        } else {
            None
        },
        DrawingCommand::DeleteEntity { id } => if d.entity_index(id) < 0 {
            Some(CoreError::MissingEntity(id))
        } else {
            None
        },
        DrawingCommand::MoveEntity { id, dx, dy } => if d.entity_index(id) < 0 {
            Some(CoreError::MissingEntity(id))
        } else {
            None
        },
        DrawingCommand::SetEntityLayer { id, layer_id } => if d.entity_index(id) < 0 {
            Some(CoreError::MissingEntity(id))
        } else {
            None
        },
        DrawingCommand::AddLayer(l) => if has_key(layer_ids(d.layers), l.id) {
            Some(CoreError::DuplicateLayerId(l.id))
        } else {
            None
        },
        DrawingCommand::RemoveLayer { id } => if d.layer_index(id) < 0 {
            Some(CoreError::MissingLayer(id))
        } else {
            None
        },
        DrawingCommand::AddDimension(x) => if has_key(dimension_ids(d.dimensions), x.id) {
            Some(CoreError::DuplicateDimensionId(x.id))
        } else {
            None
        },
        DrawingCommand::RemoveDimension { id } => if d.dimension_index(id) < 0 {
            Some(CoreError::MissingDimension(id))
        } else {
            None
        },
    }
}

/// `n` is what applying command `c` to `d` produces when the model accepts
/// it: an add appends, a removal takes out the first object with the id,
/// and a moved entity's shape is a result of `translate` on its old shape
/// and the offsets.
pub open spec fn applied<G, Pt, L, T: Fn(&G, &L, &L) -> G>(
    d: DrawingView<G, Pt, L>,
    c: DrawingCommand<G, Pt, L>,
    n: DrawingView<G, Pt, L>,
    translate: T,
) -> bool {
    match c {
        DrawingCommand::AddEntity(e) => n == d.with_entities(d.entities.push(e)),
        DrawingCommand::DeleteEntity { id } => n == d.with_entities(d.entities.remove(d.entity_index(id))),
        DrawingCommand::MoveEntity { id, dx, dy } => {
            let i = d.entity_index(id);
            let e = d.entities[i];
            &&& n == d.with_entities(d.entities.update(i, Entity { id: e.id, layer_id: e.layer_id, geometry: n.entities[i].geometry }))
            &&& call_ensures(translate, (&e.geometry, &dx, &dy), n.entities[i].geometry)
        },
        DrawingCommand::SetEntityLayer { id, layer_id } => {
            let i = d.entity_index(id);
            let e = d.entities[i];
            n == d.with_entities(d.entities.update(i, Entity { id: e.id, layer_id, geometry: e.geometry }))
        },
        DrawingCommand::AddLayer(l) => n == d.with_layers(d.layers.push(l)),
        DrawingCommand::RemoveLayer { id } => n == d.with_layers(d.layers.remove(d.layer_index(id))),
        DrawingCommand::AddDimension(x) => n == d.with_dimensions(d.dimensions.push(x)),
        DrawingCommand::RemoveDimension { id } => n == d.with_dimensions(d.dimensions.remove(d.dimension_index(id))),
    }
}

/// A change that puts a drawing back as it was before a command, by
/// position: it removes what an add appended, puts a removed object back
/// at the position it was taken from, puts back a moved entity as it was,
/// or gives an entity back the layer it had.
/// Applying one hands back the change that undoes it in turn.
#[derive(Debug, PartialEq)]
pub enum InverseCommand<G, Pt, L> {
    RemoveEntityAt { index: usize, id: EntityId },
    InsertEntity { index: usize, entity: Entity<G> },
    ReplaceEntity { index: usize, entity: Entity<G> },
    RelayerEntity { index: usize, id: EntityId, layer_id: LayerId },
    RemoveLayerAt { index: usize, id: LayerId },
    InsertLayer { index: usize, layer: Layer },
    RemoveDimensionAt { index: usize, id: DimensionId },
    InsertDimension { index: usize, dimension: Dimension<Pt, L> },
}

/// What applying the inverse command `r` to `d` gives: the new drawing and
/// the inverse command that undoes it, or none when `d` does not hold what
/// `r` expects at its position (an object with its id, or room to insert).
pub open spec fn revert_spec<G, Pt, L>(
    d: DrawingView<G, Pt, L>,
    r: InverseCommand<G, Pt, L>,
) -> Option<(DrawingView<G, Pt, L>, InverseCommand<G, Pt, L>)> {
    match r {
        InverseCommand::RemoveEntityAt { index, id } => if index < d.entities.len() && d.entities[index as int].id == id {
            Some((
                d.with_entities(d.entities.remove(index as int)),
                InverseCommand::InsertEntity { index, entity: d.entities[index as int] },
            ))
        } else {
            None
        },
        InverseCommand::InsertEntity { index, entity } => if index <= d.entities.len() {
            Some((
                d.with_entities(d.entities.insert(index as int, entity)),
                InverseCommand::RemoveEntityAt { index, id: entity.id },
            ))
        } else {
            None
        },
        InverseCommand::ReplaceEntity { index, entity } => if index < d.entities.len() && d.entities[index as int].id == entity.id {
            Some((
                d.with_entities(d.entities.update(index as int, entity)),
                InverseCommand::ReplaceEntity { index, entity: d.entities[index as int] },
            ))
        } else {
            None
        },
        InverseCommand::RelayerEntity { index, id, layer_id } => if index < d.entities.len() && d.entities[index as int].id == id {
            Some((
                d.with_entities(d.entities.update(index as int, Entity { id, layer_id, geometry: d.entities[index as int].geometry })),
                InverseCommand::RelayerEntity { index, id, layer_id: d.entities[index as int].layer_id },
            ))
        } else {
            None
        },
        InverseCommand::RemoveLayerAt { index, id } => if index < d.layers.len() && d.layers[index as int].id == id {
            Some((
                d.with_layers(d.layers.remove(index as int)),
                InverseCommand::InsertLayer { index, layer: d.layers[index as int] },
            ))
        } else {
            None
        },
        InverseCommand::InsertLayer { index, layer } => if index <= d.layers.len() {
            Some((
                d.with_layers(d.layers.insert(index as int, layer)),
                InverseCommand::RemoveLayerAt { index, id: layer.id },
            ))
        } else {
            None
        },
        InverseCommand::RemoveDimensionAt { index, id } => if index < d.dimensions.len() && d.dimensions[index as int].id == id {
            Some((
                d.with_dimensions(d.dimensions.remove(index as int)),
                InverseCommand::InsertDimension { index, dimension: d.dimensions[index as int] },
            ))
        } else {
            None
        },
        InverseCommand::InsertDimension { index, dimension } => if index <= d.dimensions.len() {
            Some((
                d.with_dimensions(d.dimensions.insert(index as int, dimension)),
                InverseCommand::RemoveDimensionAt { index, id: dimension.id },
            ))
        } else {
            None
        },
    }
}

/// The error when an inverse command does not fit the drawing: the object
/// it concerns is missing from its place.
pub open spec fn revert_refusal<G, Pt, L>(r: InverseCommand<G, Pt, L>) -> CoreError {
    match r {
        InverseCommand::RemoveEntityAt { index, id } => CoreError::MissingEntity(id),
        InverseCommand::InsertEntity { index, entity } => CoreError::MissingEntity(entity.id),
        InverseCommand::ReplaceEntity { index, entity } => CoreError::MissingEntity(entity.id),
        InverseCommand::RelayerEntity { index, id, layer_id } => CoreError::MissingEntity(id),
        InverseCommand::RemoveLayerAt { index, id } => CoreError::MissingLayer(id),
        InverseCommand::InsertLayer { index, layer } => CoreError::MissingLayer(layer.id),
        InverseCommand::RemoveDimensionAt { index, id } => CoreError::MissingDimension(id),
        InverseCommand::InsertDimension { index, dimension } => CoreError::MissingDimension(dimension.id),
    }
}

/// Applying `r` to `d` gives back exactly `d0`.
pub open spec fn undoes<G, Pt, L>(d: DrawingView<G, Pt, L>, r: InverseCommand<G, Pt, L>, d0: DrawingView<G, Pt, L>) -> bool {
    match revert_spec(d, r) {
        Some((n, back)) => n == d0,
        None => false,
    }
}

/// Applies a command to a drawing and returns the inverse command that
/// undoes it; a removed object is handed to the inverse by value, with the
/// position it was taken from. A refused command leaves the drawing as it was.
fn apply<G, Pt, L, T, C>(
    drawing: &mut Drawing<G, Pt, L>,
    command: DrawingCommand<G, Pt, L>,
    ops: &ShapeOps<T, C>,
) -> (r: Result<InverseCommand<G, Pt, L>, CommandError>) where
    T: Fn(&G, &L, &L) -> G,
    C: Fn(&G) -> Option<GeometryError>,

    requires
        ops_callable::<G, L, T, C>(*ops),
    ensures
        match refusal(old(drawing)@, command) {
            Some(e) => r == Err::<InverseCommand<G, Pt, L>, CommandError>(CommandError::Core(e)) && final(drawing)@ == old(drawing)@,
            None => {
                &&& r is Ok
                &&& applied(old(drawing)@, command, final(drawing)@, ops.translate)
                &&& undoes(final(drawing)@, r->Ok_0, old(drawing)@)
            },
        },
{
    let ghost d0 = drawing@;
    match command {
        DrawingCommand::AddEntity(entity) => {
            let index = drawing.entities.len();
            let id = entity.id;
            match drawing.add_entity(entity) {
                Ok(()) => {
                    assert(drawing.entities@.remove(index as int) =~= d0.entities);
                    Ok(InverseCommand::RemoveEntityAt { index, id })
                },
                Err(e) => Err(CommandError::Core(e)),
            }
        },
        DrawingCommand::DeleteEntity { id } => match find_entity(&drawing.entities, id) {
            None => Err(CommandError::Core(CoreError::MissingEntity(id))),
            Some(i) => {
                let entity = drawing.entities.remove(i);
                assert(drawing.entities@.insert(i as int, entity) =~= d0.entities);
                Ok(InverseCommand::InsertEntity { index: i, entity })
            },
        },
        DrawingCommand::MoveEntity { id, dx, dy } => match find_entity(&drawing.entities, id) {
            None => Err(CommandError::Core(CoreError::MissingEntity(id))),
            Some(i) => {
                let before = drawing.entities.remove(i);
                let g = (ops.translate)(&before.geometry, &dx, &dy);
                let moved = Entity { id: before.id, layer_id: before.layer_id, geometry: g };
                drawing.entities.insert(i, moved);
                assert(drawing.entities@ =~= d0.entities.update(i as int, moved));
                assert(drawing.entities@.update(i as int, before) =~= d0.entities);
                Ok(InverseCommand::ReplaceEntity { index: i, entity: before })
            },
        },
        DrawingCommand::SetEntityLayer { id, layer_id } => match find_entity(&drawing.entities, id) {
            None => Err(CommandError::Core(CoreError::MissingEntity(id))),
            Some(i) => {
                let before = drawing.entities.remove(i);
                let old_id = before.id;
                let old_layer = before.layer_id;
                let relayered = Entity { id: old_id, layer_id, geometry: before.geometry };
                drawing.entities.insert(i, relayered);
                assert(drawing.entities@ =~= d0.entities.update(i as int, relayered));
                assert(drawing.entities@.update(i as int, Entity { id: old_id, layer_id: old_layer, geometry: drawing.entities@[i as int].geometry }) =~= d0.entities);
                Ok(InverseCommand::RelayerEntity { index: i, id: old_id, layer_id: old_layer })
            },
        },
        DrawingCommand::AddLayer(layer) => {
            let index = drawing.layers.len();
            let id = layer.id;
            match drawing.add_layer(layer) {
                Ok(()) => {
                    assert(drawing.layers@.remove(index as int) =~= d0.layers);
                    Ok(InverseCommand::RemoveLayerAt { index, id })
                },
                Err(e) => Err(CommandError::Core(e)),
            }
        },
        DrawingCommand::RemoveLayer { id } => match find_layer(&drawing.layers, id) {
            None => Err(CommandError::Core(CoreError::MissingLayer(id))),
            Some(i) => {
                let layer = drawing.layers.remove(i);
                assert(drawing.layers@.insert(i as int, layer) =~= d0.layers);
                Ok(InverseCommand::InsertLayer { index: i, layer })
            },
        },
        DrawingCommand::AddDimension(dimension) => {
            let index = drawing.dimensions.len();
            let id = dimension.id;
            match drawing.add_dimension(dimension) {
                Ok(()) => {
                    assert(drawing.dimensions@.remove(index as int) =~= d0.dimensions);
                    Ok(InverseCommand::RemoveDimensionAt { index, id })
                },
                Err(e) => Err(CommandError::Core(e)),
            }
        },
        DrawingCommand::RemoveDimension { id } => match find_dimension(&drawing.dimensions, id) {
            None => Err(CommandError::Core(CoreError::MissingDimension(id))),
            Some(i) => {
                let dimension = drawing.dimensions.remove(i);
                assert(drawing.dimensions@.insert(i as int, dimension) =~= d0.dimensions);
                Ok(InverseCommand::InsertDimension { index: i, dimension })
            },
        },
    }
}

/// Applies an inverse command and returns the one that undoes it in turn
/// (see `revert_spec`); one that does not fit leaves the drawing as it was.
fn apply_inverse<G, Pt, L>(
    drawing: &mut Drawing<G, Pt, L>,
    inverse: InverseCommand<G, Pt, L>,
) -> (r: Result<InverseCommand<G, Pt, L>, CommandError>)
    ensures
        match revert_spec(old(drawing)@, inverse) {
            Some((n, back)) => r == Ok::<InverseCommand<G, Pt, L>, CommandError>(back) && final(drawing)@ == n,
            None => r == Err::<InverseCommand<G, Pt, L>, CommandError>(CommandError::Core(revert_refusal(inverse)))
                && final(drawing)@ == old(drawing)@,
        },
{
    let ghost d0 = drawing@;
    match inverse {
        InverseCommand::RemoveEntityAt { index, id } => {
            if index < drawing.entities.len() && drawing.entities[index].id == id {
                let entity = drawing.entities.remove(index);
                Ok(InverseCommand::InsertEntity { index, entity })
            } else {
                Err(CommandError::Core(CoreError::MissingEntity(id)))
            }
        },
        InverseCommand::InsertEntity { index, entity } => {
            if index <= drawing.entities.len() {
                let id = entity.id;
                drawing.entities.insert(index, entity);
                Ok(InverseCommand::RemoveEntityAt { index, id })
            } else {
                Err(CommandError::Core(CoreError::MissingEntity(entity.id)))
            }
        },
        InverseCommand::ReplaceEntity { index, entity } => {
            if index < drawing.entities.len() && drawing.entities[index].id == entity.id {
                let current = drawing.entities.remove(index);
                drawing.entities.insert(index, entity);
                assert(drawing.entities@ =~= d0.entities.update(index as int, entity));
                Ok(InverseCommand::ReplaceEntity { index, entity: current })
            } else {
                Err(CommandError::Core(CoreError::MissingEntity(entity.id)))
            }
        },
        InverseCommand::RelayerEntity { index, id, layer_id } => {
            if index < drawing.entities.len() && drawing.entities[index].id == id {
                let current = drawing.entities.remove(index);
                let current_layer = current.layer_id;
                let relayered = Entity { id, layer_id, geometry: current.geometry };
                drawing.entities.insert(index, relayered);
                assert(drawing.entities@ =~= d0.entities.update(index as int, relayered));
                Ok(InverseCommand::RelayerEntity { index, id, layer_id: current_layer })
            } else {
                Err(CommandError::Core(CoreError::MissingEntity(id)))
            }
        },
        InverseCommand::RemoveLayerAt { index, id } => {
            if index < drawing.layers.len() && drawing.layers[index].id == id {
                let layer = drawing.layers.remove(index);
                Ok(InverseCommand::InsertLayer { index, layer })
            } else {
                Err(CommandError::Core(CoreError::MissingLayer(id)))
            }
        },
        InverseCommand::InsertLayer { index, layer } => {
            if index <= drawing.layers.len() {
                let id = layer.id;
                drawing.layers.insert(index, layer);
                Ok(InverseCommand::RemoveLayerAt { index, id })
            } else {
                Err(CommandError::Core(CoreError::MissingLayer(layer.id)))
            }
        },
        InverseCommand::RemoveDimensionAt { index, id } => {
            if index < drawing.dimensions.len() && drawing.dimensions[index].id == id {
                let dimension = drawing.dimensions.remove(index);
                Ok(InverseCommand::InsertDimension { index, dimension })
            } else {
                Err(CommandError::Core(CoreError::MissingDimension(id)))
            }
        },
        InverseCommand::InsertDimension { index, dimension } => {
            if index <= drawing.dimensions.len() {
                let id = dimension.id;
                drawing.dimensions.insert(index, dimension);
                Ok(InverseCommand::RemoveDimensionAt { index, id })
            } else {
                Err(CommandError::Core(CoreError::MissingDimension(dimension.id)))
            }
        },
    }
}

/// Applying an inverse command and then the one it hands back gives back
/// the drawing and the first inverse command.
pub proof fn lemma_inverse_round_trip<G, Pt, L>(d: DrawingView<G, Pt, L>, r: InverseCommand<G, Pt, L>)
    requires
        revert_spec(d, r) is Some,
    ensures
        ({
            let (n, back) = revert_spec(d, r)->Some_0;
            revert_spec(n, back) == Some((d, r))
        }),
{
    match r {
        InverseCommand::RemoveEntityAt { index, id } => {
            assert(d.entities.remove(index as int).insert(index as int, d.entities[index as int]) =~= d.entities);
        },
        InverseCommand::InsertEntity { index, entity } => {
            assert(d.entities.insert(index as int, entity).remove(index as int) =~= d.entities);
        },
        InverseCommand::ReplaceEntity { index, entity } => {
            assert(d.entities.update(index as int, entity).update(index as int, d.entities[index as int]) =~= d.entities);
        },
        InverseCommand::RelayerEntity { index, id, layer_id } => {
            let e = d.entities[index as int];
            let n = d.entities.update(index as int, Entity { id, layer_id, geometry: e.geometry });
            assert(n.update(index as int, Entity { id, layer_id: e.layer_id, geometry: n[index as int].geometry }) =~= d.entities);
        },
        InverseCommand::RemoveLayerAt { index, id } => {
            assert(d.layers.remove(index as int).insert(index as int, d.layers[index as int]) =~= d.layers);
        },
        InverseCommand::InsertLayer { index, layer } => {
            assert(d.layers.insert(index as int, layer).remove(index as int) =~= d.layers);
        },
        InverseCommand::RemoveDimensionAt { index, id } => {
            assert(d.dimensions.remove(index as int).insert(index as int, d.dimensions[index as int]) =~= d.dimensions);
        },
        InverseCommand::InsertDimension { index, dimension } => {
            assert(d.dimensions.insert(index as int, dimension).remove(index as int) =~= d.dimensions);
        },
    }
}

/// The issue reported for an entity whose shape breaks its own rule.
pub open spec fn geometry_issue(id: EntityId, err: GeometryError) -> IssueView {
    IssueView {
        severity: ValidationSeverity::Error,
        target: ValidationTarget::Entity(id),
        message: geometry_error_text(err),
        suggestion: "Adjust the entity geometry so it satisfies validation rules."@,
    }
}

/// One issue per entity whose check result `rs[i]` names an error, in entity order.
pub open spec fn geometry_issues<G>(es: Seq<Entity<G>>, rs: Seq<Option<GeometryError>>) -> Seq<IssueView>
    decreases es.len(),
{
    if es.len() == 0 || rs.len() == 0 {
        seq![]
    } else {
        let before = geometry_issues(es.drop_last(), rs.drop_last());
        match rs.last() {
            Some(err) => before.push(geometry_issue(es.last().id, err)),
            None => before,
        }
    }
}

/// `rs` holds, for each entity, a result `check` may give on its shape.
pub open spec fn checked<G, C: Fn(&G) -> Option<GeometryError>>(
    es: Seq<Entity<G>>,
    rs: Seq<Option<GeometryError>>,
    check: C,
) -> bool {
    &&& rs.len() == es.len()
    &&& forall|i: int| 0 <= i < es.len() ==> call_ensures(check, (&es[i].geometry,), #[trigger] rs[i])
}

/// The full validation of a drawing: its structural issues followed by the
/// shape issues that the check results `rs` name.
pub open spec fn drawing_issues<G, Pt, L>(d: DrawingView<G, Pt, L>, rs: Seq<Option<GeometryError>>) -> Seq<IssueView> {
    structural_issues(d) + geometry_issues(d.entities, rs)
}

proof fn lemma_geometry_issues_are_errors<G>(es: Seq<Entity<G>>, rs: Seq<Option<GeometryError>>)
    ensures
        forall|i: int| 0 <= i < geometry_issues(es, rs).len() ==> (#[trigger] geometry_issues(es, rs)[i]).severity == ValidationSeverity::Error,
    decreases es.len(),
{
    if es.len() > 0 && rs.len() > 0 {
        lemma_geometry_issues_are_errors(es.drop_last(), rs.drop_last());
    }
}

/// Every issue of a drawing's validation is an error, so validation fails
/// exactly when it finds an issue.
pub proof fn lemma_drawing_issues_are_errors<G, Pt, L>(d: DrawingView<G, Pt, L>, rs: Seq<Option<GeometryError>>)
    ensures
        issues_have_errors(drawing_issues(d, rs)) <==> drawing_issues(d, rs).len() > 0,
{
    lemma_structural_issues_are_errors(d);
    lemma_geometry_issues_are_errors(d.entities, rs);
    let a = structural_issues(d);
    let b = geometry_issues(d.entities, rs);
    let all = drawing_issues(d, rs);
    if all.len() > 0 {
        if a.len() > 0 {
            assert(all[0] == a[0]);
        } else {
            assert(all[0] == b[0]);
        }
    }
}

fn message_issue(id: EntityId, err: GeometryError) -> (issue: ValidationIssue)
    ensures
        issue@ == geometry_issue(id, err),
{
    ValidationIssue {
        severity: ValidationSeverity::Error,
        target: ValidationTarget::Entity(id),
        message: err.message(),
        suggestion: String::from_str("Adjust the entity geometry so it satisfies validation rules."),
    }
}

/// Structural validation of the drawing followed by each entity's shape
/// check; fails with the full report when it holds an error.
fn validate_drawing<G, Pt, L, T, C>(
    drawing: &Drawing<G, Pt, L>,
    ops: &ShapeOps<T, C>,
) -> (out: (Result<(), ValidationReport>, Ghost<Seq<Option<GeometryError>>>)) where
    T: Fn(&G, &L, &L) -> G,
    C: Fn(&G) -> Option<GeometryError>,

    requires
        ops_callable::<G, L, T, C>(*ops),
    ensures
        checked(drawing@.entities, out.1@, ops.check),
        drawing_issues(drawing@, out.1@).len() == 0 ==> out.0 is Ok,
        drawing_issues(drawing@, out.1@).len() > 0 ==> out.0 is Err && out.0->Err_0@ == drawing_issues(drawing@, out.1@),
{
    let mut report = drawing.validate();
    let ghost es = drawing.entities@;
    let ghost base = report@;
    let ghost mut rs: Seq<Option<GeometryError>> = seq![];
    let mut i: usize = 0;
    while i < drawing.entities.len()
        invariant
            i <= es.len(),
            es == drawing.entities@,
            base == structural_issues(drawing@),
            rs.len() == i,
            forall|j: int| 0 <= j < i ==> call_ensures(ops.check, (&es[j].geometry,), #[trigger] rs[j]),
            report@ == base + geometry_issues(es.take(i as int), rs),
            ops_callable::<G, L, T, C>(*ops),
        decreases es.len() - i,
    {
        let e = &drawing.entities[i];
        let found = (ops.check)(&e.geometry);
        let ghost before = report@;
        let ghost rs_old = rs;
        proof {
            rs = rs.push(found);
            assert(es.take(i + 1).drop_last() =~= es.take(i as int));
            assert(rs.drop_last() =~= rs.take(i as int));
        }
        match found {
            Some(err) => {
                let issue = message_issue(e.id, err);
                report.issues.push(issue);
                assert(report@ =~= before.push(geometry_issue(e.id, err)));
            },
            None => {},
        }
        proof {
            assert(rs.take(i as int) =~= rs.drop_last());
            assert(geometry_issues(es.take(i + 1), rs) == {
                let b = geometry_issues(es.take(i as int), rs.drop_last());
                match found {
                    Some(err) => b.push(geometry_issue(es[i as int].id, err)),
                    None => b,
                }
            });
            assert(rs.drop_last() =~= rs_old);
            assert(before == base + geometry_issues(es.take(i as int), rs_old));
            match found {
                Some(err) => {
                    assert(base + geometry_issues(es.take(i as int), rs_old).push(geometry_issue(es[i as int].id, err)) =~= (base + geometry_issues(es.take(i as int), rs_old)).push(geometry_issue(es[i as int].id, err)));
                },
                None => {},
            }
            assert(report@ =~= base + geometry_issues(es.take(i + 1), rs));
        }
        i = i + 1;
    }
    proof {
        assert(es.take(es.len() as int) =~= es);
        lemma_drawing_issues_are_errors(drawing@, rs);
    }
    if report.has_errors() {
        (Err(report), Ghost(rs))
    } else {
        (Ok(()), Ghost(rs))
    }
}

/// The record of the inverse commands of the executed commands (newest
/// last) and of the commands that redo undone ones (the next one last).
pub struct CommandHistory<G, Pt, L> {
    undo: Vec<InverseCommand<G, Pt, L>>,
    redo: Vec<InverseCommand<G, Pt, L>>,
}

impl<G, Pt, L> Default for CommandHistory<G, Pt, L> {
    fn default() -> (h: Self)
        ensures
            h.undo_log().len() == 0,
            h.redo_log().len() == 0,
    {
        CommandHistory { undo: Vec::new(), redo: Vec::new() }
    }
}

/// Command `c`, accepted on `d0`, gives `mid`, and `rs` are the shape check
/// results on `mid`.
pub open spec fn ran<G, Pt, L, T, C>(
    d0: DrawingView<G, Pt, L>,
    c: DrawingCommand<G, Pt, L>,
    ops: ShapeOps<T, C>,
    mid: DrawingView<G, Pt, L>,
    rs: Seq<Option<GeometryError>>,
) -> bool where
    T: Fn(&G, &L, &L) -> G,
    C: Fn(&G) -> Option<GeometryError>,
 {
    &&& applied(d0, c, mid, ops.translate)
    &&& checked(mid.entities, rs, ops.check)
}

impl<G, Pt, L> CommandHistory<G, Pt, L> {
    /// The inverse commands of the executed commands, oldest first.
    pub closed spec fn undo_log(self) -> Seq<InverseCommand<G, Pt, L>> {
        self.undo@
    }

    /// The commands that redo undone commands; the last one is applied first.
    pub closed spec fn redo_log(self) -> Seq<InverseCommand<G, Pt, L>> {
        self.redo@
    }

    /// Whether there is a command to undo.
    pub fn can_undo(&self) -> (b: bool)
        ensures
            b == (self.undo_log().len() > 0),
    {
        self.undo.len() > 0
    }

    /// Whether there is a command to redo.
    pub fn can_redo(&self) -> (b: bool)
        ensures
            b == (self.redo_log().len() > 0),
    {
        self.redo.len() > 0
    }

    /// Executes a command and records its inverse for undo.
    ///
    /// After the command is applied, the drawing is checked structurally and
    /// shape by shape. If the check finds an issue, the inverse is applied,
    /// which leaves the drawing exactly as it was, and the report is
    /// returned; the history is then left as it was. A command the model
    /// refuses changes nothing. A success records an inverse that gives back
    /// the drawing as it was before, and clears the redo history.
    pub fn execute<T, C>(
        &mut self,
        project: &mut Project<G, Pt, L>,
        command: DrawingCommand<G, Pt, L>,
        ops: &ShapeOps<T, C>,
    ) -> (r: Result<(), CommandError>) where
        T: Fn(&G, &L, &L) -> G,
        C: Fn(&G) -> Option<GeometryError>,

        requires
            ops_callable::<G, L, T, C>(*ops),
        ensures
            final(project).id == old(project).id,
            match refusal(old(project).drawing@, command) {
                Some(e) => {
                    &&& r == Err::<(), CommandError>(CommandError::Core(e))
                    &&& final(project).drawing@ == old(project).drawing@
                    &&& final(self).undo_log() == old(self).undo_log()
                    &&& final(self).redo_log() == old(self).redo_log()
                },
                None => exists|mid: DrawingView<G, Pt, L>, rs: Seq<Option<GeometryError>>|
                    #[trigger] ran(old(project).drawing@, command, *ops, mid, rs) && if drawing_issues(mid, rs).len() == 0 {
                        &&& r == Ok::<(), CommandError>(())
                        &&& final(project).drawing@ == mid
                        &&& final(self).undo_log().len() == old(self).undo_log().len() + 1
                        &&& final(self).undo_log().drop_last() == old(self).undo_log()
                        &&& undoes(mid, final(self).undo_log().last(), old(project).drawing@)
                        &&& final(self).redo_log().len() == 0
                    } else {
                        &&& r is Err
                        &&& r->Err_0 is Validation
                        &&& r->Err_0->Validation_0@ == drawing_issues(mid, rs)
                        &&& final(project).drawing@ == old(project).drawing@
                        &&& final(self).undo_log() == old(self).undo_log()
                        &&& final(self).redo_log() == old(self).redo_log()
                    },
            },
    {
        let ghost d0 = project.drawing@;
        let ghost c = command;
        let inverse = match apply(&mut project.drawing, command, ops) {
            Ok(inv) => inv,
            Err(e) => return Err(e),
        };
        let ghost mid = project.drawing@;
        let (checked_result, Ghost(rs)) = validate_drawing(&project.drawing, ops);
        assert(ran(d0, c, *ops, mid, rs));
        match checked_result {
            Err(report) => {
                match apply_inverse(&mut project.drawing, inverse) {
                    Ok(_) => {},
                    Err(e) => return Err(e),
                }
                return Err(CommandError::Validation(report));
            },
            Ok(()) => {},
        }
        let ghost undo0 = self.undo_log();
        self.undo.push(inverse);
        self.redo.clear();
        assert(self.undo_log().drop_last() =~= undo0);
        Ok(())
    }

    /// Undoes the latest executed (or redone) command by applying its
    /// inverse, and records the command that redoes it. `Ok(false)` when
    /// there is nothing to undo.
    ///
    /// When the inverse does not fit the drawing, it is dropped and the
    /// refusal returned.
    pub fn undo(&mut self, project: &mut Project<G, Pt, L>) -> (r: Result<bool, CommandError>)
        ensures
            final(project).id == old(project).id,
            old(self).undo_log().len() == 0 ==> {
                &&& r == Ok::<bool, CommandError>(false)
                &&& final(project).drawing@ == old(project).drawing@
                &&& final(self).undo_log() == old(self).undo_log()
                &&& final(self).redo_log() == old(self).redo_log()
            },
            old(self).undo_log().len() > 0 ==> {
                &&& final(self).undo_log() == old(self).undo_log().drop_last()
                &&& match revert_spec(old(project).drawing@, old(self).undo_log().last()) {
                    Some((n, back)) => {
                        &&& r == Ok::<bool, CommandError>(true)
                        &&& final(project).drawing@ == n
                        &&& final(self).redo_log() == old(self).redo_log().push(back)
                    },
                    None => {
                        &&& r == Err::<bool, CommandError>(CommandError::Core(revert_refusal(old(self).undo_log().last())))
                        &&& final(project).drawing@ == old(project).drawing@
                        &&& final(self).redo_log() == old(self).redo_log()
                    },
                }
            },
    {
        let ghost undo0 = self.undo_log();
        let inverse = match self.undo.pop() {
            Some(inverse) => inverse,
            None => return Ok(false),
        };
        assert(self.undo_log() =~= undo0.drop_last());
        let back = match apply_inverse(&mut project.drawing, inverse) {
            Ok(back) => back,
            Err(e) => return Err(e),
        };
        self.redo.push(back);
        Ok(true)
    }

    /// Redoes the latest undone command by applying the command recorded
    /// for it, and records the inverse that undoes it again. `Ok(false)`
    /// when there is nothing to redo.
    ///
    /// Redo does not re-validate: it gives back the drawing the command
    /// left. When the recorded command does not fit the drawing, it is
    /// dropped and the refusal returned.
    pub fn redo(&mut self, project: &mut Project<G, Pt, L>) -> (r: Result<bool, CommandError>)
        ensures
            final(project).id == old(project).id,
            old(self).redo_log().len() == 0 ==> {
                &&& r == Ok::<bool, CommandError>(false)
                &&& final(project).drawing@ == old(project).drawing@
                &&& final(self).undo_log() == old(self).undo_log()
                &&& final(self).redo_log() == old(self).redo_log()
            },
            old(self).redo_log().len() > 0 ==> {
                &&& final(self).redo_log() == old(self).redo_log().drop_last()
                &&& match revert_spec(old(project).drawing@, old(self).redo_log().last()) {
                    Some((n, back)) => {
                        &&& r == Ok::<bool, CommandError>(true)
                        &&& final(project).drawing@ == n
                        &&& final(self).undo_log() == old(self).undo_log().push(back)
                    },
                    None => {
                        &&& r == Err::<bool, CommandError>(CommandError::Core(revert_refusal(old(self).redo_log().last())))
                        &&& final(project).drawing@ == old(project).drawing@
                        &&& final(self).undo_log() == old(self).undo_log()
                    },
                }
            },
    {
        let ghost redo0 = self.redo_log();
        let command = match self.redo.pop() {
            Some(command) => command,
            None => return Ok(false),
        };
        assert(self.redo_log() =~= redo0.drop_last());
        let back = match apply_inverse(&mut project.drawing, command) {
            Ok(back) => back,
            Err(e) => return Err(e),
        };
        self.undo.push(back);
        Ok(true)
    }
}

/// Running command `c` on `d0` succeeds and leaves `d1`: the model accepts
/// (a copy of) it and the drawing it produces passes validation.
pub open spec fn succeeds<G: Clone, Pt, L, T, C>(
    d0: DrawingView<G, Pt, L>,
    c: DrawingCommand<G, Pt, L>,
    ops: ShapeOps<T, C>,
    d1: DrawingView<G, Pt, L>,
) -> bool where
    T: Fn(&G, &L, &L) -> G,
    C: Fn(&G) -> Option<GeometryError>,
 {
    exists|c2: DrawingCommand<G, Pt, L>, rs: Seq<Option<GeometryError>>|
        #![trigger command_cloned(c, c2), ran(d0, c2, ops, d1, rs)]
        command_cloned(c, c2) && refusal(d0, c2).is_none() && ran(d0, c2, ops, d1, rs) && drawing_issues(d1, rs).len() == 0
}

/// Running command `c` on `d0` fails with error `e`: the model refuses it,
/// or the drawing it produces fails validation with the report `e` holds.
pub open spec fn fails<G: Clone, Pt, L, T, C>(
    d0: DrawingView<G, Pt, L>,
    c: DrawingCommand<G, Pt, L>,
    ops: ShapeOps<T, C>,
    e: CommandError,
) -> bool where
    T: Fn(&G, &L, &L) -> G,
    C: Fn(&G) -> Option<GeometryError>,
 {
    match refusal(d0, c) {
        Some(x) => e == CommandError::Core(x),
        None => exists|c2: DrawingCommand<G, Pt, L>, mid: DrawingView<G, Pt, L>, rs: Seq<Option<GeometryError>>|
            #![trigger command_cloned(c, c2), ran(d0, c2, ops, mid, rs)]
            {
                &&& command_cloned(c, c2)
                &&& ran(d0, c2, ops, mid, rs)
                &&& drawing_issues(mid, rs).len() > 0
                &&& e is Validation
                &&& e->Validation_0@ == drawing_issues(mid, rs)
            },
    }
}

/// `ds` is the sequence of drawings met while running every command of `cs`
/// in turn from `ds[0]`, each command succeeding.
pub open spec fn run_trace<G: Clone, Pt, L, T, C>(
    cs: Seq<DrawingCommand<G, Pt, L>>,
    ops: ShapeOps<T, C>,
    ds: Seq<DrawingView<G, Pt, L>>,
) -> bool where
    T: Fn(&G, &L, &L) -> G,
    C: Fn(&G) -> Option<GeometryError>,
 {
    &&& ds.len() == cs.len() + 1
    &&& forall|i: int| 0 <= i < cs.len() ==> #[trigger] succeeds(ds[i], cs[i], ops, ds[i + 1])
}

/// `d1` is reached from `d0` by running every command of `cs` in turn, each
/// one succeeding.
pub open spec fn runs_through<G: Clone, Pt, L, T, C>(
    d0: DrawingView<G, Pt, L>,
    cs: Seq<DrawingCommand<G, Pt, L>>,
    ops: ShapeOps<T, C>,
    d1: DrawingView<G, Pt, L>,
) -> bool where
    T: Fn(&G, &L, &L) -> G,
    C: Fn(&G) -> Option<GeometryError>,
 {
    exists|ds: Seq<DrawingView<G, Pt, L>>|
        #[trigger] run_trace(cs, ops, ds) && ds[0] == d0 && ds.last() == d1
}

proof fn lemma_command_cloned_refusal<G: Clone, Pt, L>(
    d: DrawingView<G, Pt, L>,
    c: DrawingCommand<G, Pt, L>,
    c2: DrawingCommand<G, Pt, L>,
)
    requires
        command_cloned(c, c2),
    ensures
        refusal(d, c2) == refusal(d, c),
{
}

/// Rebuilds a project from the default one by executing an ordered list of
/// commands; stops at the first command that fails and returns its error.
pub fn replay<G: Clone, Pt: Copy, L: Copy, T, C>(
    commands: &[DrawingCommand<G, Pt, L>],
    ops: &ShapeOps<T, C>,
) -> (r: Result<Project<G, Pt, L>, CommandError>) where
    T: Fn(&G, &L, &L) -> G,
    C: Fn(&G) -> Option<GeometryError>,

    requires
        ops_callable::<G, L, T, C>(*ops),
    ensures
        match r {
            Ok(p) => {
                &&& p.id.spec_value() == 0
                &&& exists|d0: DrawingView<G, Pt, L>| #[trigger] is_default_drawing_view(d0) && runs_through(d0, commands@, *ops, p.drawing@)
            },
            Err(e) => exists|k: int, d0: DrawingView<G, Pt, L>, dk: DrawingView<G, Pt, L>|
                #![trigger runs_through(d0, commands@.take(k), *ops, dk)]
                {
                    &&& 0 <= k < commands@.len()
                    &&& is_default_drawing_view(d0)
                    &&& runs_through(d0, commands@.take(k), *ops, dk)
                    &&& fails(dk, commands@[k], *ops, e)
                },
        },
{
    let mut project: Project<G, Pt, L> = Project::default();
    let mut history: CommandHistory<G, Pt, L> = CommandHistory::default();
    let ghost d0 = project.drawing@;
    let ghost mut trace: Seq<DrawingView<G, Pt, L>> = seq![d0];
    assert(run_trace(commands@.take(0), *ops, trace));
    let mut i: usize = 0;
    while i < commands.len()
        invariant
            i <= commands@.len(),
            ops_callable::<G, L, T, C>(*ops),
            project.id.spec_value() == 0,
            is_default_drawing_view(d0),
            run_trace(commands@.take(i as int), *ops, trace),
            trace[0] == d0,
            trace.last() == project.drawing@,
        decreases commands@.len() - i,
    {
        let ghost dk = project.drawing@;
        let c2 = commands[i].clone();
        proof {
            lemma_command_cloned_refusal(dk, commands@[i as int], c2);
        }
        let ghost c2g = c2;
        let result = history.execute(&mut project, c2, ops);
        let ghost c = commands@[i as int];
        match result {
            Ok(()) => {
                proof {
                    let d1 = project.drawing@;
                    assert(refusal(dk, c2g).is_none());
                    let (mid, rs) = choose|mid: DrawingView<G, Pt, L>, rs: Seq<Option<GeometryError>>|
                        #[trigger] ran(dk, c2g, *ops, mid, rs) && if drawing_issues(mid, rs).len() == 0 {
                            &&& result == Ok::<(), CommandError>(())
                            &&& d1 == mid
                        } else {
                            result is Err
                        };
                    assert(ran(dk, c2g, *ops, mid, rs));
                    assert(mid == d1);
                    assert(command_cloned(c, c2g));
                    assert(succeeds(dk, c, *ops, d1));
                    let next = commands@.take(i + 1);
                    let old_trace = trace;
                    trace = trace.push(d1);
                    assert forall|j: int| 0 <= j < next.len() implies #[trigger] succeeds(trace[j], next[j], *ops, trace[j + 1]) by {
                        if j < i {
                            assert(next[j] == commands@.take(i as int)[j]);
                            assert(trace[j] == old_trace[j]);
                            assert(trace[j + 1] == old_trace[j + 1]);
                        } else {
                            assert(next[j] == c);
                            assert(trace[j] == dk);
                            assert(trace[j + 1] == d1);
                        }
                    }
                    assert(run_trace(next, *ops, trace));
                }
            },
            Err(e) => {
                proof {
                    match refusal(dk, c2g) {
                        Some(x) => {
                            assert(fails(dk, c, *ops, e));
                        },
                        None => {
                            let (mid, rs) = choose|mid: DrawingView<G, Pt, L>, rs: Seq<Option<GeometryError>>|
                                #[trigger] ran(dk, c2g, *ops, mid, rs) && if drawing_issues(mid, rs).len() == 0 {
                                    result == Ok::<(), CommandError>(())
                                } else {
                                    &&& result is Err
                                    &&& result->Err_0 is Validation
                                    &&& result->Err_0->Validation_0@ == drawing_issues(mid, rs)
                                };
                            assert(ran(dk, c2g, *ops, mid, rs));
                            assert(command_cloned(c, c2g));
                            assert(fails(dk, c, *ops, e));
                        },
                    }
                    assert(run_trace(commands@.take(i as int), *ops, trace));
                    assert(runs_through(d0, commands@.take(i as int), *ops, dk));
                }
                return Err(e);
            },
        }
        i = i + 1;
    }
    assert(commands@.take(commands@.len() as int) =~= commands@);
    assert(run_trace(commands@, *ops, trace));
    assert(runs_through(d0, commands@, *ops, project.drawing@));
    Ok(project)
}

} // verus!
