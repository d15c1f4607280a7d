//! Operations on a drawing that keep its identifiers unique: adding and
//! removing entities, layers and dimensions by stable id, looking layers up,
//! and the structural validation that every reference names an existing layer.

use vstd::prelude::*;

use crate::ids::{id_label, DimensionId, DrawingId, EntityId, LayerId};
use crate::keys::{first_index, has_key, lemma_first_index, lemma_first_index_unique, lemma_has_key};
use crate::model::{
    dimension_ids, entity_ids, layer_exists, layer_ids, Dimension, Drawing, Entity, Layer,
};
use crate::report::{
    CoreError, IssueView, ValidationIssue, ValidationReport, ValidationSeverity, ValidationTarget,
};

verus! {

broadcast use vstd::seq_lib::group_seq_properties;

/// A drawing taken as plain sequences.
pub struct DrawingView<G, Pt, L> {
    pub id: DrawingId,
    pub entities: Seq<Entity<G>>,
    pub layers: Seq<Layer>,
    pub dimensions: Seq<Dimension<Pt, L>>,
}

impl<G, Pt, L> View for Drawing<G, Pt, L> {
    type V = DrawingView<G, Pt, L>;

    open spec fn view(&self) -> DrawingView<G, Pt, L> {
        DrawingView {
            id: self.id,
            entities: self.entities@,
            layers: self.layers@,
            dimensions: self.dimensions@,
        }
    }
}

impl<G, Pt, L> DrawingView<G, Pt, L> {
    pub open spec fn with_entities(self, entities: Seq<Entity<G>>) -> Self {
        DrawingView { id: self.id, entities, layers: self.layers, dimensions: self.dimensions }
    }

    pub open spec fn with_layers(self, layers: Seq<Layer>) -> Self {
        DrawingView { id: self.id, entities: self.entities, layers, dimensions: self.dimensions }
    }

    pub open spec fn with_dimensions(self, dimensions: Seq<Dimension<Pt, L>>) -> Self {
        DrawingView { id: self.id, entities: self.entities, layers: self.layers, dimensions }
    }

    /// Position of the first entity with this id, or -1.
    pub open spec fn entity_index(self, id: EntityId) -> int {
        first_index(entity_ids(self.entities), id)
    }

    /// Position of the first layer with this id, or -1.
    pub open spec fn layer_index(self, id: LayerId) -> int {
        first_index(layer_ids(self.layers), id)
    }

    /// Position of the first dimension with this id, or -1.
    pub open spec fn dimension_index(self, id: DimensionId) -> int {
        first_index(dimension_ids(self.dimensions), id)
    }

    /// Adding an entity: refused when its id is taken, otherwise appended.
    pub open spec fn add_entity(self, e: Entity<G>) -> Result<Self, CoreError> {
        if has_key(entity_ids(self.entities), e.id) {
            Err(CoreError::DuplicateEntityId(e.id))
        } else {
            Ok(self.with_entities(self.entities.push(e)))
        }
    }

    /// Removing an entity: the first one with the id leaves; refused when there is none.
    pub open spec fn remove_entity(self, id: EntityId) -> Result<(Self, Entity<G>), CoreError> {
        let i = self.entity_index(id);
        if i < 0 {
            Err(CoreError::MissingEntity(id))
        } else {
            Ok((self.with_entities(self.entities.remove(i)), self.entities[i]))
        }
    }

    /// Adding a layer: refused when its id is taken, otherwise appended.
    pub open spec fn add_layer(self, l: Layer) -> Result<Self, CoreError> {
        if has_key(layer_ids(self.layers), l.id) {
            Err(CoreError::DuplicateLayerId(l.id))
        } else {
            Ok(self.with_layers(self.layers.push(l)))
        }
    }

    /// Removing a layer: the first one with the id leaves; refused when there is none.
    pub open spec fn remove_layer(self, id: LayerId) -> Result<(Self, Layer), CoreError> {
        let i = self.layer_index(id);
        if i < 0 {
            Err(CoreError::MissingLayer(id))
        } else {
            Ok((self.with_layers(self.layers.remove(i)), self.layers[i]))
        }
    }

    /// Adding a dimension: refused when its id is taken, otherwise appended.
    pub open spec fn add_dimension(self, d: Dimension<Pt, L>) -> Result<Self, CoreError> {
        if has_key(dimension_ids(self.dimensions), d.id) {
            Err(CoreError::DuplicateDimensionId(d.id))
        } else {
            Ok(self.with_dimensions(self.dimensions.push(d)))
        }
    }

    /// Removing a dimension: the first one with the id leaves; refused when there is none.
    pub open spec fn remove_dimension(self, id: DimensionId) -> Result<
        (Self, Dimension<Pt, L>),
        CoreError,
    > {
        let i = self.dimension_index(id);
        if i < 0 {
            Err(CoreError::MissingDimension(id))
        } else {
            Ok((self.with_dimensions(self.dimensions.remove(i)), self.dimensions[i]))
        }
    }
}

/// The drawing a new project starts with, taken as sequences: drawing id 0,
/// no entities or dimensions, and one visible, unlocked layer "0" with id 0.
pub open spec fn is_default_drawing_view<G, Pt, L>(d: DrawingView<G, Pt, L>) -> bool {
    &&& d.id.spec_value() == 0
    &&& d.entities.len() == 0
    &&& d.dimensions.len() == 0
    &&& d.layers.len() == 1
    &&& d.layers[0].id.spec_value() == 0
    &&& d.layers[0].name@ == seq!['0']
    &&& d.layers[0].visible
    &&& !d.layers[0].locked
}

/// The issue reported for an entity whose layer does not exist.
pub open spec fn entity_layer_issue<G>(e: Entity<G>) -> IssueView {
    IssueView {
        severity: ValidationSeverity::Error,
        target: ValidationTarget::Entity(e.id),
        message: "entity references missing layer "@ + id_label("LayerId"@, e.layer_id.spec_value()),
        suggestion: "Create the missing layer or reassign the entity to an existing layer."@,
    }
}

/// The issue reported for a dimension whose layer does not exist.
pub open spec fn dimension_layer_issue<Pt, L>(d: Dimension<Pt, L>) -> IssueView {
    IssueView {
        severity: ValidationSeverity::Error,
        target: ValidationTarget::Dimension(d.id),
        message: "dimension references missing layer "@ + id_label(
            "LayerId"@,
            d.layer_id.spec_value(),
        ),
        suggestion: "Create the missing layer or reassign the dimension to an existing layer."@,
    }
}

/// One issue per entity whose layer is missing, in entity order.
pub open spec fn entity_layer_issues<G>(es: Seq<Entity<G>>, layers: Seq<Layer>) -> Seq<IssueView>
    decreases es.len(),
{
    if es.len() == 0 {
        seq![]
    } else {
        let before = entity_layer_issues(es.drop_last(), layers);
        if layer_exists(layers, es.last().layer_id) {
            before
        } else {
            before.push(entity_layer_issue(es.last()))
        }
    }
}

/// One issue per dimension whose layer is missing, in dimension order.
pub open spec fn dimension_layer_issues<Pt, L>(
    ds: Seq<Dimension<Pt, L>>,
    layers: Seq<Layer>,
) -> Seq<IssueView>
    decreases ds.len(),
{
    if ds.len() == 0 {
        seq![]
    } else {
        let before = dimension_layer_issues(ds.drop_last(), layers);
        if layer_exists(layers, ds.last().layer_id) {
            before
        } else {
            before.push(dimension_layer_issue(ds.last()))
        }
    }
}

/// The structural issues of a drawing: first the entities, then the
/// dimensions that reference a layer the drawing does not have.
pub open spec fn structural_issues<G, Pt, L>(d: DrawingView<G, Pt, L>) -> Seq<IssueView> {
    entity_layer_issues(d.entities, d.layers) + dimension_layer_issues(d.dimensions, d.layers)
}

proof fn lemma_entity_issues_filter<G>(es: Seq<Entity<G>>, ls: Seq<Layer>)
    ensures
        entity_layer_issues(es, ls) == es.filter(|e: Entity<G>| !layer_exists(ls, e.layer_id)).map_values(
            |e: Entity<G>| entity_layer_issue(e),
        ),
    decreases es.len(),
{
    reveal_with_fuel(Seq::filter, 1);
    if es.len() > 0 {
        lemma_entity_issues_filter(es.drop_last(), ls);
        let f = es.drop_last().filter(|e: Entity<G>| !layer_exists(ls, e.layer_id));
        if !layer_exists(ls, es.last().layer_id) {
            assert(f.push(es.last()).map_values(|e: Entity<G>| entity_layer_issue(e)) =~= f.map_values(
                |e: Entity<G>| entity_layer_issue(e),
            ).push(entity_layer_issue(es.last())));
        }
    } else {
        assert(es.filter(|e: Entity<G>| !layer_exists(ls, e.layer_id)).map_values(|e: Entity<G>| entity_layer_issue(e)) =~= seq![]);
    }
}

proof fn lemma_dimension_issues_filter<Pt, L>(ds: Seq<Dimension<Pt, L>>, ls: Seq<Layer>)
    ensures
        dimension_layer_issues(ds, ls) == ds.filter(|x: Dimension<Pt, L>| !layer_exists(ls, x.layer_id)).map_values(
            |x: Dimension<Pt, L>| dimension_layer_issue(x),
        ),
    decreases ds.len(),
{
    reveal_with_fuel(Seq::filter, 1);
    if ds.len() > 0 {
        lemma_dimension_issues_filter(ds.drop_last(), ls);
        let f = ds.drop_last().filter(|x: Dimension<Pt, L>| !layer_exists(ls, x.layer_id));
        if !layer_exists(ls, ds.last().layer_id) {
            assert(f.push(ds.last()).map_values(|x: Dimension<Pt, L>| dimension_layer_issue(x)) =~= f.map_values(
                |x: Dimension<Pt, L>| dimension_layer_issue(x),
            ).push(dimension_layer_issue(ds.last())));
        }
    } else {
        assert(ds.filter(|x: Dimension<Pt, L>| !layer_exists(ls, x.layer_id)).map_values(|x: Dimension<Pt, L>| dimension_layer_issue(x)) =~= seq![]);
    }
}

/// Validation reports one issue for each entity whose layer is missing, in
/// entity order, then one for each dimension whose layer is missing, in
/// dimension order; the issue names that entity or dimension and the
/// missing layer, and there is no other issue.
pub proof fn lemma_validation_reports_each_dangling_reference<G, Pt, L>(d: DrawingView<G, Pt, L>)
    ensures
        ({
            let me = d.entities.filter(|e: Entity<G>| !layer_exists(d.layers, e.layer_id));
            let md = d.dimensions.filter(|x: Dimension<Pt, L>| !layer_exists(d.layers, x.layer_id));
            &&& structural_issues(d).len() == me.len() + md.len()
            &&& forall|k: int| 0 <= k < me.len() ==> {
                &&& (#[trigger] structural_issues(d)[k]).target == ValidationTarget::Entity(me[k].id)
                &&& structural_issues(d)[k] == entity_layer_issue(me[k])
            }
            &&& forall|k: int| 0 <= k < md.len() ==> {
                &&& (#[trigger] structural_issues(d)[me.len() + k]).target == ValidationTarget::Dimension(md[k].id)
                &&& structural_issues(d)[me.len() + k] == dimension_layer_issue(md[k])
            }
        }),
{
    lemma_entity_issues_filter(d.entities, d.layers);
    lemma_dimension_issues_filter(d.dimensions, d.layers);
}

/// The entities whose layer is missing are exactly those whose layer id no
/// layer of the drawing carries.
pub proof fn lemma_layer_exists_means_some_layer_has_the_id(layers: Seq<Layer>, id: LayerId)
    ensures
        layer_exists(layers, id) <==> exists|j: int| 0 <= j < layers.len() && layers[j].id == id,
{
    let keys = layer_ids(layers);
    if layer_exists(layers, id) {
        let j = choose|j: int| 0 <= j < keys.len() && keys[j] == id;
        assert(layers[j].id == id);
    }
    if exists|j: int| 0 <= j < layers.len() && layers[j].id == id {
        let j = choose|j: int| 0 <= j < layers.len() && layers[j].id == id;
        assert(keys[j] == id);
    }
}

/// The id handed out for the next entity is fresh and one past the largest:
/// it is above every entity id of the drawing, it is 1 for a drawing
/// without entities, and otherwise one more than the id of some entity.
pub proof fn lemma_next_entity_id_is_fresh<G>(es: Seq<Entity<G>>)
    ensures
        forall|i: int| 0 <= i < es.len() ==> (#[trigger] es[i]).id.spec_value() < next_entity_value(es),
        es.len() == 0 ==> next_entity_value(es) == 1,
        es.len() > 0 ==> exists|i: int| 0 <= i < es.len() && (#[trigger] es[i]).id.spec_value() + 1 == next_entity_value(es),
{
    lemma_max_entity_value(es);
}

proof fn lemma_max_entity_value<G>(es: Seq<Entity<G>>)
    ensures
        forall|i: int| 0 <= i < es.len() ==> (#[trigger] es[i]).id.spec_value() <= max_entity_value(es),
        es.len() > 0 ==> exists|i: int| 0 <= i < es.len() && (#[trigger] es[i]).id.spec_value() == max_entity_value(es),
    decreases es.len(),
{
    if es.len() > 0 {
        let p = es.drop_last();
        lemma_max_entity_value(p);
        assert forall|i: int| 0 <= i < es.len() implies (#[trigger] es[i]).id.spec_value() <= max_entity_value(es) by {
            if i < p.len() {
                assert(es[i] == p[i]);
            }
        }
        if p.len() > 0 && max_entity_value(p) >= es.last().id.spec_value() {
            let j = choose|j: int| 0 <= j < p.len() && (#[trigger] p[j]).id.spec_value() == max_entity_value(p);
            assert(es[j] == p[j]);
        } else {
            assert(es[es.len() - 1] == es.last());
        }
    }
}

/// Every entity and dimension references an existing layer.
pub open spec fn references_resolve<G, Pt, L>(d: DrawingView<G, Pt, L>) -> bool {
    &&& forall|i: int| 0 <= i < d.entities.len() ==> layer_exists(d.layers, #[trigger] d.entities[i].layer_id)
    &&& forall|i: int| 0 <= i < d.dimensions.len() ==> layer_exists(d.layers, #[trigger] d.dimensions[i].layer_id)
}

/// The structural issues are empty exactly when every reference resolves.
pub proof fn lemma_structural_issues_empty<G, Pt, L>(d: DrawingView<G, Pt, L>)
    ensures
        structural_issues(d).len() == 0 <==> references_resolve(d),
{
    lemma_entity_issues_empty(d.entities, d.layers);
    lemma_dimension_issues_empty(d.dimensions, d.layers);
}

proof fn lemma_entity_issues_empty<G>(es: Seq<Entity<G>>, layers: Seq<Layer>)
    ensures
        entity_layer_issues(es, layers).len() == 0 <==> (forall|i: int| 0 <= i < es.len() ==> layer_exists(layers, #[trigger] es[i].layer_id)),
    decreases es.len(),
{
    if es.len() > 0 {
        lemma_entity_issues_empty(es.drop_last(), layers);
        assert forall|i: int| 0 <= i < es.len() - 1 implies es.drop_last()[i] == es[i] by {}
    }
}

proof fn lemma_dimension_issues_empty<Pt, L>(ds: Seq<Dimension<Pt, L>>, layers: Seq<Layer>)
    ensures
        dimension_layer_issues(ds, layers).len() == 0 <==> (forall|i: int| 0 <= i < ds.len() ==> layer_exists(layers, #[trigger] ds[i].layer_id)),
    decreases ds.len(),
{
    if ds.len() > 0 {
        lemma_dimension_issues_empty(ds.drop_last(), layers);
        assert forall|i: int| 0 <= i < ds.len() - 1 implies ds.drop_last()[i] == ds[i] by {}
    }
}

/// Every structural issue is an error.
pub proof fn lemma_structural_issues_are_errors<G, Pt, L>(d: DrawingView<G, Pt, L>)
    ensures
        forall|i: int| 0 <= i < structural_issues(d).len() ==> (#[trigger] structural_issues(d)[i]).severity == ValidationSeverity::Error,
{
    lemma_entity_issues_errors(d.entities, d.layers);
    lemma_dimension_issues_errors(d.dimensions, d.layers);
    let a = entity_layer_issues(d.entities, d.layers);
    let b = dimension_layer_issues(d.dimensions, d.layers);
    assert forall|i: int| 0 <= i < structural_issues(d).len() implies (#[trigger] structural_issues(d)[i]).severity == ValidationSeverity::Error by {
        if i < a.len() {
            assert(structural_issues(d)[i] == a[i]);
        } else {
            assert(structural_issues(d)[i] == b[i - a.len()]);
        }
    }
}

proof fn lemma_entity_issues_errors<G>(es: Seq<Entity<G>>, layers: Seq<Layer>)
    ensures
        forall|i: int| 0 <= i < entity_layer_issues(es, layers).len() ==> (#[trigger] entity_layer_issues(es, layers)[i]).severity == ValidationSeverity::Error,
    decreases es.len(),
{
    if es.len() > 0 {
        lemma_entity_issues_errors(es.drop_last(), layers);
    }
}

proof fn lemma_dimension_issues_errors<Pt, L>(ds: Seq<Dimension<Pt, L>>, layers: Seq<Layer>)
    ensures
        forall|i: int| 0 <= i < dimension_layer_issues(ds, layers).len() ==> (#[trigger] dimension_layer_issues(ds, layers)[i]).severity == ValidationSeverity::Error,
    decreases ds.len(),
{
    if ds.len() > 0 {
        lemma_dimension_issues_errors(ds.drop_last(), layers);
    }
}

/// Position of the first entity with `id` in `es`.
pub fn find_entity<G>(es: &Vec<Entity<G>>, id: EntityId) -> (r: Option<usize>)
    ensures
        match r {
            Some(i) => i as int == first_index(entity_ids(es@), id) && i < es@.len(),
            None => first_index(entity_ids(es@), id) == -1,
        },
{
    let ghost keys = entity_ids(es@);
    let mut i: usize = 0;
    while i < es.len()
        invariant
            i <= es@.len(),
            keys == entity_ids(es@),
            forall|j: int| 0 <= j < i ==> keys[j] != id,
        decreases es@.len() - i,
    {
        if es[i].id == id {
            proof {
                lemma_first_index_unique(keys, id, i as int);
            }
            return Some(i);
        }
        i = i + 1;
    }
    proof {
        lemma_first_index(keys, id);
    }
    None
}

/// Position of the first layer with `id` in `ls`.
pub fn find_layer(ls: &Vec<Layer>, id: LayerId) -> (r: Option<usize>)
    ensures
        match r {
            Some(i) => i as int == first_index(layer_ids(ls@), id) && i < ls@.len(),
            None => first_index(layer_ids(ls@), id) == -1,
        },
{
    let ghost keys = layer_ids(ls@);
    let mut i: usize = 0;
    while i < ls.len()
        invariant
            i <= ls@.len(),
            keys == layer_ids(ls@),
            forall|j: int| 0 <= j < i ==> keys[j] != id,
        decreases ls@.len() - i,
    {
        if ls[i].id == id {
            proof {
                lemma_first_index_unique(keys, id, i as int);
            }
            return Some(i);
        }
        i = i + 1;
    }
    proof {
        lemma_first_index(keys, id);
    }
    None
}

/// Position of the first dimension with `id` in `ds`.
pub fn find_dimension<Pt, L>(ds: &Vec<Dimension<Pt, L>>, id: DimensionId) -> (r: Option<usize>)
    ensures
        match r {
            Some(i) => i as int == first_index(dimension_ids(ds@), id) && i < ds@.len(),
            None => first_index(dimension_ids(ds@), id) == -1,
        },
{
    let ghost keys = dimension_ids(ds@);
    let mut i: usize = 0;
    while i < ds.len()
        invariant
            i <= ds@.len(),
            keys == dimension_ids(ds@),
            forall|j: int| 0 <= j < i ==> keys[j] != id,
        decreases ds@.len() - i,
    {
        if ds[i].id == id {
            proof {
                lemma_first_index_unique(keys, id, i as int);
            }
            return Some(i);
        }
        i = i + 1;
    }
    proof {
        lemma_first_index(keys, id);
    }
    None
}

fn text_with_label(prefix: &str, label: String) -> (s: String)
    ensures
        s@ == prefix@ + label@,
{
    let mut s = String::from_str(prefix);
    s.append(label.as_str());
    s
}

/// Whether a layer with `id` is among `ls`.
pub fn layer_present(ls: &Vec<Layer>, id: LayerId) -> (b: bool)
    ensures
        b == layer_exists(ls@, id),
{
    let r = find_layer(ls, id);
    proof {
        lemma_has_key(layer_ids(ls@), id);
    }
    r.is_some()
}

impl<G, Pt, L> Drawing<G, Pt, L> {
    /// Adds an entity while keeping entity ids unique.
    ///
    /// Refused with `DuplicateEntityId` when an entity with the same id exists.
    pub fn add_entity(&mut self, entity: Entity<G>) -> (r: Result<(), CoreError>)
        ensures
            match old(self)@.add_entity(entity) {
                Ok(d) => r == Ok::<(), CoreError>(()) && final(self)@ == d,
                Err(e) => r == Err::<(), CoreError>(e) && final(self)@ == old(self)@,
            },
    {
        proof {
            lemma_has_key(entity_ids(self.entities@), entity.id);
        }
        if find_entity(&self.entities, entity.id).is_some() {
            return Err(CoreError::DuplicateEntityId(entity.id));
        }
        self.entities.push(entity);
        Ok(())
    }

    /// Removes and returns the entity with the given id.
    ///
    /// Refused with `MissingEntity` when no entity has the id.
    pub fn remove_entity(&mut self, id: EntityId) -> (r: Result<Entity<G>, CoreError>)
        ensures
            match old(self)@.remove_entity(id) {
                Ok((d, e)) => r == Ok::<Entity<G>, CoreError>(e) && final(self)@ == d,
                Err(err) => r == Err::<Entity<G>, CoreError>(err) && final(self)@ == old(self)@,
            },
    {
        match find_entity(&self.entities, id) {
            Some(i) => Ok(self.entities.remove(i)),
            None => Err(CoreError::MissingEntity(id)),
        }
    }

    /// Adds a layer while keeping layer ids unique.
    ///
    /// Refused with `DuplicateLayerId` when a layer with the same id exists.
    pub fn add_layer(&mut self, layer: Layer) -> (r: Result<(), CoreError>)
        ensures
            match old(self)@.add_layer(layer) {
                Ok(d) => r == Ok::<(), CoreError>(()) && final(self)@ == d,
                Err(e) => r == Err::<(), CoreError>(e) && final(self)@ == old(self)@,
            },
    {
        proof {
            lemma_has_key(layer_ids(self.layers@), layer.id);
        }
        if find_layer(&self.layers, layer.id).is_some() {
            return Err(CoreError::DuplicateLayerId(layer.id));
        }
        self.layers.push(layer);
        Ok(())
    }

    /// The first layer with the given id, if any.
    pub fn layer(&self, id: LayerId) -> (r: Option<&Layer>)
        ensures
            match r {
                Some(l) => self@.layer_index(id) >= 0 && *l == self@.layers[self@.layer_index(id)],
                None => self@.layer_index(id) == -1,
            },
    {
        match find_layer(&self.layers, id) {
            Some(i) => Some(&self.layers[i]),
            None => None,
        }
    }

    /// Removes and returns the layer with the given id.
    ///
    /// Refused with `MissingLayer` when no layer has the id.
    pub fn remove_layer(&mut self, id: LayerId) -> (r: Result<Layer, CoreError>)
        ensures
            match old(self)@.remove_layer(id) {
                Ok((d, l)) => r == Ok::<Layer, CoreError>(l) && final(self)@ == d,
                Err(err) => r == Err::<Layer, CoreError>(err) && final(self)@ == old(self)@,
            },
    {
        match find_layer(&self.layers, id) {
            Some(i) => Ok(self.layers.remove(i)),
            None => Err(CoreError::MissingLayer(id)),
        }
    }

    /// Adds a dimension while keeping dimension ids unique.
    ///
    /// Refused with `DuplicateDimensionId` when a dimension with the same id exists.
    pub fn add_dimension(&mut self, dim: Dimension<Pt, L>) -> (r: Result<(), CoreError>)
        ensures
            match old(self)@.add_dimension(dim) {
                Ok(d) => r == Ok::<(), CoreError>(()) && final(self)@ == d,
                Err(e) => r == Err::<(), CoreError>(e) && final(self)@ == old(self)@,
            },
    {
        proof {
            lemma_has_key(dimension_ids(self.dimensions@), dim.id);
        }
        if find_dimension(&self.dimensions, dim.id).is_some() {
            return Err(CoreError::DuplicateDimensionId(dim.id));
        }
        self.dimensions.push(dim);
        Ok(())
    }

    /// Removes and returns the dimension with the given id.
    ///
    /// Refused with `MissingDimension` when no dimension has the id.
    pub fn remove_dimension(&mut self, id: DimensionId) -> (r: Result<Dimension<Pt, L>, CoreError>)
        ensures
            match old(self)@.remove_dimension(id) {
                Ok((d, dim)) => r == Ok::<Dimension<Pt, L>, CoreError>(dim) && final(self)@ == d,
                Err(err) => r == Err::<Dimension<Pt, L>, CoreError>(err) && final(self)@ == old(self)@,
            },
    {
        match find_dimension(&self.dimensions, id) {
            Some(i) => Ok(self.dimensions.remove(i)),
            None => Err(CoreError::MissingDimension(id)),
        }
    }

    /// Checks that every entity and every dimension references a layer of
    /// this drawing; each one that does not yields an error issue.
    pub fn validate(&self) -> (r: ValidationReport)
        ensures
            r@ == structural_issues(self@),
    {
        let mut issues: Vec<ValidationIssue> = Vec::new();
        let ghost es = self.entities@;
        let ghost ds = self.dimensions@;
        let ghost ls = self.layers@;
        let mut i: usize = 0;
        while i < self.entities.len()
            invariant
                i <= es.len(),
                es == self.entities@,
                ls == self.layers@,
                issues@.map_values(|x: ValidationIssue| x@) == entity_layer_issues(es.take(i as int), ls),
            decreases es.len() - i,
        {
            let e = &self.entities[i];
            assert(es.take(i + 1).drop_last() =~= es.take(i as int));
            if !layer_present(&self.layers, e.layer_id) {
                let issue = ValidationIssue {
                    severity: ValidationSeverity::Error,
                    target: ValidationTarget::Entity(e.id),
                    message: text_with_label("entity references missing layer ", e.layer_id.label()),
                    suggestion: String::from_str(
                        "Create the missing layer or reassign the entity to an existing layer.",
                    ),
                };
                issues.push(issue);
                assert(issues@.map_values(|x: ValidationIssue| x@) =~= entity_layer_issues(es.take(i + 1), ls));
            } else {
                assert(issues@.map_values(|x: ValidationIssue| x@) =~= entity_layer_issues(es.take(i + 1), ls));
            }
            i = i + 1;
        }
        assert(es.take(es.len() as int) =~= es);
        let mut k: usize = 0;
        while k < self.dimensions.len()
            invariant
                k <= ds.len(),
                ds == self.dimensions@,
                ls == self.layers@,
                issues@.map_values(|x: ValidationIssue| x@) == entity_layer_issues(es, ls) + dimension_layer_issues(ds.take(k as int), ls),
            decreases ds.len() - k,
        {
            let d = &self.dimensions[k];
            assert(ds.take(k + 1).drop_last() =~= ds.take(k as int));
            if !layer_present(&self.layers, d.layer_id) {
                let issue = ValidationIssue {
                    severity: ValidationSeverity::Error,
                    target: ValidationTarget::Dimension(d.id),
                    message: text_with_label("dimension references missing layer ", d.layer_id.label()),
                    suggestion: String::from_str(
                        "Create the missing layer or reassign the dimension to an existing layer.",
                    ),
                };
                let ghost before = issues@.map_values(|x: ValidationIssue| x@);
                issues.push(issue);
                assert(dimension_layer_issues(ds.take(k + 1), ls) == dimension_layer_issues(ds.take(k as int), ls).push(dimension_layer_issue(ds[k as int])));
                assert(issues@.map_values(|x: ValidationIssue| x@) =~= before.push(dimension_layer_issue(ds[k as int])));
                assert(issues@.map_values(|x: ValidationIssue| x@) =~= entity_layer_issues(es, ls) + dimension_layer_issues(ds.take(k + 1), ls));
            } else {
                assert(issues@.map_values(|x: ValidationIssue| x@) =~= entity_layer_issues(es, ls) + dimension_layer_issues(ds.take(k + 1), ls));
            }
            k = k + 1;
        }
        assert(ds.take(ds.len() as int) =~= ds);
        ValidationReport { issues }
    }
}

/// The largest entity id value among `es`, or 0 when there is none.
pub open spec fn max_entity_value<G>(es: Seq<Entity<G>>) -> nat
    decreases es.len(),
{
    if es.len() == 0 {
        0
    } else {
        let before = max_entity_value(es.drop_last());
        let v = es.last().id.spec_value() as nat;
        if v > before {
            v
        } else {
            before
        }
    }
}

/// The id value the editor gives the next entity it creates: one past the
/// largest entity id of the drawing, or 1 when it has no entity.
pub open spec fn next_entity_value<G>(es: Seq<Entity<G>>) -> nat {
    if es.len() == 0 {
        1
    } else {
        max_entity_value(es) + 1
    }
}

/// The id value for the next entity the editor creates (see `next_entity_value`).
pub fn next_entity_id<G, Pt, L>(drawing: &Drawing<G, Pt, L>) -> (r: u64)
    requires
        forall|i: int| 0 <= i < drawing@.entities.len() ==> (#[trigger] drawing@.entities[i]).id.spec_value() < u64::MAX,
    ensures
        r == next_entity_value(drawing@.entities),
{
    let ghost es = drawing.entities@;
    if drawing.entities.len() == 0 {
        return 1;
    }
    let mut best: u64 = 0;
    let mut i: usize = 0;
    assert(es.take(0) =~= Seq::<Entity<G>>::empty());
    assert forall|j: int| 0 <= j < es.len() implies (#[trigger] es[j]).id.spec_value() < u64::MAX by {
        assert(drawing@.entities[j] == es[j]);
    }
    while i < drawing.entities.len()
        invariant
            i <= es.len(),
            es == drawing.entities@,
            best == max_entity_value(es.take(i as int)),
            best < u64::MAX,
            forall|j: int| 0 <= j < es.len() ==> (#[trigger] es[j]).id.spec_value() < u64::MAX,
        decreases es.len() - i,
    {
        assert(es.take(i + 1).drop_last() =~= es.take(i as int));
        let v = drawing.entities[i].id.value();
        if v > best {
            best = v;
        }
        i = i + 1;
    }
    assert(es.take(es.len() as int) =~= es);
    best + 1
}

} // verus!
