//! Properties that relate several operations: what undo and redo give
//! back, what a successful command guarantees, and that running the same
//! commands twice gives the same drawing.

use vstd::prelude::*;

use crate::command::{
    applied, checked, command_cloned, lemma_inverse_round_trip, ran, refusal, revert_spec, run_trace,
    runs_through, succeeds, fails, undoes, CommandError, DrawingCommand, InverseCommand, ShapeOps,
};
use crate::drawing::{
    is_default_drawing_view, lemma_structural_issues_are_errors, lemma_structural_issues_empty,
    references_resolve, structural_issues, DrawingView,
};
use crate::report::issues_have_errors;
use crate::geometry::GeometryError;
use crate::keys::{has_key, keys_unique, lemma_first_index, lemma_first_index_push_absent};
use crate::model::{dimension_ids, entity_ids, layer_ids, Entity};

verus! {

broadcast use vstd::seq_lib::group_seq_properties;

proof fn lemma_entity_ids_push<G>(s: Seq<Entity<G>>, x: Entity<G>)
    ensures
        entity_ids(s.push(x)) == entity_ids(s).push(x.id),
{
    assert(entity_ids(s.push(x)) =~= entity_ids(s).push(x.id));
}

proof fn lemma_entity_ids_update<G>(s: Seq<Entity<G>>, i: int, x: Entity<G>)
    requires
        0 <= i < s.len(),
        x.id == s[i].id,
    ensures
        entity_ids(s.update(i, x)) == entity_ids(s),
{
    assert(entity_ids(s.update(i, x)) =~= entity_ids(s));
}

/// Undo and redo give back drawings exactly: when `inv` undoes the command
/// that turned `d0` into `d1` (as `execute` records it), applying it to
/// `d1` gives back exactly `d0`, and applying the command it hands back (as
/// `undo` records it for redo) gives back exactly `d1` and `inv` again.
pub proof fn lemma_undo_then_redo<G, Pt, L>(
    d0: DrawingView<G, Pt, L>,
    d1: DrawingView<G, Pt, L>,
    inv: InverseCommand<G, Pt, L>,
)
    requires
        undoes(d1, inv, d0),
    ensures
        revert_spec(d1, inv) is Some,
        revert_spec(d1, inv)->Some_0.0 == d0,
        revert_spec(d0, revert_spec(d1, inv)->Some_0.1) == Some((d1, inv)),
{
    lemma_inverse_round_trip(d1, inv);
}

/// A successful command leaves a drawing that passes validation: every
/// entity and dimension references an existing layer and no shape check
/// reported an error.
pub proof fn lemma_successful_execute_is_valid<G, Pt, L, T, C>(
    d0: DrawingView<G, Pt, L>,
    c: DrawingCommand<G, Pt, L>,
    ops: ShapeOps<T, C>,
    rs: Seq<Option<GeometryError>>,
    d1: DrawingView<G, Pt, L>,
) where
    T: Fn(&G, &L, &L) -> G,
    C: Fn(&G) -> Option<GeometryError>,

    requires
        ran(d0, c, ops, d1, rs),
        crate::command::drawing_issues(d1, rs).len() == 0,
    ensures
        references_resolve(d1),
        checked(d1.entities, rs, ops.check),
        forall|i: int| 0 <= i < rs.len() ==> (#[trigger] rs[i]).is_none(),
{
    lemma_structural_issues_empty(d1);
    assert forall|i: int| 0 <= i < rs.len() implies (#[trigger] rs[i]).is_none() by {
        lemma_no_geometry_issues(d1.entities, rs, i);
    }
}

proof fn lemma_no_geometry_issues<G>(es: Seq<Entity<G>>, rs: Seq<Option<GeometryError>>, i: int)
    requires
        rs.len() == es.len(),
        crate::command::geometry_issues(es, rs).len() == 0,
        0 <= i < rs.len(),
    ensures
        rs[i].is_none(),
    decreases es.len(),
{
    let p = crate::command::geometry_issues(es.drop_last(), rs.drop_last());
    if rs.last().is_some() {
        assert(crate::command::geometry_issues(es, rs).len() == p.len() + 1);
    }
    if i < rs.len() - 1 {
        assert(p.len() == 0);
        lemma_no_geometry_issues(es.drop_last(), rs.drop_last(), i);
    }
}

/// No id occurs twice among the entities, among the layers, or among the
/// dimensions of a drawing.
pub open spec fn ids_unique<G, Pt, L>(d: DrawingView<G, Pt, L>) -> bool {
    &&& keys_unique(entity_ids(d.entities))
    &&& keys_unique(layer_ids(d.layers))
    &&& keys_unique(dimension_ids(d.dimensions))
}

proof fn lemma_push_keeps_unique<K>(keys: Seq<K>, k: K)
    requires
        keys_unique(keys),
        !has_key(keys, k),
    ensures
        keys_unique(keys.push(k)),
{
    let s = keys.push(k);
    assert forall|i: int, j: int| 0 <= i < s.len() && 0 <= j < s.len() && i != j implies s[i] != s[j] by {
        if i == keys.len() {
            assert(keys[j] != k);
        } else if j == keys.len() {
            assert(keys[i] != k);
        }
    }
}

proof fn lemma_remove_keeps_unique<K>(keys: Seq<K>, i: int)
    requires
        keys_unique(keys),
        0 <= i < keys.len(),
    ensures
        keys_unique(keys.remove(i)),
{
    let s = keys.remove(i);
    assert forall|a: int, b: int| 0 <= a < s.len() && 0 <= b < s.len() && a != b implies s[a] != s[b] by {
        let a2 = if a < i { a } else { a + 1 };
        let b2 = if b < i { b } else { b + 1 };
        assert(s[a] == keys[a2]);
        assert(s[b] == keys[b2]);
    }
}

/// Stable ids stay unique: every command the model accepts keeps each kind
/// of id unique in the drawing it produces.
pub proof fn lemma_commands_keep_ids_unique<G, Pt, L, T: Fn(&G, &L, &L) -> G>(
    d0: DrawingView<G, Pt, L>,
    c: DrawingCommand<G, Pt, L>,
    d1: DrawingView<G, Pt, L>,
    translate: T,
)
    requires
        ids_unique(d0),
        refusal(d0, c).is_none(),
        applied(d0, c, d1, translate),
    ensures
        ids_unique(d1),
{
    match c {
        DrawingCommand::AddEntity(e) => {
            lemma_entity_ids_push(d0.entities, e);
            lemma_push_keeps_unique(entity_ids(d0.entities), e.id);
        },
        DrawingCommand::DeleteEntity { id } => {
            lemma_first_index(entity_ids(d0.entities), id);
            let i = d0.entity_index(id);
            assert(entity_ids(d1.entities) =~= entity_ids(d0.entities).remove(i));
            lemma_remove_keeps_unique(entity_ids(d0.entities), i);
        },
        DrawingCommand::MoveEntity { id, dx, dy } => {
            lemma_first_index(entity_ids(d0.entities), id);
            let i = d0.entity_index(id);
            lemma_entity_ids_update(d0.entities, i, d1.entities[i]);
        },
        DrawingCommand::SetEntityLayer { id, layer_id } => {
            lemma_first_index(entity_ids(d0.entities), id);
            let i = d0.entity_index(id);
            lemma_entity_ids_update(d0.entities, i, d1.entities[i]);
        },
        DrawingCommand::AddLayer(l) => {
            assert(layer_ids(d1.layers) =~= layer_ids(d0.layers).push(l.id));
            lemma_push_keeps_unique(layer_ids(d0.layers), l.id);
        },
        DrawingCommand::RemoveLayer { id } => {
            lemma_first_index(layer_ids(d0.layers), id);
            let i = d0.layer_index(id);
            assert(layer_ids(d1.layers) =~= layer_ids(d0.layers).remove(i));
            lemma_remove_keeps_unique(layer_ids(d0.layers), i);
        },
        DrawingCommand::AddDimension(x) => {
            assert(dimension_ids(d1.dimensions) =~= dimension_ids(d0.dimensions).push(x.id));
            lemma_push_keeps_unique(dimension_ids(d0.dimensions), x.id);
        },
        DrawingCommand::RemoveDimension { id } => {
            lemma_first_index(dimension_ids(d0.dimensions), id);
            let i = d0.dimension_index(id);
            assert(dimension_ids(d1.dimensions) =~= dimension_ids(d0.dimensions).remove(i));
            lemma_remove_keeps_unique(dimension_ids(d0.dimensions), i);
        },
    }
}

/// The drawing of a new project has unique ids and passes structural validation.
pub proof fn lemma_default_drawing_is_sound<G, Pt, L>(d: DrawingView<G, Pt, L>)
    requires
        is_default_drawing_view(d),
    ensures
        ids_unique(d),
        references_resolve(d),
        structural_issues(d).len() == 0,
{
    lemma_structural_issues_empty(d);
}

/// Structural validation reports an error exactly when some entity or
/// dimension references a layer the drawing does not have.
pub proof fn lemma_validation_errors_iff_unresolved<G, Pt, L>(d: DrawingView<G, Pt, L>)
    ensures
        issues_have_errors(structural_issues(d)) <==> !references_resolve(d),
{
    lemma_structural_issues_empty(d);
    lemma_structural_issues_are_errors(d);
    if structural_issues(d).len() > 0 {
        assert(structural_issues(d)[0].severity == crate::report::ValidationSeverity::Error);
    }
}

/// Adding an object and then removing it by its id gives back the drawing
/// and the object.
pub proof fn lemma_add_then_remove<G, Pt, L>(
    d: DrawingView<G, Pt, L>,
    e: Entity<G>,
    l: crate::model::Layer,
    x: crate::model::Dimension<Pt, L>,
)
    ensures
        d.add_entity(e) is Ok ==> d.add_entity(e)->Ok_0.remove_entity(e.id) == Ok::<(DrawingView<G, Pt, L>, Entity<G>), crate::report::CoreError>((d, e)),
        d.add_layer(l) is Ok ==> d.add_layer(l)->Ok_0.remove_layer(l.id) == Ok::<(DrawingView<G, Pt, L>, crate::model::Layer), crate::report::CoreError>((d, l)),
        d.add_dimension(x) is Ok ==> d.add_dimension(x)->Ok_0.remove_dimension(x.id) == Ok::<(DrawingView<G, Pt, L>, crate::model::Dimension<Pt, L>), crate::report::CoreError>((d, x)),
{
    if d.add_entity(e) is Ok {
        lemma_entity_ids_push(d.entities, e);
        lemma_first_index_push_absent(entity_ids(d.entities), e.id);
        assert(d.entities.push(e).remove(d.entities.len() as int) =~= d.entities);
    }
    if d.add_layer(l) is Ok {
        assert(layer_ids(d.layers.push(l)) =~= layer_ids(d.layers).push(l.id));
        lemma_first_index_push_absent(layer_ids(d.layers), l.id);
        assert(d.layers.push(l).remove(d.layers.len() as int) =~= d.layers);
    }
    if d.add_dimension(x) is Ok {
        assert(dimension_ids(d.dimensions.push(x)) =~= dimension_ids(d.dimensions).push(x.id));
        lemma_first_index_push_absent(dimension_ids(d.dimensions), x.id);
        assert(d.dimensions.push(x).remove(d.dimensions.len() as int) =~= d.dimensions);
    }
}

/// Every drawing that replaying a command list from a new project can reach
/// has unique ids and passes structural validation.
pub proof fn lemma_replayed_drawings_are_sound<G: Clone, Pt, L, T, C>(
    d0: DrawingView<G, Pt, L>,
    cs: Seq<DrawingCommand<G, Pt, L>>,
    ops: ShapeOps<T, C>,
    d1: DrawingView<G, Pt, L>,
) where
    T: Fn(&G, &L, &L) -> G,
    C: Fn(&G) -> Option<GeometryError>,

    requires
        is_default_drawing_view(d0),
        runs_through(d0, cs, ops, d1),
    ensures
        ids_unique(d1),
        references_resolve(d1),
{
    let ds = choose|ds: Seq<DrawingView<G, Pt, L>>| #[trigger] run_trace(cs, ops, ds) && ds[0] == d0 && ds.last() == d1;
    lemma_default_drawing_is_sound(d0);
    lemma_trace_sound(cs, ops, ds, cs.len() as int);
}

proof fn lemma_trace_sound<G: Clone, Pt, L, T, C>(
    cs: Seq<DrawingCommand<G, Pt, L>>,
    ops: ShapeOps<T, C>,
    ds: Seq<DrawingView<G, Pt, L>>,
    k: int,
) where
    T: Fn(&G, &L, &L) -> G,
    C: Fn(&G) -> Option<GeometryError>,

    requires
        run_trace(cs, ops, ds),
        ids_unique(ds[0]),
        references_resolve(ds[0]),
        0 <= k <= cs.len(),
    ensures
        ids_unique(ds[k]),
        references_resolve(ds[k]),
    decreases k,
{
    if k > 0 {
        lemma_trace_sound(cs, ops, ds, k - 1);
        let j = k - 1;
        assert(succeeds(ds[j], cs[j], ops, ds[j + 1]));
        assert(j + 1 == k);
        let (c2, rs) = choose|c2: DrawingCommand<G, Pt, L>, rs: Seq<Option<GeometryError>>|
            #![trigger command_cloned(cs[k - 1], c2), ran(ds[k - 1], c2, ops, ds[k], rs)]
            command_cloned(cs[k - 1], c2) && refusal(ds[k - 1], c2).is_none() && ran(ds[k - 1], c2, ops, ds[k], rs)
                && crate::command::drawing_issues(ds[k], rs).len() == 0;
        lemma_commands_keep_ids_unique(ds[k - 1], c2, ds[k], ops.translate);
        lemma_successful_execute_is_valid(ds[k - 1], c2, ops, rs, ds[k]);
    }
}

/// The shape `translate` gives is determined by its arguments.
pub open spec fn translate_is_function<G, L, T: Fn(&G, &L, &L) -> G>(translate: T) -> bool {
    forall|g: G, a: L, b: L, r1: G, r2: G|
        #![trigger call_ensures(translate, (&g, &a, &b), r1), call_ensures(translate, (&g, &a, &b), r2)]
        call_ensures(translate, (&g, &a, &b), r1) && call_ensures(translate, (&g, &a, &b), r2) ==> r1 == r2
}

/// Cloning a shape gives an equal shape.
pub open spec fn clone_is_exact<G: Clone>() -> bool {
    forall|a: G, b: G| #[trigger] cloned(a, b) ==> b == a
}

/// With a `translate` determined by its arguments, the drawing an accepted
/// command produces is determined by the command and the drawing it runs on.
proof fn lemma_applied_is_determined<G, Pt, L, T: Fn(&G, &L, &L) -> G>(
    d: DrawingView<G, Pt, L>,
    c: DrawingCommand<G, Pt, L>,
    n1: DrawingView<G, Pt, L>,
    n2: DrawingView<G, Pt, L>,
    translate: T,
)
    requires
        translate_is_function(translate),
        refusal(d, c).is_none(),
        applied(d, c, n1, translate),
        applied(d, c, n2, translate),
    ensures
        n1 == n2,
{
    match c {
        DrawingCommand::MoveEntity { id, dx, dy } => {
            let i = d.entity_index(id);
            let g = d.entities[i].geometry;
            assert(call_ensures(translate, (&g, &dx, &dy), n1.entities[i].geometry));
            assert(call_ensures(translate, (&g, &dx, &dy), n2.entities[i].geometry));
            assert(n1.entities[i].geometry == n2.entities[i].geometry);
        },
        _ => {},
    }
}

/// With exact clones and a `translate` determined by its arguments, a
/// command that succeeds on a drawing always leaves the same drawing.
proof fn lemma_success_is_determined<G: Clone, Pt, L, T, C>(
    d: DrawingView<G, Pt, L>,
    c: DrawingCommand<G, Pt, L>,
    ops: ShapeOps<T, C>,
    n1: DrawingView<G, Pt, L>,
    n2: DrawingView<G, Pt, L>,
) where
    T: Fn(&G, &L, &L) -> G,
    C: Fn(&G) -> Option<GeometryError>,

    requires
        translate_is_function(ops.translate),
        clone_is_exact::<G>(),
        succeeds(d, c, ops, n1),
        succeeds(d, c, ops, n2),
    ensures
        n1 == n2,
{
    let (c1, rs1) = choose|c2: DrawingCommand<G, Pt, L>, rs: Seq<Option<GeometryError>>|
        #![trigger command_cloned(c, c2), ran(d, c2, ops, n1, rs)]
        command_cloned(c, c2) && refusal(d, c2).is_none() && ran(d, c2, ops, n1, rs)
            && crate::command::drawing_issues(n1, rs).len() == 0;
    let (c2, rs2) = choose|c2: DrawingCommand<G, Pt, L>, rs: Seq<Option<GeometryError>>|
        #![trigger command_cloned(c, c2), ran(d, c2, ops, n2, rs)]
        command_cloned(c, c2) && refusal(d, c2).is_none() && ran(d, c2, ops, n2, rs)
            && crate::command::drawing_issues(n2, rs).len() == 0;
    match c {
        DrawingCommand::AddEntity(e) => {
            let f1 = c1->AddEntity_0;
            let f2 = c2->AddEntity_0;
            assert(cloned(e.geometry, f1.geometry));
            assert(cloned(e.geometry, f2.geometry));
            assert(f1 == e);
            assert(f2 == e);
        },
        _ => {},
    }
    assert(c1 == c && c2 == c);
    lemma_applied_is_determined(d, c, n1, n2, ops.translate);
}

/// Running the same commands from the same drawing always reaches the same
/// drawing, as replaying a command list rebuilds the same project, when
/// clones are exact and `translate` is determined by its arguments.
pub proof fn lemma_runs_are_deterministic<G: Clone, Pt, L, T, C>(
    d0: DrawingView<G, Pt, L>,
    cs: Seq<DrawingCommand<G, Pt, L>>,
    ops: ShapeOps<T, C>,
    d1: DrawingView<G, Pt, L>,
    d2: DrawingView<G, Pt, L>,
) where
    T: Fn(&G, &L, &L) -> G,
    C: Fn(&G) -> Option<GeometryError>,

    requires
        translate_is_function(ops.translate),
        clone_is_exact::<G>(),
        runs_through(d0, cs, ops, d1),
        runs_through(d0, cs, ops, d2),
    ensures
        d1 == d2,
{
    let ds1 = choose|ds: Seq<DrawingView<G, Pt, L>>| #[trigger] run_trace(cs, ops, ds) && ds[0] == d0 && ds.last() == d1;
    let ds2 = choose|ds: Seq<DrawingView<G, Pt, L>>| #[trigger] run_trace(cs, ops, ds) && ds[0] == d0 && ds.last() == d2;
    lemma_traces_agree_on_prefix(cs, cs, ops, ds1, ds2, cs.len() as int);
}

/// The check result `check` gives is determined by the shape.
pub open spec fn check_is_function<G, C: Fn(&G) -> Option<GeometryError>>(check: C) -> bool {
    forall|g: G, r1: Option<GeometryError>, r2: Option<GeometryError>|
        #![trigger call_ensures(check, (&g,), r1), call_ensures(check, (&g,), r2)]
        call_ensures(check, (&g,), r1) && call_ensures(check, (&g,), r2) ==> r1 == r2
}

/// Two errors of a command agree: the same refusal, or validation reports
/// with the same issues (the texts of an issue compared by their characters).
pub open spec fn errors_agree(e1: CommandError, e2: CommandError) -> bool {
    match e1 {
        CommandError::Core(_) => e2 == e1,
        CommandError::Validation(r1) => e2 is Validation && e2->Validation_0@ == r1@,
    }
}

proof fn lemma_cloned_command_is_itself<G: Clone, Pt, L>(c: DrawingCommand<G, Pt, L>, c2: DrawingCommand<G, Pt, L>)
    requires
        clone_is_exact::<G>(),
        command_cloned(c, c2),
    ensures
        c2 == c,
{
    match c {
        DrawingCommand::AddEntity(e) => {
            let f = c2->AddEntity_0;
            assert(cloned(e.geometry, f.geometry));
            assert(f == e);
        },
        _ => {},
    }
}

proof fn lemma_checked_is_determined<G, C: Fn(&G) -> Option<GeometryError>>(
    es: Seq<Entity<G>>,
    rs1: Seq<Option<GeometryError>>,
    rs2: Seq<Option<GeometryError>>,
    check: C,
)
    requires
        check_is_function(check),
        checked(es, rs1, check),
        checked(es, rs2, check),
    ensures
        rs1 == rs2,
{
    assert forall|i: int| 0 <= i < rs1.len() implies rs1[i] == rs2[i] by {
        assert(call_ensures(check, (&es[i].geometry,), rs1[i]));
        assert(call_ensures(check, (&es[i].geometry,), rs2[i]));
    }
    assert(rs1 =~= rs2);
}

/// With a deterministic `translate`, `check` and clone, a command cannot
/// both succeed and fail on the same drawing.
pub proof fn lemma_success_excludes_failure<G: Clone, Pt, L, T, C>(
    d: DrawingView<G, Pt, L>,
    c: DrawingCommand<G, Pt, L>,
    ops: ShapeOps<T, C>,
    d1: DrawingView<G, Pt, L>,
    e: CommandError,
) where
    T: Fn(&G, &L, &L) -> G,
    C: Fn(&G) -> Option<GeometryError>,

    requires
        translate_is_function(ops.translate),
        check_is_function(ops.check),
        clone_is_exact::<G>(),
        succeeds(d, c, ops, d1),
    ensures
        !fails(d, c, ops, e),
{
    let (c1, rs1) = choose|c2: DrawingCommand<G, Pt, L>, rs: Seq<Option<GeometryError>>|
        #![trigger command_cloned(c, c2), ran(d, c2, ops, d1, rs)]
        command_cloned(c, c2) && refusal(d, c2).is_none() && ran(d, c2, ops, d1, rs)
            && crate::command::drawing_issues(d1, rs).len() == 0;
    lemma_cloned_command_is_itself(c, c1);
    if fails(d, c, ops, e) {
        assert(refusal(d, c).is_none());
        let (c2, mid, rs2) = choose|c2: DrawingCommand<G, Pt, L>, mid: DrawingView<G, Pt, L>, rs: Seq<Option<GeometryError>>|
            #![trigger command_cloned(c, c2), ran(d, c2, ops, mid, rs)]
            {
                &&& command_cloned(c, c2)
                &&& ran(d, c2, ops, mid, rs)
                &&& crate::command::drawing_issues(mid, rs).len() > 0
                &&& e is Validation
                &&& e->Validation_0@ == crate::command::drawing_issues(mid, rs)
            };
        lemma_cloned_command_is_itself(c, c2);
        lemma_applied_is_determined(d, c, d1, mid, ops.translate);
        lemma_checked_is_determined(d1.entities, rs1, rs2, ops.check);
    }
}

/// With a deterministic `translate`, `check` and clone, a command that fails
/// on a drawing always fails with the same error.
pub proof fn lemma_failure_is_determined<G: Clone, Pt, L, T, C>(
    d: DrawingView<G, Pt, L>,
    c: DrawingCommand<G, Pt, L>,
    ops: ShapeOps<T, C>,
    e1: CommandError,
    e2: CommandError,
) where
    T: Fn(&G, &L, &L) -> G,
    C: Fn(&G) -> Option<GeometryError>,

    requires
        translate_is_function(ops.translate),
        check_is_function(ops.check),
        clone_is_exact::<G>(),
        fails(d, c, ops, e1),
        fails(d, c, ops, e2),
    ensures
        errors_agree(e1, e2),
{
    if refusal(d, c).is_none() {
        let (c1, m1, rs1) = choose|c2: DrawingCommand<G, Pt, L>, mid: DrawingView<G, Pt, L>, rs: Seq<Option<GeometryError>>|
            #![trigger command_cloned(c, c2), ran(d, c2, ops, mid, rs)]
            {
                &&& command_cloned(c, c2)
                &&& ran(d, c2, ops, mid, rs)
                &&& crate::command::drawing_issues(mid, rs).len() > 0
                &&& e1 is Validation
                &&& e1->Validation_0@ == crate::command::drawing_issues(mid, rs)
            };
        let (c2, m2, rs2) = choose|c2: DrawingCommand<G, Pt, L>, mid: DrawingView<G, Pt, L>, rs: Seq<Option<GeometryError>>|
            #![trigger command_cloned(c, c2), ran(d, c2, ops, mid, rs)]
            {
                &&& command_cloned(c, c2)
                &&& ran(d, c2, ops, mid, rs)
                &&& crate::command::drawing_issues(mid, rs).len() > 0
                &&& e2 is Validation
                &&& e2->Validation_0@ == crate::command::drawing_issues(mid, rs)
            };
        lemma_cloned_command_is_itself(c, c1);
        lemma_cloned_command_is_itself(c, c2);
        lemma_applied_is_determined(d, c, m1, m2, ops.translate);
        lemma_checked_is_determined(m1.entities, rs1, rs2, ops.check);
    }
}

proof fn lemma_traces_agree_on_prefix<G: Clone, Pt, L, T, C>(
    cs1: Seq<DrawingCommand<G, Pt, L>>,
    cs2: Seq<DrawingCommand<G, Pt, L>>,
    ops: ShapeOps<T, C>,
    ds1: Seq<DrawingView<G, Pt, L>>,
    ds2: Seq<DrawingView<G, Pt, L>>,
    k: int,
) where
    T: Fn(&G, &L, &L) -> G,
    C: Fn(&G) -> Option<GeometryError>,

    requires
        translate_is_function(ops.translate),
        clone_is_exact::<G>(),
        run_trace(cs1, ops, ds1),
        run_trace(cs2, ops, ds2),
        ds1[0] == ds2[0],
        0 <= k <= cs1.len(),
        k <= cs2.len(),
        forall|i: int| 0 <= i < k ==> cs1[i] == cs2[i],
    ensures
        ds1[k] == ds2[k],
    decreases k,
{
    if k > 0 {
        lemma_traces_agree_on_prefix(cs1, cs2, ops, ds1, ds2, k - 1);
        let j = k - 1;
        assert(succeeds(ds1[j], cs1[j], ops, ds1[j + 1]));
        assert(succeeds(ds2[j], cs2[j], ops, ds2[j + 1]));
        assert(j + 1 == k);
        lemma_success_is_determined(ds1[j], cs1[j], ops, ds1[k], ds2[k]);
    }
}

/// Replaying the same commands twice from the same drawing, with a
/// deterministic `translate`, `check` and clone, ends the same way: a run
/// that succeeds has no command that fails, and two runs that fail stop at
/// the same command, on the same drawing, with errors that agree.
pub proof fn lemma_replay_failures_agree<G: Clone, Pt, L, T, C>(
    d0: DrawingView<G, Pt, L>,
    cs: Seq<DrawingCommand<G, Pt, L>>,
    ops: ShapeOps<T, C>,
    k1: int,
    dk1: DrawingView<G, Pt, L>,
    e1: CommandError,
    k2: int,
    dk2: DrawingView<G, Pt, L>,
    e2: CommandError,
) where
    T: Fn(&G, &L, &L) -> G,
    C: Fn(&G) -> Option<GeometryError>,

    requires
        translate_is_function(ops.translate),
        check_is_function(ops.check),
        clone_is_exact::<G>(),
        0 <= k1 < cs.len(),
        runs_through(d0, cs.take(k1), ops, dk1),
        fails(dk1, cs[k1], ops, e1),
    ensures
        forall|d1: DrawingView<G, Pt, L>| !#[trigger] runs_through(d0, cs, ops, d1),
        0 <= k2 < cs.len() && runs_through(d0, cs.take(k2), ops, dk2) && fails(dk2, cs[k2], ops, e2) ==> {
            &&& k1 == k2
            &&& dk1 == dk2
            &&& errors_agree(e1, e2)
        },
{
    let ds1 = choose|ds: Seq<DrawingView<G, Pt, L>>| #[trigger] run_trace(cs.take(k1), ops, ds) && ds[0] == d0 && ds.last() == dk1;
    assert forall|d1: DrawingView<G, Pt, L>| !#[trigger] runs_through(d0, cs, ops, d1) by {
        if runs_through(d0, cs, ops, d1) {
            let ds = choose|ds: Seq<DrawingView<G, Pt, L>>| #[trigger] run_trace(cs, ops, ds) && ds[0] == d0 && ds.last() == d1;
            lemma_traces_agree_on_prefix(cs.take(k1), cs, ops, ds1, ds, k1);
            assert(succeeds(ds[k1], cs[k1], ops, ds[k1 + 1]));
            lemma_success_excludes_failure(dk1, cs[k1], ops, ds[k1 + 1], e1);
        }
    }
    if 0 <= k2 < cs.len() && runs_through(d0, cs.take(k2), ops, dk2) && fails(dk2, cs[k2], ops, e2) {
        let ds2 = choose|ds: Seq<DrawingView<G, Pt, L>>| #[trigger] run_trace(cs.take(k2), ops, ds) && ds[0] == d0 && ds.last() == dk2;
        if k1 < k2 {
            lemma_traces_agree_on_prefix(cs.take(k1), cs.take(k2), ops, ds1, ds2, k1);
            assert(cs.take(k2)[k1] == cs[k1]);
            assert(succeeds(ds2[k1], cs.take(k2)[k1], ops, ds2[k1 + 1]));
            lemma_success_excludes_failure(dk1, cs[k1], ops, ds2[k1 + 1], e1);
        } else if k2 < k1 {
            lemma_traces_agree_on_prefix(cs.take(k2), cs.take(k1), ops, ds2, ds1, k2);
            assert(cs.take(k1)[k2] == cs[k2]);
            assert(succeeds(ds1[k2], cs.take(k1)[k2], ops, ds1[k2 + 1]));
            lemma_success_excludes_failure(dk2, cs[k2], ops, ds1[k2 + 1], e2);
        } else {
            lemma_traces_agree_on_prefix(cs.take(k1), cs.take(k2), ops, ds1, ds2, k1);
            lemma_failure_is_determined(dk1, cs[k1], ops, e1, e2);
        }
    }
}

} // verus!
