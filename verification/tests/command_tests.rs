use cad_studio::command::{replay, CommandError, CommandHistory, DrawingCommand, ShapeOps};
use cad_studio::geometry::GeometryError;
use cad_studio::ids::{DimensionId, EntityId, LayerId};
use cad_studio::model::{default_layer_id, Dimension, DimensionKind, Entity, Layer};
use cad_studio::report::CoreError;

#[derive(Clone, Copy, Debug, PartialEq)]
struct Point2 {
    x: f64,
    y: f64,
}

fn pt(x: f64, y: f64) -> Point2 {
    Point2 { x, y }
}

#[derive(Clone, Debug, PartialEq)]
enum Shape {
    Line { start: Point2, end: Point2 },
    Circle { center: Point2, radius: f64 },
}

type Project = cad_studio::model::Project<Shape, Point2, f64>;
type History = CommandHistory<Shape, Point2, f64>;
type Command = DrawingCommand<Shape, Point2, f64>;

fn shift(p: Point2, dx: f64, dy: f64) -> Point2 {
    pt(p.x + dx, p.y + dy)
}

fn translate(g: &Shape, dx: &f64, dy: &f64) -> Shape {
    match g {
        Shape::Line { start, end } => Shape::Line { start: shift(*start, *dx, *dy), end: shift(*end, *dx, *dy) },
        Shape::Circle { center, radius } => Shape::Circle { center: shift(*center, *dx, *dy), radius: *radius },
    }
}

fn check(g: &Shape) -> Option<GeometryError> {
    match g {
        Shape::Line { start, end } => {
            if (end.x - start.x).hypot(end.y - start.y) <= 1.0e-9 {
                Some(GeometryError::ZeroLengthLine)
            } else {
                None
            }
        }
        Shape::Circle { radius, .. } => {
            if *radius <= 0.0 {
                Some(GeometryError::NonPositiveRadius)
            } else {
                None
            }
        }
    }
}

type Ops = ShapeOps<fn(&Shape, &f64, &f64) -> Shape, fn(&Shape) -> Option<GeometryError>>;

fn ops() -> Ops {
    ShapeOps { translate, check }
}

fn line_entity(id: u64, start: (f64, f64), end: (f64, f64)) -> Entity<Shape> {
    Entity {
        id: EntityId::new(id),
        layer_id: default_layer_id(),
        geometry: Shape::Line { start: pt(start.0, start.1), end: pt(end.0, end.1) },
    }
}

#[test]
fn add_entity_can_be_undone_and_redone() {
    let ops = ops();
    let entity = line_entity(1, (0.0, 0.0), (1.0, 1.0));
    let mut project = Project::default();
    let mut history = History::default();
    assert!(!history.can_undo());
    history.execute(&mut project, DrawingCommand::AddEntity(entity), &ops).expect("command succeeds");
    assert_eq!(project.drawing.entities.len(), 1);
    assert!(history.can_undo());
    assert!(!history.can_redo());
    assert!(history.undo(&mut project).expect("undo succeeds"));
    assert!(project.drawing.entities.is_empty());
    assert!(!history.can_undo());
    assert!(history.can_redo());
    assert!(history.redo(&mut project).expect("redo succeeds"));
    assert_eq!(project.drawing.entities.len(), 1);
    assert!(history.can_undo());
    assert!(!history.can_redo());
}

#[test]
fn move_entity_translates_geometry_and_can_be_undone() {
    let ops = ops();
    let mut project = Project::default();
    let mut history = History::default();
    history
        .execute(&mut project, DrawingCommand::AddEntity(line_entity(1, (0.0, 0.0), (10.0, 0.0))), &ops)
        .unwrap();
    history
        .execute(&mut project, DrawingCommand::MoveEntity { id: EntityId::new(1), dx: 5.0, dy: 2.0 }, &ops)
        .unwrap();
    let moved = &project.drawing.entities[0];
    assert_eq!(moved.geometry, Shape::Line { start: pt(5.0, 2.0), end: pt(15.0, 2.0) });
    assert!(history.undo(&mut project).unwrap());
    let restored = &project.drawing.entities[0];
    assert_eq!(restored.geometry, Shape::Line { start: pt(0.0, 0.0), end: pt(10.0, 0.0) });
}

#[test]
fn set_entity_layer_changes_layer_and_can_be_undone() {
    let ops = ops();
    let mut project = Project::default();
    let mut history = History::default();
    let dimensions_layer = LayerId::new(1);
    history
        .execute(&mut project, DrawingCommand::AddLayer(Layer::new(dimensions_layer, "dimensions")), &ops)
        .unwrap();
    history
        .execute(&mut project, DrawingCommand::AddEntity(line_entity(1, (0.0, 0.0), (1.0, 0.0))), &ops)
        .unwrap();
    history
        .execute(
            &mut project,
            DrawingCommand::SetEntityLayer { id: EntityId::new(1), layer_id: dimensions_layer },
            &ops,
        )
        .unwrap();
    assert_eq!(project.drawing.entities[0].layer_id, dimensions_layer);
    assert!(history.undo(&mut project).unwrap());
    assert_eq!(project.drawing.entities[0].layer_id, default_layer_id());
}

#[test]
fn add_and_remove_layer_can_be_undone_and_redone() {
    let ops = ops();
    let mut project = Project::default();
    let mut history = History::default();
    let id = LayerId::new(1);
    history.execute(&mut project, DrawingCommand::AddLayer(Layer::new(id, "dim")), &ops).unwrap();
    assert!(project.drawing.layer(id).is_some());
    history.execute(&mut project, DrawingCommand::RemoveLayer { id }, &ops).unwrap();
    assert!(project.drawing.layer(id).is_none());
    assert!(history.undo(&mut project).unwrap());
    assert!(project.drawing.layer(id).is_some());
    assert!(history.redo(&mut project).unwrap());
    assert!(project.drawing.layer(id).is_none());
}

#[test]
fn add_and_remove_dimension_can_be_undone() {
    let ops = ops();
    let mut project = Project::default();
    let mut history = History::default();
    let dim = Dimension {
        id: DimensionId::new(1),
        kind: DimensionKind::Linear,
        start: pt(0.0, 0.0),
        end: pt(100.0, 0.0),
        offset: 10.0,
        layer_id: default_layer_id(),
    };
    history.execute(&mut project, DrawingCommand::AddDimension(dim.clone()), &ops).unwrap();
    assert_eq!(project.drawing.dimensions.len(), 1);
    history.execute(&mut project, DrawingCommand::RemoveDimension { id: dim.id }, &ops).unwrap();
    assert!(project.drawing.dimensions.is_empty());
    assert!(history.undo(&mut project).unwrap());
    assert_eq!(project.drawing.dimensions.len(), 1);
}

#[test]
fn execute_rejects_entity_with_missing_layer_and_rolls_back() {
    let ops = ops();
    let mut project = Project::default();
    let mut history = History::default();
    let entity = Entity {
        id: EntityId::new(1),
        layer_id: LayerId::new(99),
        geometry: Shape::Line { start: pt(0.0, 0.0), end: pt(1.0, 0.0) },
    };
    let result = history.execute(&mut project, DrawingCommand::AddEntity(entity), &ops);
    assert!(matches!(result, Err(CommandError::Validation(_))));
    assert!(project.drawing.entities.is_empty());
}

#[test]
fn execute_rejects_zero_length_line_and_rolls_back() {
    let ops = ops();
    let mut project = Project::default();
    let mut history = History::default();
    let entity = line_entity(1, (5.0, 5.0), (5.0, 5.0));
    let result = history.execute(&mut project, DrawingCommand::AddEntity(entity), &ops);
    assert!(matches!(result, Err(CommandError::Validation(_))));
    assert!(project.drawing.entities.is_empty());
}

#[test]
fn replay_rebuilds_project_deterministically() {
    let ops = ops();
    let commands: Vec<Command> = vec![
        DrawingCommand::AddEntity(line_entity(1, (0.0, 0.0), (10.0, 0.0))),
        DrawingCommand::MoveEntity { id: EntityId::new(1), dx: 1.0, dy: 1.0 },
        DrawingCommand::AddEntity(line_entity(2, (0.0, 0.0), (5.0, 5.0))),
    ];
    let project = replay(&commands, &ops).expect("replay succeeds");
    assert_eq!(project.drawing.entities.len(), 2);
    assert_eq!(
        project.drawing.entities[0].geometry,
        Shape::Line { start: pt(1.0, 1.0), end: pt(11.0, 1.0) }
    );
    let again = replay(&commands, &ops).expect("replay succeeds");
    assert_eq!(again, project);
}

#[test]
fn zero_length_line_report_names_the_geometry_rule() {
    let ops = ops();
    let mut project = Project::default();
    let mut history = History::default();
    let result = history.execute(&mut project, DrawingCommand::AddEntity(line_entity(4, (1.0, 1.0), (1.0, 1.0))), &ops);
    match result {
        Err(CommandError::Validation(report)) => {
            assert_eq!(report.issues.len(), 1);
            assert_eq!(report.issues[0].message, "line has zero length");
            assert_eq!(report.issues[0].suggestion, "Adjust the entity geometry so it satisfies validation rules.");
        }
        other => panic!("expected a validation error, got {other:?}"),
    }
    assert!(!history.can_undo());
}

#[test]
fn refused_commands_change_nothing() {
    let ops = ops();
    let mut project = Project::default();
    let mut history = History::default();
    history.execute(&mut project, DrawingCommand::AddEntity(line_entity(1, (0.0, 0.0), (1.0, 0.0))), &ops).unwrap();
    let duplicate = history.execute(&mut project, DrawingCommand::AddEntity(line_entity(1, (0.0, 0.0), (2.0, 0.0))), &ops);
    assert_eq!(duplicate, Err(CommandError::Core(CoreError::DuplicateEntityId(EntityId::new(1)))));
    let missing = history.execute(&mut project, DrawingCommand::MoveEntity { id: EntityId::new(9), dx: 1.0, dy: 0.0 }, &ops);
    assert_eq!(missing, Err(CommandError::Core(CoreError::MissingEntity(EntityId::new(9)))));
    let missing_layer = history.execute(&mut project, DrawingCommand::RemoveLayer { id: LayerId::new(5) }, &ops);
    assert_eq!(missing_layer, Err(CommandError::Core(CoreError::MissingLayer(LayerId::new(5)))));
    assert_eq!(project.drawing.entities.len(), 1);
    assert_eq!(project.drawing.entities[0].geometry, Shape::Line { start: pt(0.0, 0.0), end: pt(1.0, 0.0) });
    assert!(history.undo(&mut project).unwrap());
    assert!(!history.can_undo());
}

#[test]
fn removing_a_used_layer_is_rolled_back_in_place() {
    let ops = ops();
    let mut project = Project::default();
    let mut history = History::default();
    history.execute(&mut project, DrawingCommand::AddLayer(Layer::new(LayerId::new(1), "one")), &ops).unwrap();
    history.execute(&mut project, DrawingCommand::AddLayer(Layer::new(LayerId::new(2), "two")), &ops).unwrap();
    history
        .execute(&mut project, DrawingCommand::AddEntity(Entity { id: EntityId::new(1), layer_id: LayerId::new(1), geometry: Shape::Circle { center: pt(0.0, 0.0), radius: 2.0 } }), &ops)
        .unwrap();
    let before_layers: Vec<LayerId> = project.drawing.layers.iter().map(|l| l.id).collect();
    let result = history.execute(&mut project, DrawingCommand::RemoveLayer { id: LayerId::new(1) }, &ops);
    assert!(matches!(result, Err(CommandError::Validation(_))));
    let ids: Vec<LayerId> = project.drawing.layers.iter().map(|l| l.id).collect();
    assert_eq!(ids, before_layers);
    assert_eq!(ids, vec![default_layer_id(), LayerId::new(1), LayerId::new(2)]);
}

#[test]
fn undoing_a_layer_removal_puts_it_back_in_place_and_redo_removes_it_again() {
    let ops = ops();
    let mut project = Project::default();
    let mut history = History::default();
    history.execute(&mut project, DrawingCommand::AddLayer(Layer::new(LayerId::new(1), "one")), &ops).unwrap();
    history.execute(&mut project, DrawingCommand::AddLayer(Layer::new(LayerId::new(2), "two")), &ops).unwrap();
    history.execute(&mut project, DrawingCommand::RemoveLayer { id: LayerId::new(1) }, &ops).unwrap();
    assert!(history.undo(&mut project).unwrap());
    let ids: Vec<LayerId> = project.drawing.layers.iter().map(|l| l.id).collect();
    assert_eq!(ids, vec![default_layer_id(), LayerId::new(1), LayerId::new(2)]);
    assert!(history.redo(&mut project).unwrap());
    let ids: Vec<LayerId> = project.drawing.layers.iter().map(|l| l.id).collect();
    assert_eq!(ids, vec![default_layer_id(), LayerId::new(2)]);
}

#[test]
fn undo_and_redo_on_empty_history_do_nothing() {
    let mut project = Project::default();
    let mut history = History::default();
    assert_eq!(history.undo(&mut project), Ok(false));
    assert_eq!(history.redo(&mut project), Ok(false));
    assert_eq!(project, Project::default());
}

#[test]
fn a_new_command_clears_the_redo_history() {
    let ops = ops();
    let mut project = Project::default();
    let mut history = History::default();
    history.execute(&mut project, DrawingCommand::AddEntity(line_entity(1, (0.0, 0.0), (1.0, 0.0))), &ops).unwrap();
    assert!(history.undo(&mut project).unwrap());
    assert!(history.can_redo());
    history.execute(&mut project, DrawingCommand::AddEntity(line_entity(2, (0.0, 0.0), (3.0, 0.0))), &ops).unwrap();
    assert!(!history.can_redo());
    assert_eq!(history.redo(&mut project), Ok(false));
}

#[test]
fn replay_stops_at_the_first_failing_command() {
    let ops = ops();
    let commands: Vec<Command> = vec![
        DrawingCommand::AddEntity(line_entity(1, (0.0, 0.0), (10.0, 0.0))),
        DrawingCommand::DeleteEntity { id: EntityId::new(2) },
        DrawingCommand::AddEntity(line_entity(3, (0.0, 0.0), (5.0, 5.0))),
    ];
    assert_eq!(replay(&commands, &ops), Err(CommandError::Core(CoreError::MissingEntity(EntityId::new(2)))));
    let none: Vec<Command> = Vec::new();
    assert_eq!(replay(&none, &ops), Ok(Project::default()));
}

#[test]
fn delete_then_undo_puts_the_entity_back_in_place() {
    let ops = ops();
    let mut project = Project::default();
    let mut history = History::default();
    for id in 1..=3 {
        history.execute(&mut project, DrawingCommand::AddEntity(line_entity(id, (0.0, 0.0), (id as f64, 0.0))), &ops).unwrap();
    }
    history.execute(&mut project, DrawingCommand::DeleteEntity { id: EntityId::new(1) }, &ops).unwrap();
    assert!(history.undo(&mut project).unwrap());
    let ids: Vec<EntityId> = project.drawing.entities.iter().map(|e| e.id).collect();
    assert_eq!(ids, vec![EntityId::new(1), EntityId::new(2), EntityId::new(3)]);
    assert_eq!(project.drawing.entities[0], line_entity(1, (0.0, 0.0), (1.0, 0.0)));
}

#[test]
fn undoing_a_move_restores_the_shape_exactly() {
    let ops = ops();
    let mut project = Project::default();
    let mut history = History::default();
    history.execute(&mut project, DrawingCommand::AddEntity(line_entity(1, (0.1, 0.0), (1.0, 0.0))), &ops).unwrap();
    let before = project.drawing.entities[0].clone();
    history.execute(&mut project, DrawingCommand::MoveEntity { id: EntityId::new(1), dx: 0.2, dy: 0.0 }, &ops).unwrap();
    let moved = project.drawing.entities[0].clone();
    assert!(history.undo(&mut project).unwrap());
    assert_eq!(project.drawing.entities[0], before);
    assert!(history.redo(&mut project).unwrap());
    assert_eq!(project.drawing.entities[0], moved);
}

#[test]
fn replaying_a_failing_list_twice_gives_the_same_error() {
    let ops = ops();
    let commands: Vec<Command> = vec![
        DrawingCommand::AddEntity(line_entity(1, (0.0, 0.0), (10.0, 0.0))),
        DrawingCommand::AddEntity(line_entity(2, (3.0, 3.0), (3.0, 3.0))),
        DrawingCommand::DeleteEntity { id: EntityId::new(9) },
    ];
    let first = replay(&commands, &ops);
    let second = replay(&commands, &ops);
    assert!(matches!(first, Err(CommandError::Validation(_))));
    assert_eq!(first, second);
}
