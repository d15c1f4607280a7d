use cad_studio::ids::{DimensionId, EntityId, LayerId};
use cad_studio::model::{
    default_drawing_id, default_layer_id, default_project_id, Dimension, DimensionKind, Entity,
    Layer,
};
use cad_studio::report::{
    CoreError, ValidationIssue, ValidationReport, ValidationSeverity, ValidationTarget,
};

#[derive(Clone, Copy, Debug, PartialEq)]
struct Point2 {
    x: f64,
    y: f64,
}

fn pt(x: f64, y: f64) -> Point2 {
    Point2 { x, y }
}

#[derive(Clone, Debug, PartialEq)]
enum Shape {
    Line { start: Point2, end: Point2 },
    Polyline { points: Vec<Point2>, closed: bool },
    Rectangle { origin: Point2, width: f64, height: f64 },
    Circle { center: Point2, radius: f64 },
    Arc { center: Point2, radius: f64, start_angle: f64, sweep_angle: f64 },
    Text { origin: Point2, content: String, height: f64 },
}

type Drawing = cad_studio::model::Drawing<Shape, Point2, f64>;
type Project = cad_studio::model::Project<Shape, Point2, f64>;

fn make_line_entity(id: u64) -> Entity<Shape> {
    Entity {
        id: EntityId::new(id),
        layer_id: default_layer_id(),
        geometry: Shape::Line { start: pt(0.0, 0.0), end: pt(10.0, 0.0) },
    }
}

#[test]
fn stable_ids_prevent_duplicate_entities() {
    let mut drawing = Drawing::default();
    drawing.add_entity(make_line_entity(1)).expect("first insert ok");
    assert_eq!(
        drawing.add_entity(make_line_entity(1)),
        Err(CoreError::DuplicateEntityId(EntityId::new(1)))
    );
}

#[test]
fn remove_entity_returns_the_entity() {
    let mut drawing = Drawing::default();
    drawing.add_entity(make_line_entity(2)).unwrap();
    let removed = drawing.remove_entity(EntityId::new(2)).unwrap();
    assert_eq!(removed.id, EntityId::new(2));
    assert!(drawing.entities.is_empty());
}

#[test]
fn drawing_default_contains_layer_zero() {
    let drawing = Drawing::default();
    assert!(drawing.layer(default_layer_id()).is_some());
    assert_eq!(drawing.layers.len(), 1);
}

#[test]
fn duplicate_layer_id_is_rejected() {
    let mut drawing = Drawing::default();
    let result = drawing.add_layer(Layer::new(default_layer_id(), "duplicate"));
    assert_eq!(result, Err(CoreError::DuplicateLayerId(default_layer_id())));
}

#[test]
fn remove_layer_returns_the_layer() {
    let mut drawing = Drawing::default();
    let extra = LayerId::new(1);
    drawing.add_layer(Layer::new(extra, "dimensions")).unwrap();
    let removed = drawing.remove_layer(extra).unwrap();
    assert_eq!(removed.id, extra);
    assert!(drawing.layer(extra).is_none());
}

#[test]
fn remove_layer_reports_missing_layer() {
    let mut drawing = Drawing::default();
    let missing = LayerId::new(99);
    assert_eq!(drawing.remove_layer(missing), Err(CoreError::MissingLayer(missing)));
}

#[test]
fn add_and_remove_dimension() {
    let mut drawing = Drawing::default();
    let dim = Dimension {
        id: DimensionId::new(1),
        kind: DimensionKind::Linear,
        start: pt(0.0, 0.0),
        end: pt(100.0, 0.0),
        offset: 10.0,
        layer_id: default_layer_id(),
    };
    drawing.add_dimension(dim).unwrap();
    assert_eq!(drawing.dimensions.len(), 1);
    let removed = drawing.remove_dimension(DimensionId::new(1)).unwrap();
    assert_eq!(removed.id, DimensionId::new(1));
    assert!(drawing.dimensions.is_empty());
}

#[test]
fn all_geometry_variants_can_be_added() {
    let mut drawing = Drawing::default();
    let layer = default_layer_id();
    let entities: Vec<Entity<Shape>> = vec![
        Entity {
            id: EntityId::new(10),
            layer_id: layer,
            geometry: Shape::Polyline { points: vec![pt(0.0, 0.0), pt(5.0, 5.0)], closed: false },
        },
        Entity {
            id: EntityId::new(11),
            layer_id: layer,
            geometry: Shape::Rectangle { origin: pt(0.0, 0.0), width: 100.0, height: 50.0 },
        },
        Entity {
            id: EntityId::new(12),
            layer_id: layer,
            geometry: Shape::Circle { center: pt(0.0, 0.0), radius: 25.0 },
        },
        Entity {
            id: EntityId::new(13),
            layer_id: layer,
            geometry: Shape::Arc {
                center: pt(0.0, 0.0),
                radius: 25.0,
                start_angle: 0.0,
                sweep_angle: std::f64::consts::FRAC_PI_2,
            },
        },
        Entity {
            id: EntityId::new(14),
            layer_id: layer,
            geometry: Shape::Text { origin: pt(10.0, 10.0), content: "CAD Studio".to_owned(), height: 5.0 },
        },
    ];
    for e in entities {
        drawing.add_entity(e).expect("entity should be added");
    }
    assert_eq!(drawing.entities.len(), 5);
}

#[test]
fn default_project_and_drawing_use_id_zero() {
    let project = Project::default();
    assert_eq!(project.id, default_project_id());
    assert_eq!(project.drawing.id, default_drawing_id());
}

#[test]
fn validate_reports_no_issues_for_a_default_drawing() {
    let drawing = Drawing::default();
    let report = drawing.validate();
    assert!(!report.has_errors());
    assert!(report.issues.is_empty());
}

#[test]
fn validate_detects_entity_referencing_missing_layer() {
    let mut drawing = Drawing::default();
    let missing_layer = LayerId::new(99);
    drawing
        .add_entity(Entity {
            id: EntityId::new(1),
            layer_id: missing_layer,
            geometry: Shape::Line { start: pt(0.0, 0.0), end: pt(1.0, 1.0) },
        })
        .unwrap();
    let report = drawing.validate();
    assert!(report.has_errors());
    assert_eq!(report.issues.len(), 1);
    assert_eq!(report.issues[0].target, ValidationTarget::Entity(EntityId::new(1)));
    assert_eq!(report.issues[0].severity, ValidationSeverity::Error);
}

#[test]
fn validate_detects_dimension_referencing_missing_layer() {
    let mut drawing = Drawing::default();
    let missing_layer = LayerId::new(99);
    drawing
        .add_dimension(Dimension {
            id: DimensionId::new(1),
            kind: DimensionKind::Linear,
            start: pt(0.0, 0.0),
            end: pt(100.0, 0.0),
            offset: 10.0,
            layer_id: missing_layer,
        })
        .unwrap();
    let report = drawing.validate();
    assert!(report.has_errors());
    assert_eq!(report.issues[0].target, ValidationTarget::Dimension(DimensionId::new(1)));
}

#[test]
fn validation_messages_name_the_missing_layer() {
    let mut drawing = Drawing::default();
    drawing
        .add_entity(Entity { id: EntityId::new(7), layer_id: LayerId::new(42), geometry: Shape::Circle { center: pt(0.0, 0.0), radius: 1.0 } })
        .unwrap();
    let report = drawing.validate();
    assert_eq!(report.issues[0].message, "entity references missing layer LayerId(42)");
    assert_eq!(
        report.issues[0].suggestion,
        "Create the missing layer or reassign the entity to an existing layer."
    );
}

#[test]
fn entity_issues_come_before_dimension_issues() {
    let mut drawing = Drawing::default();
    drawing
        .add_dimension(Dimension {
            id: DimensionId::new(3),
            kind: DimensionKind::Aligned,
            start: pt(0.0, 0.0),
            end: pt(1.0, 0.0),
            offset: 1.0,
            layer_id: LayerId::new(5),
        })
        .unwrap();
    drawing
        .add_entity(Entity { id: EntityId::new(4), layer_id: LayerId::new(6), geometry: Shape::Circle { center: pt(0.0, 0.0), radius: 1.0 } })
        .unwrap();
    let report = drawing.validate();
    assert_eq!(report.issues.len(), 2);
    assert_eq!(report.issues[0].target, ValidationTarget::Entity(EntityId::new(4)));
    assert_eq!(report.issues[1].target, ValidationTarget::Dimension(DimensionId::new(3)));
    assert_eq!(report.issues[1].message, "dimension references missing layer LayerId(5)");
}

#[test]
fn add_then_remove_entity_restores_the_drawing() {
    let mut drawing = Drawing::default();
    drawing.add_entity(make_line_entity(1)).unwrap();
    let mut before = Drawing::default();
    before.add_entity(make_line_entity(1)).unwrap();
    let e = make_line_entity(2);
    drawing.add_entity(e.clone()).unwrap();
    let removed = drawing.remove_entity(EntityId::new(2)).unwrap();
    assert_eq!(removed, e);
    assert_eq!(drawing, before);
}

#[test]
fn removing_a_missing_entity_or_dimension_is_refused() {
    let mut drawing = Drawing::default();
    assert_eq!(drawing.remove_entity(EntityId::new(3)), Err(CoreError::MissingEntity(EntityId::new(3))));
    assert_eq!(
        drawing.remove_dimension(DimensionId::new(4)),
        Err(CoreError::MissingDimension(DimensionId::new(4)))
    );
}

#[test]
fn duplicate_dimension_id_is_rejected() {
    let mut drawing = Drawing::default();
    let dim = || Dimension {
        id: DimensionId::new(1),
        kind: DimensionKind::Linear,
        start: pt(0.0, 0.0),
        end: pt(1.0, 0.0),
        offset: 1.0,
        layer_id: default_layer_id(),
    };
    drawing.add_dimension(dim()).unwrap();
    assert_eq!(drawing.add_dimension(dim()), Err(CoreError::DuplicateDimensionId(DimensionId::new(1))));
}

#[test]
fn core_error_messages_name_the_id() {
    assert_eq!(CoreError::DuplicateEntityId(EntityId::new(1)).message(), "duplicate entity id: EntityId(1)");
    assert_eq!(CoreError::MissingEntity(EntityId::new(20)).message(), "missing entity id: EntityId(20)");
    assert_eq!(CoreError::DuplicateLayerId(LayerId::new(0)).message(), "duplicate layer id: LayerId(0)");
    assert_eq!(CoreError::MissingLayer(LayerId::new(99)).message(), "missing layer id: LayerId(99)");
    assert_eq!(
        CoreError::DuplicateDimensionId(DimensionId::new(123)).message(),
        "duplicate dimension id: DimensionId(123)"
    );
    assert_eq!(
        CoreError::MissingDimension(DimensionId::new(18446744073709551615)).message(),
        "missing dimension id: DimensionId(18446744073709551615)"
    );
}

#[test]
fn layer_new_is_visible_and_unlocked() {
    let layer = Layer::new(LayerId::new(3), "walls");
    assert_eq!(layer.id, LayerId::new(3));
    assert_eq!(layer.name, "walls");
    assert!(layer.visible);
    assert!(!layer.locked);
}

#[test]
fn warnings_do_not_count_as_errors() {
    let report = ValidationReport {
        issues: vec![ValidationIssue {
            severity: ValidationSeverity::Warning,
            target: ValidationTarget::Layer(LayerId::new(1)),
            message: "just a warning".to_owned(),
            suggestion: String::new(),
        }],
    };
    assert!(!report.has_errors());
    assert!(!ValidationReport::default().has_errors());
}
