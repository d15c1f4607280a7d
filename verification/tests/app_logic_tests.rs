use cad_studio::batch::{empty_report, is_project_file};
use cad_studio::cli::{
    backup_failed_message, batch_failure, batch_summary, first_recovery_step, help_text, inspect_lines, next_arg,
    next_recovery_step, not_needed_message, nothing_found_message, recovered_message, run, valid_message,
    write_failed_message, CliCommand, RecoverySource, RecoveryStep,
};
use cad_studio::drawing::next_entity_id;
use cad_studio::geometry::GeometryError;
use cad_studio::ids::{DimensionId, EntityId, LayerId};
use cad_studio::model::{default_layer_id, Dimension, DimensionKind, Entity, Layer};
use cad_studio::render::{build_render_model, is_layer_visible, render_order, RenderItem};
use cad_studio::text::is_blank;
use cad_studio::tool::{on_click, switch_tool, text_input_outcome, text_input_step, DrawState, ShapeRequest, Tool};

type Project = cad_studio::model::Project<&'static str, (f64, f64), f64>;

fn args(values: &[&str]) -> Vec<String> {
    values.iter().map(|s| (*s).to_owned()).collect()
}

#[test]
fn empty_report_starts_at_zero() {
    let report = empty_report();
    assert_eq!(report.processed, 0);
    assert_eq!(report.failed, 0);
    assert!(report.failed_paths.is_empty());
}

#[test]
fn recording_counts_exports_and_failures() {
    let mut report = empty_report();
    report.record("a.cadproj".to_owned(), true);
    report.record("broken.cadproj".to_owned(), false);
    assert_eq!(report.processed, 1);
    assert_eq!(report.failed, 1);
    assert_eq!(report.failed_paths, vec!["broken.cadproj".to_owned()]);
    assert_ne!(report, empty_report());
}

#[test]
fn autosave_files_are_not_batch_exported() {
    assert!(is_project_file("a.cadproj"));
    assert!(!is_project_file("a.autosave.cadproj"));
    assert!(!is_project_file("a.svg"));
    assert!(!is_project_file("cadproj"));
}

#[test]
fn unknown_command_is_an_error() {
    let result = run("does-not-exist", args(&[]));
    assert!(result.is_err());
    assert_eq!(result, Err("unknown command 'does-not-exist' (see --help)".to_owned()));
}

#[test]
fn commands_take_their_paths() {
    assert_eq!(run("--help", args(&[])), Ok(CliCommand::Help));
    assert_eq!(run("help", args(&["ignored"])), Ok(CliCommand::Help));
    assert_eq!(run("validate", args(&["a.cadproj"])), Ok(CliCommand::Validate { path: "a.cadproj".to_owned() }));
    assert_eq!(run("validate", args(&[])), Err("usage: cad_cli validate <path.cadproj>".to_owned()));
    assert_eq!(
        run("export", args(&["plans/a.cadproj"])),
        Ok(CliCommand::Export { path: "plans/a.cadproj".to_owned(), output: "plans/a.svg".to_owned() })
    );
    assert_eq!(
        run("export", args(&["a.cadproj", "out.svg"])),
        Ok(CliCommand::Export { path: "a.cadproj".to_owned(), output: "out.svg".to_owned() })
    );
    assert_eq!(run("export", args(&[])), Err("usage: cad_cli export <path.cadproj> [output.svg]".to_owned()));
    assert_eq!(run("batch-export", args(&["dir"])), Ok(CliCommand::BatchExport { dir: "dir".to_owned() }));
    assert_eq!(run("inspect", args(&["p"])), Ok(CliCommand::Inspect { path: "p".to_owned() }));
    assert_eq!(run("recover", args(&[])), Err("usage: cad_cli recover <path.cadproj>".to_owned()));
}

#[test]
fn next_arg_takes_the_first_argument() {
    let mut a = args(&["x", "y"]);
    assert_eq!(next_arg(&mut a, "u"), Ok("x".to_owned()));
    assert_eq!(a, args(&["y"]));
    let mut empty = args(&[]);
    assert_eq!(next_arg(&mut empty, "inspect <path.cadproj>"), Err("usage: cad_cli inspect <path.cadproj>".to_owned()));
}

#[test]
fn help_lists_every_command() {
    let help = help_text();
    assert!(help.starts_with("cad_cli commands:\n"));
    for command in ["validate", "export", "batch-export", "inspect", "recover"] {
        assert!(help.contains(&format!("  {command} ")));
    }
}

fn sample_project() -> Project {
    let mut project = Project::default();
    let mut hidden = Layer::new(LayerId::new(2), "hidden");
    hidden.visible = false;
    project.drawing.add_layer(hidden).unwrap();
    project.drawing.add_entity(Entity { id: EntityId::new(1), layer_id: default_layer_id(), geometry: "shown" }).unwrap();
    project.drawing.add_entity(Entity { id: EntityId::new(5), layer_id: LayerId::new(2), geometry: "hidden" }).unwrap();
    project.drawing.add_entity(Entity { id: EntityId::new(3), layer_id: LayerId::new(9), geometry: "orphan" }).unwrap();
    project
        .drawing
        .add_dimension(Dimension {
            id: DimensionId::new(1),
            kind: DimensionKind::Linear,
            start: (0.0, 0.0),
            end: (1.0, 0.0),
            offset: 2.0,
            layer_id: default_layer_id(),
        })
        .unwrap();
    project
}

#[test]
fn messages_describe_the_project() {
    let project = sample_project();
    assert_eq!(valid_message("a.cadproj", &project), "OK: a.cadproj is valid (3 entities, 2 layers, 1 dimensions)");
    assert_eq!(
        inspect_lines(&project),
        vec![
            "project id: ProjectId(0)".to_owned(),
            "drawing id: DrawingId(0)".to_owned(),
            "layers: 2".to_owned(),
            "  - 0 (visible=true, locked=false)".to_owned(),
            "  - hidden (visible=false, locked=false)".to_owned(),
            "entities: 3".to_owned(),
            "dimensions: 1".to_owned(),
        ]
    );
    assert_eq!(batch_summary(2, 1), "batch-export: 2 exported, 1 failed");
    assert_eq!(batch_failure(1), "1 file(s) failed to export");
}

#[test]
fn next_entity_id_is_one_past_the_largest() {
    assert_eq!(next_entity_id(&sample_project().drawing), 6);
    assert_eq!(next_entity_id(&Project::default().drawing), 1);
}

#[test]
fn hidden_layers_are_not_rendered_and_entities_come_first() {
    let project = sample_project();
    assert!(is_layer_visible(&project.drawing, default_layer_id()));
    assert!(!is_layer_visible(&project.drawing, LayerId::new(2)));
    assert!(is_layer_visible(&project.drawing, LayerId::new(9)));
    assert_eq!(
        render_order(&project.drawing),
        vec![RenderItem::Entity(0), RenderItem::Entity(2), RenderItem::Dimension(0)]
    );
    let model = build_render_model(&project, &|g: &&'static str| g.to_string(), &|d: &Dimension<(f64, f64), f64>| {
        format!("dimension {}", d.id.value())
    });
    assert_eq!(model, vec!["shown".to_owned(), "orphan".to_owned(), "dimension 1".to_owned()]);
}

#[test]
fn tools_have_labels() {
    assert_eq!(Tool::Select.label(), "선택");
    assert_eq!(Tool::Text.label(), "텍스트");
    assert_eq!(Tool::DRAWING_TOOLS, [Tool::Line, Tool::Rectangle, Tool::Circle, Tool::Arc, Tool::Text]);
}

#[test]
fn clicks_complete_shapes() {
    type State = DrawState<(f64, f64), (f32, f32)>;
    let (s, done) = on_click(Tool::Line, State::Idle, (0.0, 0.0));
    assert_eq!(s, State::LineStart((0.0, 0.0)));
    assert!(done.is_none());
    let (s, done) = on_click(Tool::Line, s, (10.0, 0.0));
    assert_eq!(s, State::Idle);
    assert_eq!(done, Some(ShapeRequest::Line { start: (0.0, 0.0), end: (10.0, 0.0) }));
    let (s, _) = on_click(Tool::Arc, State::Idle, (0.0, 0.0));
    let (s, _) = on_click(Tool::Arc, s, (1.0, 0.0));
    let (s, done) = on_click(Tool::Arc, s, (0.0, 1.0));
    assert_eq!(s, State::Idle);
    assert_eq!(done, Some(ShapeRequest::Arc { center: (0.0, 0.0), start: (1.0, 0.0), end: (0.0, 1.0) }));
    let (s, done) = on_click(Tool::Text, State::Idle, (3.0, 4.0));
    assert_eq!(s, State::TextPending { origin: (3.0, 4.0), content: String::new() });
    assert!(done.is_none());
    let (s2, done) = on_click(Tool::Select, s.clone(), (9.0, 9.0));
    assert_eq!(s2, s);
    assert!(done.is_none());
}

#[test]
fn switching_tools_clears_pending_input() {
    type State = DrawState<(f64, f64), (f32, f32)>;
    assert_eq!(switch_tool(Tool::Line, State::LineStart((1.0, 1.0)), Tool::Circle), (Tool::Circle, State::Idle));
    assert_eq!(
        switch_tool(Tool::Line, State::LineStart((1.0, 1.0)), Tool::Line),
        (Tool::Line, State::LineStart((1.0, 1.0)))
    );
}

#[test]
fn geometry_errors_have_messages() {
    assert_eq!(GeometryError::ZeroLengthLine.message(), "line has zero length");
    assert_eq!(GeometryError::DegeneratePolyline.message(), "polyline has fewer than two distinct points");
    assert_eq!(GeometryError::NonPositiveWidth.message(), "rectangle width must be positive");
    assert_eq!(GeometryError::NonPositiveHeight.message(), "rectangle height must be positive");
    assert_eq!(GeometryError::NonPositiveRadius.message(), "radius must be positive");
    assert_eq!(GeometryError::ZeroSweepAngle.message(), "arc sweep angle must not be zero");
}

fn run_recovery(outcomes: &[bool]) -> RecoveryStep {
    let mut step = first_recovery_step();
    for &ok in outcomes {
        step = next_recovery_step(step, ok);
    }
    step
}

#[test]
fn recovery_tries_the_file_then_the_autosave_then_the_latest_backup() {
    assert_eq!(first_recovery_step(), RecoveryStep::Load(RecoverySource::ProjectFile));
    assert_eq!(run_recovery(&[true]), RecoveryStep::NotNeeded);
    assert_eq!(run_recovery(&[false]), RecoveryStep::Load(RecoverySource::Autosave));
    assert_eq!(run_recovery(&[false, true]), RecoveryStep::WriteFrom(RecoverySource::Autosave));
    assert_eq!(run_recovery(&[false, false]), RecoveryStep::FindBackup);
    assert_eq!(run_recovery(&[false, false, false]), RecoveryStep::NothingFound);
    assert_eq!(run_recovery(&[false, false, true]), RecoveryStep::Load(RecoverySource::Backup));
    assert_eq!(run_recovery(&[false, false, true, true]), RecoveryStep::WriteFrom(RecoverySource::Backup));
    assert_eq!(run_recovery(&[false, false, true, false]), RecoveryStep::BackupFailed);
}

#[test]
fn ended_recovery_stays_ended() {
    for end in [
        RecoveryStep::NotNeeded,
        RecoveryStep::WriteFrom(RecoverySource::Autosave),
        RecoveryStep::BackupFailed,
        RecoveryStep::NothingFound,
    ] {
        assert_eq!(next_recovery_step(end, true), end);
        assert_eq!(next_recovery_step(end, false), end);
    }
}

#[test]
fn recovery_messages_name_the_files() {
    assert_eq!(not_needed_message("a.cadproj"), "a.cadproj already loads without errors; no recovery needed.");
    assert_eq!(nothing_found_message("a.cadproj"), "no autosave or backup found for a.cadproj; nothing to recover from");
    assert_eq!(backup_failed_message("b/a.bak", "bad json"), "backup b/a.bak also failed to load: bad json");
    assert_eq!(
        recovered_message("a.autosave.cadproj", "a.recovered.cadproj"),
        "recovered from a.autosave.cadproj -> wrote a.recovered.cadproj (original left untouched)"
    );
    assert_eq!(
        write_failed_message("a.autosave.cadproj", "a.recovered.cadproj", "disk full"),
        "recovered project from a.autosave.cadproj but failed to write a.recovered.cadproj: disk full"
    );
}

#[test]
fn blank_texts_hold_only_white_space() {
    assert!(is_blank(""));
    assert!(is_blank(" \t\n"));
    assert!(is_blank("\u{3000}"));
    assert!(is_blank("\u{85}\u{2028}"));
    assert!(!is_blank("\u{200B}"));
    assert!(!is_blank(" a "));
}

#[test]
fn confirmed_text_with_content_is_finished() {
    type State = DrawState<(f64, f64), (f32, f32)>;
    let (s, done): (State, _) = text_input_step((1.0, 2.0), "label".to_owned(), true, false);
    assert_eq!(s, State::Idle);
    assert_eq!(done, Some(((1.0, 2.0), "label".to_owned())));
}

#[test]
fn blank_or_unconfirmed_text_stays_pending_and_cancel_drops_it() {
    type State = DrawState<(f64, f64), (f32, f32)>;
    let (s, done): (State, _) = text_input_step((1.0, 2.0), "   ".to_owned(), true, false);
    assert_eq!(s, State::TextPending { origin: (1.0, 2.0), content: "   ".to_owned() });
    assert!(done.is_none());
    let (s, done): (State, _) = text_input_step((1.0, 2.0), "ab".to_owned(), false, false);
    assert_eq!(s, State::TextPending { origin: (1.0, 2.0), content: "ab".to_owned() });
    assert!(done.is_none());
    let (s, done): (State, _) = text_input_step((1.0, 2.0), "   ".to_owned(), true, true);
    assert_eq!(s, State::Idle);
    assert!(done.is_none());
    let (s, done): (State, _) = text_input_step((1.0, 2.0), "ab".to_owned(), false, true);
    assert_eq!(s, State::Idle);
    assert!(done.is_none());
}

#[test]
fn text_outcome_follows_blankness_confirmation_and_cancellation() {
    type State = DrawState<u8, u8>;
    let (s, done): (State, _) = text_input_outcome(7, "x".to_owned(), false, true, false);
    assert_eq!((s, done), (State::Idle, Some((7, "x".to_owned()))));
    let (s, done): (State, _) = text_input_outcome(7, "x".to_owned(), true, true, false);
    assert_eq!((s, done), (State::TextPending { origin: 7, content: "x".to_owned() }, None));
    let (s, done): (State, _) = text_input_outcome(7, "x".to_owned(), true, true, true);
    assert_eq!((s, done), (State::Idle, None));
}
