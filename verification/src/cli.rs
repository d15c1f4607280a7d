//! The command line: which command runs with which paths, the usage and
//! help texts, the messages it reports, and the order in which recovery
//! looks for a loadable copy.

use vstd::prelude::*;

use crate::ids::id_label;
use crate::model::{Layer, Project};
use crate::paths::{spec_with_extension, svg_path_for};
use crate::text::{decimal, push_decimal};

verus! {

/// A command of the command line, with its arguments.
#[derive(Debug, PartialEq)]
pub enum CliCommand {
    Help,
    Validate { path: String },
    Export { path: String, output: String },
    BatchExport { dir: String },
    Inspect { path: String },
    Recover { path: String },
}

/// The help text listing the commands.
pub open spec fn help_text_spec() -> Seq<char> {
    "cad_cli commands:\n  validate <path.cadproj>\n  export <path.cadproj> [output.svg]\n  batch-export <directory>\n  inspect <path.cadproj>\n  recover <path.cadproj>"@
}

/// The help text listing the commands.
pub fn help_text() -> (s: String)
    ensures
        s@ == help_text_spec(),
{
    String::from_str(
        "cad_cli commands:\n  validate <path.cadproj>\n  export <path.cadproj> [output.svg]\n  batch-export <directory>\n  inspect <path.cadproj>\n  recover <path.cadproj>",
    )
}

/// The message for a missing argument of a command with this usage line.
pub open spec fn usage_message(usage: Seq<char>) -> Seq<char> {
    "usage: cad_cli "@ + usage
}

/// Takes the next argument, or fails with the usage message when there is none.
pub fn next_arg(args: &mut Vec<String>, usage: &str) -> (r: Result<String, String>)
    ensures
        old(args)@.len() == 0 ==> final(args)@ == old(args)@ && r is Err && r->Err_0@ == usage_message(usage@),
        old(args)@.len() > 0 ==> final(args)@ == old(args)@.drop_first() && r == Ok::<String, String>(old(args)@[0]),
{
    if args.len() == 0 {
        let mut s = String::from_str("usage: cad_cli ");
        s.append(usage);
        return Err(s);
    }
    let first = args.remove(0);
    assert(args@ =~= old(args)@.drop_first());
    Ok(first)
}

fn same_text(a: &str, b: &str) -> (r: bool)
    ensures
        r == (a@ == b@),
{
    String::from_str(a) == String::from_str(b)
}

/// The message for a command the command line does not know.
pub open spec fn unknown_command_message(command: Seq<char>) -> Seq<char> {
    "unknown command '"@ + command + "' (see --help)"@
}

/// The command `command` with arguments `args` asks for: `Ok(c)` names the
/// command and its paths, `Err(m)` the message to report.
pub open spec fn parses_as(command: Seq<char>, args: Seq<String>, r: Result<CliCommand, String>) -> bool {
    if command == "--help"@ || command == "help"@ {
        r == Ok::<CliCommand, String>(CliCommand::Help)
    } else if command == "validate"@ {
        one_path(args, "validate <path.cadproj>"@, r, |p: String| CliCommand::Validate { path: p })
    } else if command == "export"@ {
        if args.len() == 0 {
            r is Err && r->Err_0@ == usage_message("export <path.cadproj> [output.svg]"@)
        } else {
            &&& r is Ok
            &&& r->Ok_0 is Export
            &&& r->Ok_0->Export_path == args[0]
            &&& if args.len() > 1 {
                r->Ok_0->Export_output == args[1]
            } else {
                r->Ok_0->Export_output@ == spec_with_extension(args[0]@, "svg"@)
            }
        }
    } else if command == "batch-export"@ {
        one_path(args, "batch-export <directory>"@, r, |p: String| CliCommand::BatchExport { dir: p })
    } else if command == "inspect"@ {
        one_path(args, "inspect <path.cadproj>"@, r, |p: String| CliCommand::Inspect { path: p })
    } else if command == "recover"@ {
        one_path(args, "recover <path.cadproj>"@, r, |p: String| CliCommand::Recover { path: p })
    } else {
        r is Err && r->Err_0@ == unknown_command_message(command)
    }
}

/// A command that takes one path: the first argument, or the usage message.
pub open spec fn one_path(
    args: Seq<String>,
    usage: Seq<char>,
    r: Result<CliCommand, String>,
    make: spec_fn(String) -> CliCommand,
) -> bool {
    if args.len() == 0 {
        r is Err && r->Err_0@ == usage_message(usage)
    } else {
        r == Ok::<CliCommand, String>(make(args[0]))
    }
}

/// Decides which command the command line runs (see `parses_as`).
pub fn run(command: &str, args: Vec<String>) -> (r: Result<CliCommand, String>)
    ensures
        parses_as(command@, args@, r),
{
    let mut args = args;
    let ghost a0 = args@;
    if same_text(command, "--help") || same_text(command, "help") {
        return Ok(CliCommand::Help);
    }
    if same_text(command, "validate") {
        return match next_arg(&mut args, "validate <path.cadproj>") {
            Ok(path) => Ok(CliCommand::Validate { path }),
            Err(e) => Err(e),
        };
    }
    if same_text(command, "export") {
        let path = match next_arg(&mut args, "export <path.cadproj> [output.svg]") {
            Ok(path) => path,
            Err(e) => return Err(e),
        };
        let output = match next_arg(&mut args, "") {
            Ok(out) => out,
            Err(_) => svg_path_for(path.as_str()),
        };
        assert(a0.len() > 1 ==> a0.drop_first()[0] == a0[1]);
        return Ok(CliCommand::Export { path, output });
    }
    if same_text(command, "batch-export") {
        return match next_arg(&mut args, "batch-export <directory>") {
            Ok(dir) => Ok(CliCommand::BatchExport { dir }),
            Err(e) => Err(e),
        };
    }
    if same_text(command, "inspect") {
        return match next_arg(&mut args, "inspect <path.cadproj>") {
            Ok(path) => Ok(CliCommand::Inspect { path }),
            Err(e) => Err(e),
        };
    }
    if same_text(command, "recover") {
        return match next_arg(&mut args, "recover <path.cadproj>") {
            Ok(path) => Ok(CliCommand::Recover { path }),
            Err(e) => Err(e),
        };
    }
    let mut s = String::from_str("unknown command '");
    s.append(command);
    s.append("' (see --help)");
    Err(s)
}

/// The report of a project that loaded and validated.
pub open spec fn valid_message_text(path: Seq<char>, entities: nat, layers: nat, dimensions: nat) -> Seq<char> {
    "OK: "@ + path + " is valid ("@ + decimal(entities) + " entities, "@ + decimal(layers) + " layers, "@
        + decimal(dimensions) + " dimensions)"@
}

/// The report of a project that loaded and validated (see `valid_message_text`).
pub fn valid_message<G, Pt, L>(path: &str, project: &Project<G, Pt, L>) -> (s: String)
    ensures
        s@ == valid_message_text(
            path@,
            project.drawing@.entities.len(),
            project.drawing@.layers.len(),
            project.drawing@.dimensions.len(),
        ),
{
    let mut s = String::from_str("OK: ");
    s.append(path);
    s.append(" is valid (");
    push_decimal(&mut s, project.drawing.entities.len() as u64);
    s.append(" entities, ");
    push_decimal(&mut s, project.drawing.layers.len() as u64);
    s.append(" layers, ");
    push_decimal(&mut s, project.drawing.dimensions.len() as u64);
    s.append(" dimensions)");
    s
}

/// The text for a flag: `true` or `false`.
pub open spec fn flag_text(b: bool) -> Seq<char> {
    if b {
        "true"@
    } else {
        "false"@
    }
}

fn push_flag(s: &mut String, b: bool)
    ensures
        final(s)@ == old(s)@ + flag_text(b),
{
    if b {
        s.append("true");
    } else {
        s.append("false");
    }
}

/// The line describing one layer: `  - name (visible=…, locked=…)`.
pub open spec fn layer_line(l: Layer) -> Seq<char> {
    "  - "@ + l.name@ + " (visible="@ + flag_text(l.visible) + ", locked="@ + flag_text(l.locked) + ")"@
}

/// The lines that describe a project: its ids, its layers one per line,
/// and how many entities and dimensions it holds.
pub open spec fn inspect_text<G, Pt, L>(p: Project<G, Pt, L>) -> Seq<Seq<char>> {
    seq![
        "project id: "@ + id_label("ProjectId"@, p.id.spec_value()),
        "drawing id: "@ + id_label("DrawingId"@, p.drawing.id.spec_value()),
        "layers: "@ + decimal(p.drawing@.layers.len()),
    ] + p.drawing@.layers.map_values(|l: Layer| layer_line(l)) + seq![
        "entities: "@ + decimal(p.drawing@.entities.len()),
        "dimensions: "@ + decimal(p.drawing@.dimensions.len()),
    ]
}

fn labelled_count(label: &str, n: usize) -> (s: String)
    ensures
        s@ == label@ + decimal(n as nat),
{
    let mut s = String::from_str(label);
    push_decimal(&mut s, n as u64);
    s
}

fn labelled_text(label: &str, text: String) -> (s: String)
    ensures
        s@ == label@ + text@,
{
    let mut s = String::from_str(label);
    s.append(text.as_str());
    s
}

/// The lines that describe a project (see `inspect_text`).
pub fn inspect_lines<G, Pt, L>(project: &Project<G, Pt, L>) -> (lines: Vec<String>)
    ensures
        lines@.map_values(|s: String| s@) == inspect_text(*project),
{
    let mut lines: Vec<String> = Vec::new();
    lines.push(labelled_text("project id: ", project.id.label()));
    lines.push(labelled_text("drawing id: ", project.drawing.id.label()));
    lines.push(labelled_count("layers: ", project.drawing.layers.len()));
    let ghost head = lines@.map_values(|s: String| s@);
    let ghost ls = project.drawing@.layers;
    let mut i: usize = 0;
    while i < project.drawing.layers.len()
        invariant
            i <= ls.len(),
            ls == project.drawing@.layers,
            lines@.map_values(|s: String| s@) == head + ls.take(i as int).map_values(|l: Layer| layer_line(l)),
        decreases ls.len() - i,
    {
        let layer = &project.drawing.layers[i];
        let mut line = String::from_str("  - ");
        line.append(layer.name.as_str());
        line.append(" (visible=");
        push_flag(&mut line, layer.visible);
        line.append(", locked=");
        push_flag(&mut line, layer.locked);
        line.append(")");
        assert(line@ == layer_line(ls[i as int]));
        let ghost before = lines@.map_values(|s: String| s@);
        lines.push(line);
        assert(lines@.map_values(|s: String| s@) =~= before.push(layer_line(ls[i as int])));
        assert(ls.take(i + 1).map_values(|l: Layer| layer_line(l)) =~= ls.take(i as int).map_values(|l: Layer| layer_line(l)).push(layer_line(ls[i as int])));
        assert(lines@.map_values(|s: String| s@) =~= head + ls.take(i + 1).map_values(|l: Layer| layer_line(l)));
        i = i + 1;
    }
    assert(ls.take(ls.len() as int) =~= ls);
    let ghost middle = lines@.map_values(|s: String| s@);
    lines.push(labelled_count("entities: ", project.drawing.entities.len()));
    lines.push(labelled_count("dimensions: ", project.drawing.dimensions.len()));
    assert(lines@.map_values(|s: String| s@) =~= middle + seq![
        "entities: "@ + decimal(project.drawing@.entities.len()),
        "dimensions: "@ + decimal(project.drawing@.dimensions.len()),
    ]);
    assert(lines@.map_values(|s: String| s@) =~= inspect_text(*project));
    lines
}

/// The summary line of a batch export.
pub open spec fn batch_summary_text(processed: nat, failed: nat) -> Seq<char> {
    "batch-export: "@ + decimal(processed) + " exported, "@ + decimal(failed) + " failed"@
}

/// The summary line of a batch export (see `batch_summary_text`).
pub fn batch_summary(processed: usize, failed: usize) -> (s: String)
    ensures
        s@ == batch_summary_text(processed as nat, failed as nat),
{
    let mut s = String::from_str("batch-export: ");
    push_decimal(&mut s, processed as u64);
    s.append(" exported, ");
    push_decimal(&mut s, failed as u64);
    s.append(" failed");
    s
}

/// The error of a batch export in which some files failed.
pub open spec fn batch_failure_text(failed: nat) -> Seq<char> {
    decimal(failed) + " file(s) failed to export"@
}

/// The error of a batch export in which some files failed (see `batch_failure_text`).
pub fn batch_failure(failed: usize) -> (s: String)
    ensures
        s@ == batch_failure_text(failed as nat),
{
    let mut s = String::new();
    push_decimal(&mut s, failed as u64);
    s.append(" file(s) failed to export");
    s
}


/// A copy of the project that recovery can load.
#[derive(Clone, Copy, Debug, PartialEq, Eq, Structural)]
pub enum RecoverySource {
    /// The project file itself.
    ProjectFile,
    /// Its autosave companion.
    Autosave,
    /// The latest of its backups.
    Backup,
}

/// Where recovery stands: the next outside step to take, or how it ended.
#[derive(Clone, Copy, Debug, PartialEq, Eq, Structural)]
pub enum RecoveryStep {
    /// Load this copy of the project.
    Load(RecoverySource),
    /// Look for the latest backup of the project.
    FindBackup,
    /// The project file already loads; nothing is written.
    NotNeeded,
    /// Write the copy loaded from this source to the recovered path.
    WriteFrom(RecoverySource),
    /// The latest backup was found but did not load either.
    BackupFailed,
    /// Neither a loadable autosave nor a backup exists.
    NothingFound,
}

/// Whether recovery has ended at this step.
pub open spec fn recovery_finished(step: RecoveryStep) -> bool {
    match step {
        RecoveryStep::Load(_) => false,
        RecoveryStep::FindBackup => false,
        _ => true,
    }
}

/// The step after `step`, given whether that step succeeded (the copy
/// loaded, or a backup was found). Recovery tries the project file, then
/// its autosave, then its latest backup; an ended recovery stays ended.
pub open spec fn recovery_transition(step: RecoveryStep, succeeded: bool) -> RecoveryStep {
    match step {
        RecoveryStep::Load(RecoverySource::ProjectFile) => if succeeded {
            RecoveryStep::NotNeeded
        } else {
            RecoveryStep::Load(RecoverySource::Autosave)
        },
        RecoveryStep::Load(RecoverySource::Autosave) => if succeeded {
            RecoveryStep::WriteFrom(RecoverySource::Autosave)
        } else {
            RecoveryStep::FindBackup
        },
        RecoveryStep::FindBackup => if succeeded {
            RecoveryStep::Load(RecoverySource::Backup)
        } else {
            RecoveryStep::NothingFound
        },
        RecoveryStep::Load(RecoverySource::Backup) => if succeeded {
            RecoveryStep::WriteFrom(RecoverySource::Backup)
        } else {
            RecoveryStep::BackupFailed
        },
        _ => step,
    }
}

/// Recovery starts by loading the project file itself.
pub fn first_recovery_step() -> (step: RecoveryStep)
    ensures
        step == RecoveryStep::Load(RecoverySource::ProjectFile),
{
    RecoveryStep::Load(RecoverySource::ProjectFile)
}

/// The step after `step` (see `recovery_transition`).
pub fn next_recovery_step(step: RecoveryStep, succeeded: bool) -> (next: RecoveryStep)
    ensures
        next == recovery_transition(step, succeeded),
{
    match step {
        RecoveryStep::Load(RecoverySource::ProjectFile) => if succeeded {
            RecoveryStep::NotNeeded
        } else {
            RecoveryStep::Load(RecoverySource::Autosave)
        },
        RecoveryStep::Load(RecoverySource::Autosave) => if succeeded {
            RecoveryStep::WriteFrom(RecoverySource::Autosave)
        } else {
            RecoveryStep::FindBackup
        },
        RecoveryStep::FindBackup => if succeeded {
            RecoveryStep::Load(RecoverySource::Backup)
        } else {
            RecoveryStep::NothingFound
        },
        RecoveryStep::Load(RecoverySource::Backup) => if succeeded {
            RecoveryStep::WriteFrom(RecoverySource::Backup)
        } else {
            RecoveryStep::BackupFailed
        },
        _ => step,
    }
}

/// The step recovery reaches from its first step when the outside steps
/// succeed as `outcomes` says, one outcome per step taken.
pub open spec fn recovery_run(outcomes: Seq<bool>) -> RecoveryStep
    decreases outcomes.len(),
{
    if outcomes.len() == 0 {
        RecoveryStep::Load(RecoverySource::ProjectFile)
    } else {
        recovery_transition(recovery_run(outcomes.drop_last()), outcomes.last())
    }
}

/// Recovery ends within four outside steps, whatever they report.
pub proof fn lemma_recovery_ends_within_four_steps(outcomes: Seq<bool>)
    requires
        outcomes.len() >= 4,
    ensures
        recovery_finished(recovery_run(outcomes)),
    decreases outcomes.len(),
{
    if outcomes.len() > 4 {
        lemma_recovery_ends_within_four_steps(outcomes.drop_last());
    } else {
        let o = outcomes;
        assert(o.drop_last().drop_last().drop_last().drop_last().len() == 0);
        reveal_with_fuel(recovery_run, 5);
    }
}

/// Recovery never writes the project file onto itself, and writes only a
/// copy that loaded: a write from the autosave follows a failed load of the
/// project file and a successful load of the autosave; a write from a
/// backup follows failed loads of both, a found backup, and its load.
pub proof fn lemma_recovery_writes_only_loaded_copies(outcomes: Seq<bool>)
    ensures
        recovery_run(outcomes) != RecoveryStep::WriteFrom(RecoverySource::ProjectFile),
        recovery_run(outcomes) == RecoveryStep::WriteFrom(RecoverySource::Autosave) ==> outcomes.len() >= 2 && !outcomes[0] && outcomes[1],
        recovery_run(outcomes) == RecoveryStep::WriteFrom(RecoverySource::Backup) ==> outcomes.len() >= 4 && !outcomes[0] && !outcomes[1] && outcomes[2] && outcomes[3],
        recovery_run(outcomes) == RecoveryStep::NotNeeded ==> outcomes.len() >= 1 && outcomes[0],
    decreases outcomes.len(),
{
    if outcomes.len() > 0 {
        let prev = outcomes.drop_last();
        lemma_recovery_writes_only_loaded_copies(prev);
        lemma_recovery_prefix(prev);
        if outcomes.len() <= 4 {
            reveal_with_fuel(recovery_run, 5);
        }
    }
}

/// Which step each number of outside steps reaches while recovery goes on.
proof fn lemma_recovery_prefix(outcomes: Seq<bool>)
    ensures
        recovery_run(outcomes) == RecoveryStep::Load(RecoverySource::ProjectFile) ==> outcomes.len() == 0,
        recovery_run(outcomes) == RecoveryStep::Load(RecoverySource::Autosave) ==> outcomes.len() == 1 && !outcomes[0],
        recovery_run(outcomes) == RecoveryStep::FindBackup ==> outcomes.len() == 2 && !outcomes[0] && !outcomes[1],
        recovery_run(outcomes) == RecoveryStep::Load(RecoverySource::Backup) ==> outcomes.len() == 3 && !outcomes[0] && !outcomes[1] && outcomes[2],
    decreases outcomes.len(),
{
    if outcomes.len() > 0 {
        let prev = outcomes.drop_last();
        lemma_recovery_prefix(prev);
        assert(forall|i: int| 0 <= i < prev.len() ==> prev[i] == outcomes[i]);
    }
}

/// The report that the project file needs no recovery.
pub open spec fn not_needed_text(path: Seq<char>) -> Seq<char> {
    path + " already loads without errors; no recovery needed."@
}

/// The report that the project file needs no recovery (see `not_needed_text`).
pub fn not_needed_message(path: &str) -> (s: String)
    ensures
        s@ == not_needed_text(path@),
{
    let mut s = String::from_str(path);
    s.append(" already loads without errors; no recovery needed.");
    s
}

/// The error when there is nothing to recover from.
pub open spec fn nothing_found_text(path: Seq<char>) -> Seq<char> {
    "no autosave or backup found for "@ + path + "; nothing to recover from"@
}

/// The error when there is nothing to recover from (see `nothing_found_text`).
pub fn nothing_found_message(path: &str) -> (s: String)
    ensures
        s@ == nothing_found_text(path@),
{
    let mut s = String::from_str("no autosave or backup found for ");
    s.append(path);
    s.append("; nothing to recover from");
    s
}

/// The error when the latest backup does not load; `reason` says why.
pub open spec fn backup_failed_text(backup: Seq<char>, reason: Seq<char>) -> Seq<char> {
    "backup "@ + backup + " also failed to load: "@ + reason
}

/// The error when the latest backup does not load (see `backup_failed_text`).
pub fn backup_failed_message(backup: &str, reason: &str) -> (s: String)
    ensures
        s@ == backup_failed_text(backup@, reason@),
{
    let mut s = String::from_str("backup ");
    s.append(backup);
    s.append(" also failed to load: ");
    s.append(reason);
    s
}

/// The report of a recovery that wrote the copy from `source` to `written`.
pub open spec fn recovered_text(source: Seq<char>, written: Seq<char>) -> Seq<char> {
    "recovered from "@ + source + " -> wrote "@ + written + " (original left untouched)"@
}

/// The report of a finished recovery (see `recovered_text`).
pub fn recovered_message(source: &str, written: &str) -> (s: String)
    ensures
        s@ == recovered_text(source@, written@),
{
    let mut s = String::from_str("recovered from ");
    s.append(source);
    s.append(" -> wrote ");
    s.append(written);
    s.append(" (original left untouched)");
    s
}

/// The error when the recovered copy cannot be written; `reason` says why.
pub open spec fn write_failed_text(source: Seq<char>, target: Seq<char>, reason: Seq<char>) -> Seq<char> {
    "recovered project from "@ + source + " but failed to write "@ + target + ": "@ + reason
}

/// The error when the recovered copy cannot be written (see `write_failed_text`).
pub fn write_failed_message(source: &str, target: &str, reason: &str) -> (s: String)
    ensures
        s@ == write_failed_text(source@, target@, reason@),
{
    let mut s = String::from_str("recovered project from ");
    s.append(source);
    s.append(" but failed to write ");
    s.append(target);
    s.append(": ");
    s.append(reason);
    s
}

} // verus!
