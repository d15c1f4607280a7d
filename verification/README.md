# CAD Studio

A local-first 2D drawing tool whose core is verified with Verus.

## Layout

- `src/` — the verified library (`cad_studio`):
  - `ids`, `keys`, `model`, `report`, `drawing`: stable identifiers, the
    drawing model (entities, layers, dimensions) and its structural
    validation;
  - `command`: drawing commands, the inverse commands that undo them by
    position, the undo/redo history and command replay; shape computations
    on coordinates are passed in as functions;
  - `laws`: properties that relate several operations (undo and redo give
    back drawings exactly, ids stay unique, successful commands leave valid
    drawings, replay is deterministic);
  - `render`: which entities and dimensions are drawn, and in which order;
  - `persist`, `paths`, `text`: project-file checks, backup naming,
    selection and pruning, derived file paths, SVG text escaping, digits
    and white space;
  - `cli`, `batch`, `tool`: command-line parsing and messages, the recovery
    order, batch-export bookkeeping, and the editor's tool state machine.
- `app/` — the program: floating-point geometry and tolerances, JSON files,
  file system work, SVG output, the command line and the `egui` editor.
- `tests/` — tests of the library.
