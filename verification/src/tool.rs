//! The drawing tools of the editor and the input state machine that turns
//! clicks into shapes: a line takes two clicks, a rectangle two corners, a
//! circle a center and an edge point, an arc a center, a start and an end,
//! and text an origin followed by typed content. Points are of any type `P`.

use vstd::prelude::*;

use crate::ids::EntityId;
use crate::text::{blank, is_blank};

verus! {

/// A tool of the editor.
#[derive(Clone, Copy, Debug, PartialEq, Eq, Structural)]
pub enum Tool {
    Select,
    Line,
    Rectangle,
    Circle,
    Arc,
    Text,
}

/// The label shown for each tool.
pub open spec fn tool_label(t: Tool) -> Seq<char> {
    match t {
        Tool::Select => "선택"@,
        Tool::Line => "선"@,
        Tool::Rectangle => "사각형"@,
        Tool::Circle => "원"@,
        Tool::Arc => "호"@,
        Tool::Text => "텍스트"@,
    }
}

impl Tool {
    /// The tools that draw, in toolbar order.
    pub const DRAWING_TOOLS: [Tool; 5] = [Tool::Line, Tool::Rectangle, Tool::Circle, Tool::Arc, Tool::Text];

    /// The label shown for the tool.
    pub fn label(self) -> (s: &'static str)
        ensures
            s@ == tool_label(self),
    {
        match self {
            Tool::Select => "선택",
            Tool::Line => "선",
            Tool::Rectangle => "사각형",
            Tool::Circle => "원",
            Tool::Arc => "호",
            Tool::Text => "텍스트",
        }
    }
}

/// The input collected so far by the active tool. `S` is a screen offset.
#[derive(Clone, Debug, PartialEq)]
pub enum DrawState<P, S> {
    Idle,
    LineStart(P),
    RectangleStart(P),
    CircleCenter(P),
    ArcCenter(P),
    ArcStart { center: P, start: P },
    TextPending { origin: P, content: String },
    /// Dragging an entity; the offset accumulates until the drag ends.
    Moving { entity_id: EntityId, screen_delta: S },
}

/// A shape the user finished describing.
#[derive(Clone, Debug, PartialEq)]
pub enum ShapeRequest<P> {
    Line { start: P, end: P },
    Rectangle { corner: P, opposite: P },
    Circle { center: P, edge: P },
    Arc { center: P, start: P, end: P },
}

/// The state after a click at `p` with tool `t` in state `s`, and the shape
/// it completes, if any. A click the tool does not expect changes nothing.
pub open spec fn click_step<P, S>(t: Tool, s: DrawState<P, S>, p: P) -> (DrawState<P, S>, Option<ShapeRequest<P>>) {
    match (t, s) {
        (Tool::Line, DrawState::Idle) => (DrawState::LineStart(p), None),
        (Tool::Line, DrawState::LineStart(a)) => (DrawState::Idle, Some(ShapeRequest::Line { start: a, end: p })),
        (Tool::Rectangle, DrawState::Idle) => (DrawState::RectangleStart(p), None),
        (Tool::Rectangle, DrawState::RectangleStart(a)) => (DrawState::Idle, Some(ShapeRequest::Rectangle { corner: a, opposite: p })),
        (Tool::Circle, DrawState::Idle) => (DrawState::CircleCenter(p), None),
        (Tool::Circle, DrawState::CircleCenter(c)) => (DrawState::Idle, Some(ShapeRequest::Circle { center: c, edge: p })),
        (Tool::Arc, DrawState::Idle) => (DrawState::ArcCenter(p), None),
        (Tool::Arc, DrawState::ArcCenter(c)) => (DrawState::ArcStart { center: c, start: p }, None),
        (Tool::Arc, DrawState::ArcStart { center: c, start: a }) => (DrawState::Idle, Some(ShapeRequest::Arc { center: c, start: a, end: p })),
        (_, s) => (s, None),
    }
}

/// Each drawing tool takes its points in the order it asks for them: a line
/// from its first click to its second, a rectangle from a corner to the
/// opposite one, a circle centred on its first click through its second,
/// and an arc centred on its first click from its second to its third.
/// Until the last click no shape is finished, and the tool is then idle
/// again. A click that a tool does not expect in the current state (any
/// click of the selection tool, and a text click once a text is pending)
/// changes nothing and finishes nothing.
pub proof fn lemma_tools_take_their_points_in_order<P, S>(a: P, b: P, c: P)
    ensures
        ({
            let (s1, r1) = click_step(Tool::Line, DrawState::<P, S>::Idle, a);
            &&& r1 is None
            &&& click_step(Tool::Line, s1, b) == (DrawState::<P, S>::Idle, Some(ShapeRequest::Line { start: a, end: b }))
        }),
        ({
            let (s1, r1) = click_step(Tool::Rectangle, DrawState::<P, S>::Idle, a);
            &&& r1 is None
            &&& click_step(Tool::Rectangle, s1, b) == (DrawState::<P, S>::Idle, Some(ShapeRequest::Rectangle { corner: a, opposite: b }))
        }),
        ({
            let (s1, r1) = click_step(Tool::Circle, DrawState::<P, S>::Idle, a);
            &&& r1 is None
            &&& click_step(Tool::Circle, s1, b) == (DrawState::<P, S>::Idle, Some(ShapeRequest::Circle { center: a, edge: b }))
        }),
        ({
            let (s1, r1) = click_step(Tool::Arc, DrawState::<P, S>::Idle, a);
            let (s2, r2) = click_step(Tool::Arc, s1, b);
            &&& r1 is None
            &&& r2 is None
            &&& click_step(Tool::Arc, s2, c) == (DrawState::<P, S>::Idle, Some(ShapeRequest::Arc { center: a, start: b, end: c }))
        }),
        forall|s: DrawState<P, S>| #[trigger] click_step(Tool::Select, s, a) == (s, None::<ShapeRequest<P>>),
        forall|s: DrawState<P, S>| #[trigger] click_step(Tool::Text, s, a) == (s, None::<ShapeRequest<P>>),
        forall|s: DrawState<P, S>| !(s is Idle) && !(s is LineStart) ==> #[trigger] click_step(Tool::Line, s, a) == (s, None::<ShapeRequest<P>>),
        forall|s: DrawState<P, S>| !(s is Idle) && !(s is RectangleStart) ==> #[trigger] click_step(Tool::Rectangle, s, a) == (s, None::<ShapeRequest<P>>),
        forall|s: DrawState<P, S>| !(s is Idle) && !(s is CircleCenter) ==> #[trigger] click_step(Tool::Circle, s, a) == (s, None::<ShapeRequest<P>>),
        forall|s: DrawState<P, S>| !(s is Idle) && !(s is ArcCenter) && !(s is ArcStart) ==> #[trigger] click_step(Tool::Arc, s, a) == (s, None::<ShapeRequest<P>>),
{
}

/// Handles a click of a drawing tool at `p` (see `click_step`). A text click
/// in the idle state opens an empty pending text at `p`.
pub fn on_click<P, S>(tool: Tool, state: DrawState<P, S>, p: P) -> (out: (DrawState<P, S>, Option<ShapeRequest<P>>))
    ensures
        tool == Tool::Text && state is Idle ==> out.1 is None && out.0 is TextPending && out.0->TextPending_origin == p && out.0->TextPending_content@.len() == 0,
        !(tool == Tool::Text && state is Idle) ==> out == click_step(tool, state, p),
{
    match (tool, state) {
        (Tool::Line, DrawState::Idle) => (DrawState::LineStart(p), None),
        (Tool::Line, DrawState::LineStart(a)) => (DrawState::Idle, Some(ShapeRequest::Line { start: a, end: p })),
        (Tool::Rectangle, DrawState::Idle) => (DrawState::RectangleStart(p), None),
        (Tool::Rectangle, DrawState::RectangleStart(a)) => (DrawState::Idle, Some(ShapeRequest::Rectangle { corner: a, opposite: p })),
        (Tool::Circle, DrawState::Idle) => (DrawState::CircleCenter(p), None),
        (Tool::Circle, DrawState::CircleCenter(c)) => (DrawState::Idle, Some(ShapeRequest::Circle { center: c, edge: p })),
        (Tool::Arc, DrawState::Idle) => (DrawState::ArcCenter(p), None),
        (Tool::Arc, DrawState::ArcCenter(c)) => (DrawState::ArcStart { center: c, start: p }, None),
        (Tool::Arc, DrawState::ArcStart { center: c, start: a }) => (DrawState::Idle, Some(ShapeRequest::Arc { center: c, start: a, end: p })),
        (Tool::Text, DrawState::Idle) => (DrawState::TextPending { origin: p, content: String::new() }, None),
        (_, s) => (s, None),
    }
}

/// Switching tools: choosing a different tool clears the collected input;
/// choosing the active tool keeps it.
pub fn switch_tool<P, S>(current: Tool, state: DrawState<P, S>, chosen: Tool) -> (out: (Tool, DrawState<P, S>))
    ensures
        chosen != current ==> out.0 == chosen && out.1 is Idle,
        chosen == current ==> out == (current, state),
{
    if chosen != current {
        (chosen, DrawState::Idle)
    } else {
        (current, state)
    }
}

/// What a pending text becomes after a frame of its input box, given the
/// content typed so far, whether that content is blank, and whether it was
/// confirmed or cancelled: confirmed with content that is not blank, the
/// text is finished and the tool is idle again; otherwise, cancelled, it is
/// dropped; otherwise it stays pending.
pub fn text_input_outcome<P, S>(origin: P, content: String, blank: bool, confirmed: bool, cancelled: bool) -> (out: (
    DrawState<P, S>,
    Option<(P, String)>,
))
    ensures
        confirmed && !blank ==> out.0 is Idle && out.1 == Some((origin, content)),
        !(confirmed && !blank) && cancelled ==> out.0 is Idle && out.1 is None,
        !(confirmed && !blank) && !cancelled ==> out.0 == (DrawState::<P, S>::TextPending { origin, content })
            && out.1 is None,
{
    if confirmed && !blank {
        (DrawState::Idle, Some((origin, content)))
    } else if cancelled {
        (DrawState::Idle, None)
    } else {
        (DrawState::TextPending { origin, content }, None)
    }
}

/// What a pending text becomes after a frame of its input box (see
/// `text_input_outcome`), deciding whether the content is blank.
pub fn text_input_step<P, S>(origin: P, content: String, confirmed: bool, cancelled: bool) -> (out: (
    DrawState<P, S>,
    Option<(P, String)>,
))
    ensures
        confirmed && !blank(content@) ==> out.0 is Idle && out.1 == Some((origin, content)),
        !(confirmed && !blank(content@)) && cancelled ==> out.0 is Idle && out.1 is None,
        !(confirmed && !blank(content@)) && !cancelled ==> out.0 == (DrawState::<P, S>::TextPending { origin, content })
            && out.1 is None,
{
    let empty = is_blank(content.as_str());
    text_input_outcome(origin, content, empty, confirmed, cancelled)
}

} // verus!
