use vstd::prelude::*;
use crate::geometry::{Point, Rect};

verus! {

/// A pointer press within this many pixels of a corner of the selection
/// grabs that corner.
pub const HANDLE_RADIUS: i64 = 8;

/// How pointer movement changes the selection.
#[derive(Clone, Copy, Debug, PartialEq, Eq, Structural)]
pub enum DragMode {
    Idle,
    Creating,
    TopLeft,
    TopRight,
    BottomLeft,
    BottomRight,
}

/// The pointer-driven selection: the rectangle, the point where a new
/// selection started, and what a drag currently does.
#[derive(Clone, Copy, Debug)]
pub struct SelectionController {
    pub selection: Option<Rect>,
    pub drag_start: Option<Point>,
    pub mode: DragMode,
}

/// Whether `p` lies strictly within the handle radius of `c`.
pub open spec fn near(c: Point, p: Point) -> bool {
    let dx = p.x - c.x;
    let dy = p.y - c.y;
    dx * dx + dy * dy < HANDLE_RADIUS * HANDLE_RADIUS
}

/// The corner handle of `sel` that a press at `p` grabs, the corners tried
/// in the order top left, top right, bottom left, bottom right.
pub open spec fn handle_at(sel: Rect, p: Point) -> DragMode {
    let n = sel.spec_normalized();
    if near(n.min, p) {
        DragMode::TopLeft
    } else if near(Point { x: n.max.x, y: n.min.y }, p) {
        DragMode::TopRight
    } else if near(Point { x: n.min.x, y: n.max.y }, p) {
        DragMode::BottomLeft
    } else if near(n.max, p) {
        DragMode::BottomRight
    } else {
        DragMode::Creating
    }
}

/// The selection after a drag to `p` in mode `m`.
pub open spec fn dragged(m: DragMode, start: Option<Point>, sel: Rect, p: Point) -> Rect {
    match m {
        DragMode::Creating => match start {
            Some(s) => Rect::spec_from_two_pos(s, p),
            None => sel,
        },
        DragMode::TopLeft => Rect::spec_from_two_pos(p, sel.max),
        DragMode::TopRight => Rect::spec_from_two_pos(p, Point { x: sel.min.x, y: sel.max.y }),
        DragMode::BottomLeft => Rect::spec_from_two_pos(p, Point { x: sel.max.x, y: sel.min.y }),
        DragMode::BottomRight => Rect::spec_from_two_pos(p, sel.min),
        DragMode::Idle => sel,
    }
}

fn is_near(c: Point, p: Point) -> (r: bool)
    ensures
        r == near(c, p),
{
    let dx = p.x as i64 - c.x as i64;
    let dy = p.y as i64 - c.y as i64;
    if dx <= -HANDLE_RADIUS || dx >= HANDLE_RADIUS || dy <= -HANDLE_RADIUS || dy >= HANDLE_RADIUS {
        assert(dx * dx >= 64 || dy * dy >= 64) by (nonlinear_arith)
            requires
                dx <= -8 || dx >= 8 || dy <= -8 || dy >= 8,
        ;
        assert(dx * dx >= 0 && dy * dy >= 0) by (nonlinear_arith);
        return false;
    }
    assert(0 <= dx * dx < 64) by (nonlinear_arith)
        requires
            -8 < dx < 8,
    ;
    assert(0 <= dy * dy < 64) by (nonlinear_arith)
        requires
            -8 < dy < 8,
    ;
    let sx = dx * dx;
    let sy = dy * dy;
    sx + sy < HANDLE_RADIUS * HANDLE_RADIUS
}

/// The corner handle of `sel` that a press at `p` grabs, or `Creating` when
/// the press is on no handle.
pub fn handle_under(sel: &Rect, p: Point) -> (r: DragMode)
    ensures
        r == handle_at(*sel, p),
{
    let n = sel.normalized();
    if is_near(n.left_top(), p) {
        DragMode::TopLeft
    } else if is_near(n.right_top(), p) {
        DragMode::TopRight
    } else if is_near(n.left_bottom(), p) {
        DragMode::BottomLeft
    } else if is_near(n.right_bottom(), p) {
        DragMode::BottomRight
    } else {
        DragMode::Creating
    }
}

impl SelectionController {
    pub fn new() -> (r: SelectionController)
        ensures
            r.selection is None,
            r.drag_start is None,
            r.mode == DragMode::Idle,
    {
        SelectionController { selection: None, drag_start: None, mode: DragMode::Idle }
    }

    /// The controller after a press at `p`, and whether the press started a
    /// new selection.
    pub open spec fn after_down(self, p: Point) -> (SelectionController, bool) {
        if self.mode != DragMode::Idle {
            (self, false)
        } else {
            let grabbed = match self.selection {
                Some(sel) => handle_at(sel, p),
                None => DragMode::Creating,
            };
            if grabbed == DragMode::Creating {
                (
                    SelectionController {
                        selection: Some(Rect { min: p, max: p }),
                        drag_start: Some(p),
                        mode: grabbed,
                    },
                    true,
                )
            } else {
                (SelectionController { mode: grabbed, ..self }, false)
            }
        }
    }

    /// The controller after a drag to `p`.
    pub open spec fn after_drag(self, p: Point) -> SelectionController {
        match self.selection {
            Some(sel) => SelectionController {
                selection: Some(dragged(self.mode, self.drag_start, sel, p)),
                ..self
            },
            None => self,
        }
    }

    /// The controller after the release that ends a drag, and the finished
    /// selection.
    pub open spec fn after_up(self) -> (SelectionController, Option<Rect>) {
        let finished = match self.selection {
            Some(sel) => Some(sel.spec_normalized()),
            None => None,
        };
        (SelectionController { selection: finished, drag_start: None, mode: DragMode::Idle }, finished)
    }

    /// A press at `p`. While no drag is under way, a press on a corner
    /// handle of the selection starts resizing that corner; any other press
    /// starts a new, empty selection at `p`. Returns whether a new selection
    /// was started, in which case earlier results no longer apply.
    pub fn on_pointer_down(&mut self, p: Point) -> (started: bool)
        ensures
            (*final(self), started) == old(self).after_down(p),
    {
        if self.mode != DragMode::Idle {
            return false;
        }
        let grabbed = match self.selection {
            Some(sel) => handle_under(&sel, p),
            None => DragMode::Creating,
        };
        self.mode = grabbed;
        if grabbed == DragMode::Creating {
            self.drag_start = Some(p);
            self.selection = Some(Rect { min: p, max: p });
            true
        } else {
            false
        }
    }

    /// A drag to `p`: while creating, the selection spans the start point and
    /// `p`; while resizing a corner, it spans `p` and the opposite corner.
    pub fn on_pointer_drag(&mut self, p: Point)
        ensures
            *final(self) == old(self).after_drag(p),
    {
        if let Some(sel) = self.selection {
            let next = match self.mode {
                DragMode::Creating => match self.drag_start {
                    Some(s) => Rect::from_two_pos(s, p),
                    None => sel,
                },
                DragMode::TopLeft => Rect::from_two_pos(p, sel.right_bottom()),
                DragMode::TopRight => Rect::from_two_pos(p, sel.left_bottom()),
                DragMode::BottomLeft => Rect::from_two_pos(p, sel.right_top()),
                DragMode::BottomRight => Rect::from_two_pos(p, sel.left_top()),
                DragMode::Idle => sel,
            };
            self.selection = Some(next);
        }
    }

    /// The release that ends a drag: the selection is normalized, the drag
    /// ends, and the finished selection, if any, is returned for recognition.
    pub fn on_pointer_up(&mut self) -> (finished: Option<Rect>)
        ensures
            (*final(self), finished) == old(self).after_up(),
            finished matches Some(r) ==> r.is_normalized(),
    {
        let finished = match self.selection {
            Some(sel) => Some(sel.normalized()),
            None => None,
        };
        self.selection = finished;
        self.mode = DragMode::Idle;
        self.drag_start = None;
        finished
    }
}

} // verus!
