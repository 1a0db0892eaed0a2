//! Widget-level state and decisions: frame scheduling, hero transitions,
//! icon names, overlay placement, and the small models widgets are
//! configured with.
use vstd::prelude::*;

pub mod autocomplete;
pub mod bottom_nav;
pub mod data_table;
pub mod grid;
pub mod hero;
pub mod icon;
pub mod overlay;

verus! {

// ───────────────────────── frame requests ─────────────────────────

/// Requests widgets make of the frame loop during one paint: whether
/// another frame is wanted for continuous animation.
#[derive(Debug)]
pub struct FrameRequests {
    animation: bool,
}

impl FrameRequests {
    /// Whether another frame has been requested since the last take.
    pub closed spec fn animation_requested(&self) -> bool {
        self.animation
    }

    /// Nothing requested.
    pub fn new() -> (r: FrameRequests)
        ensures
            !r.animation_requested(),
    {
        FrameRequests { animation: false }
    }
}

/// The request flag after a request: set, whatever it was.
pub open spec fn requested(flag: bool) -> bool {
    true
}

/// A take of the request flag: it is cleared, and what it was is reported.
pub open spec fn taken(flag: bool) -> (bool, bool) {
    (false, flag)
}

/// The request flag after `k` requests, starting from `flag`.
pub open spec fn after_requests(flag: bool, k: nat) -> bool
    decreases k,
{
    if k == 0 {
        flag
    } else {
        requested(after_requests(flag, (k - 1) as nat))
    }
}

/// Asks the frame loop for another frame (self-animating widgets call this
/// each paint).
pub fn request_animation(f: &mut FrameRequests)
    ensures
        final(f).animation_requested() == requested(old(f).animation_requested()),
{
    f.animation = true;
}

/// Frame loop: whether any widget asked for another frame since the last
/// call; the request is consumed.
pub fn take_animation_request(f: &mut FrameRequests) -> (r: bool)
    ensures
        (final(f).animation_requested(), r) == taken(old(f).animation_requested()),
{
    let r = f.animation;
    f.animation = false;
    r
}

/// After a take, `k` requests make the next take report `k > 0`, and a take
/// right after that one reports nothing.
pub proof fn law_take_reports_requests(flag: bool, k: nat)
    ensures
        taken(after_requests(taken(flag).0, k)).1 == (k > 0),
        taken(taken(after_requests(taken(flag).0, k)).0).1 == false,
    decreases k,
{
    if k > 0 {
        law_take_reports_requests(flag, (k - 1) as nat);
    }
}

// ───────────────────────── small models ─────────────────────────

/// Where a single child sits inside its parent's rect.
#[derive(Clone, Copy, Debug, PartialEq, Eq, Structural)]
pub enum Alignment {
    TopLeft,
    TopCenter,
    TopRight,
    CenterLeft,
    Center,
    CenterRight,
    BottomLeft,
    BottomCenter,
    BottomRight,
}

impl Default for Alignment {
    fn default() -> (r: Alignment)
        ensures
            r == Alignment::Center,
    {
        Alignment::Center
    }
}

/// Horizontal and vertical placement of an alignment, in halves of the
/// free space: 0 = start, 1 = centre, 2 = end.
pub open spec fn alignment_halves(a: Alignment) -> (u8, u8) {
    match a {
        Alignment::TopLeft => (0, 0),
        Alignment::TopCenter => (1, 0),
        Alignment::TopRight => (2, 0),
        Alignment::CenterLeft => (0, 1),
        Alignment::Center => (1, 1),
        Alignment::CenterRight => (2, 1),
        Alignment::BottomLeft => (0, 2),
        Alignment::BottomCenter => (1, 2),
        Alignment::BottomRight => (2, 2),
    }
}

impl Alignment {
    /// How far along each axis the child sits, in halves of the free space
    /// (0 = start, 1 = centre, 2 = end).
    pub fn halves(&self) -> (r: (u8, u8))
        ensures
            r == alignment_halves(*self),
    {
        match self {
            Alignment::TopLeft => (0, 0),
            Alignment::TopCenter => (1, 0),
            Alignment::TopRight => (2, 0),
            Alignment::CenterLeft => (0, 1),
            Alignment::Center => (1, 1),
            Alignment::CenterRight => (2, 1),
            Alignment::BottomLeft => (0, 2),
            Alignment::BottomCenter => (1, 2),
            Alignment::BottomRight => (2, 2),
        }
    }
}

/// A button's visual variant.
#[derive(Debug, Clone, Copy, PartialEq, Eq, Structural)]
pub enum ButtonVariant {
    Primary,
    Secondary,
    /// No fill or border until hovered.
    Transparent,
    Danger,
    Success,
    Link,
}

impl Default for ButtonVariant {
    fn default() -> (r: ButtonVariant)
        ensures
            r == ButtonVariant::Primary,
    {
        ButtonVariant::Primary
    }
}

/// A box's shape.
#[derive(Clone, Copy, Debug, PartialEq, Eq, Structural)]
pub enum BoxShape {
    /// Rounded rect using the box's radius (0 = sharp corners).
    Rect,
    /// Fully circular.
    Circle,
    /// Pill: radius = height / 2.
    Stadium,
}

impl Default for BoxShape {
    fn default() -> (r: BoxShape)
        ensures
            r == BoxShape::Rect,
    {
        BoxShape::Rect
    }
}

/// Which swipe directions dismiss.
#[derive(Debug, Clone, Copy, PartialEq, Eq, Structural)]
pub enum DismissDirection {
    /// Swipe either way.
    Horizontal,
    /// Only swiping left dismisses.
    EndToStart,
    /// Only swiping right dismisses.
    StartToEnd,
}

/// Where a revealed child should sit in the viewport.
#[derive(Clone, Copy, PartialEq, Eq, Structural, Debug)]
pub enum ScrollAlign {
    /// Scroll the minimum distance to bring it fully into view.
    Nearest,
    /// Align leading edges.
    Start,
    /// Centre it.
    Center,
    /// Align trailing edges.
    End,
}

impl Default for ScrollAlign {
    fn default() -> (r: ScrollAlign)
        ensures
            r == ScrollAlign::Nearest,
    {
        ScrollAlign::Nearest
    }
}

} // verus!
