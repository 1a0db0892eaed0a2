//! How overlays and dialogs are placed on the root layer: where they sit,
//! whether input and focus pass through them, and the scrim behind them.
use vstd::prelude::*;

verus! {

/// Whether pointer events that miss an overlay fall through or are
/// absorbed.
#[derive(Clone, Copy, Debug, PartialEq, Eq, Structural)]
pub enum InputBehavior {
    /// Misses fall through to what is below.
    PassThrough,
    /// Misses are absorbed.
    Block,
}

impl Default for InputBehavior {
    fn default() -> (r: InputBehavior)
        ensures
            r == InputBehavior::PassThrough,
    {
        InputBehavior::PassThrough
    }
}

/// Tab focus traversal relative to an overlay.
#[derive(Clone, Copy, Debug, PartialEq, Eq, Structural)]
pub enum FocusBehavior {
    /// Tab continues below once this overlay is exhausted.
    PassThrough,
    /// Tab cycles within this overlay only.
    Trap,
    /// Nothing focusable here.
    Inert,
}

impl Default for FocusBehavior {
    fn default() -> (r: FocusBehavior)
        ensures
            r == FocusBehavior::PassThrough,
    {
        FocusBehavior::PassThrough
    }
}

/// Where a promoted layer sits (coordinates, where a position needs them,
/// come from the anchor and are worked out by the caller).
#[derive(Clone, Copy, Debug, PartialEq, Eq, Structural)]
pub enum LayerAnchor {
    /// Top-left corner at the anchor's bottom-left.
    BelowAnchor,
    /// Centred in the window.
    Centered,
    /// Along the bottom edge, full width.
    BottomAnchored,
    /// Centred horizontally, floating above the bottom edge.
    BottomCenter,
    /// Centred over the anchor, just above it.
    AboveAnchor,
    /// Fills the window.
    Fill,
}

/// A scrim: its black veil's opacity (0 = invisible) and whether a tap on
/// it reports a dismissal.
#[derive(Clone, Copy, Debug, PartialEq, Eq, Structural)]
pub struct ScrimSpec {
    pub alpha: u8,
    pub dismisses: bool,
}

/// How a layer is promoted: position, scrim, input and focus behaviour.
#[derive(Clone, Copy, Debug, PartialEq, Eq, Structural)]
pub struct Placement {
    pub anchor: LayerAnchor,
    pub scrim: Option<ScrimSpec>,
    pub input: InputBehavior,
    pub focus: FocusBehavior,
}

/// How a dialog presents.
#[derive(Clone, Copy, Debug, PartialEq, Eq, Structural)]
pub enum DialogPresentation {
    /// Centred card over a dimmed barrier that blocks input, traps focus
    /// and dismisses on tap.
    Modal,
    /// Centred card, no barrier: what is below stays interactive.
    NonModal,
    /// Fills the window; input blocked, focus trapped, an invisible barrier
    /// carries the dismissal.
    FullPage,
}

impl Default for DialogPresentation {
    fn default() -> (r: DialogPresentation)
        ensures
            r == DialogPresentation::Modal,
    {
        DialogPresentation::Modal
    }
}

pub open spec fn dialog_placement_spec(p: DialogPresentation) -> Placement {
    match p {
        DialogPresentation::Modal => Placement {
            anchor: LayerAnchor::Centered,
            scrim: Some(ScrimSpec { alpha: 160, dismisses: true }),
            input: InputBehavior::Block,
            focus: FocusBehavior::Trap,
        },
        DialogPresentation::NonModal => Placement {
            anchor: LayerAnchor::Centered,
            scrim: None,
            input: InputBehavior::PassThrough,
            focus: FocusBehavior::PassThrough,
        },
        DialogPresentation::FullPage => Placement {
            anchor: LayerAnchor::Fill,
            scrim: Some(ScrimSpec { alpha: 0, dismisses: true }),
            input: InputBehavior::Block,
            focus: FocusBehavior::Trap,
        },
    }
}

/// How a dialog of presentation `p` is promoted.
pub fn dialog_placement(p: DialogPresentation) -> (r: Placement)
    ensures
        r == dialog_placement_spec(p),
{
    match p {
        DialogPresentation::Modal => Placement {
            anchor: LayerAnchor::Centered,
            scrim: Some(ScrimSpec { alpha: 160, dismisses: true }),
            input: InputBehavior::Block,
            focus: FocusBehavior::Trap,
        },
        DialogPresentation::NonModal => Placement {
            anchor: LayerAnchor::Centered,
            scrim: None,
            input: InputBehavior::PassThrough,
            focus: FocusBehavior::PassThrough,
        },
        DialogPresentation::FullPage => Placement {
            anchor: LayerAnchor::Fill,
            scrim: Some(ScrimSpec { alpha: 0, dismisses: true }),
            input: InputBehavior::Block,
            focus: FocusBehavior::Trap,
        },
    }
}

/// The kinds of declarative overlay.
#[derive(Clone, Copy, Debug, PartialEq, Eq, Structural)]
pub enum OverlayKind {
    /// Below the trigger; invisible scrim that closes on an outside tap.
    Dropdown,
    /// Bottom of the window; a modal surface over a dim scrim.
    Sheet,
    /// Centred; blocks input, traps focus, dim scrim.
    Dialog,
    /// Above the trigger; inert, no scrim.
    Tooltip,
    /// Floating above the bottom edge; inert, no scrim.
    Toast,
}

/// How an open overlay of `kind` is promoted; `closable` says whether a
/// scrim tap reports a close (the overlay is dismissible and the app listens
/// for open-state changes).
pub open spec fn overlay_placement_spec(kind: OverlayKind, closable: bool) -> Placement {
    match kind {
        OverlayKind::Dropdown => Placement {
            anchor: LayerAnchor::BelowAnchor,
            scrim: Some(ScrimSpec { alpha: 0, dismisses: closable }),
            input: InputBehavior::PassThrough,
            focus: FocusBehavior::PassThrough,
        },
        OverlayKind::Sheet => Placement {
            anchor: LayerAnchor::BottomAnchored,
            scrim: Some(ScrimSpec { alpha: 100, dismisses: closable }),
            input: InputBehavior::Block,
            focus: FocusBehavior::Trap,
        },
        OverlayKind::Dialog => Placement {
            anchor: LayerAnchor::Centered,
            scrim: Some(ScrimSpec { alpha: 160, dismisses: closable }),
            input: InputBehavior::Block,
            focus: FocusBehavior::Trap,
        },
        OverlayKind::Tooltip => Placement {
            anchor: LayerAnchor::AboveAnchor,
            scrim: None,
            input: InputBehavior::PassThrough,
            focus: FocusBehavior::Inert,
        },
        OverlayKind::Toast => Placement {
            anchor: LayerAnchor::BottomCenter,
            scrim: None,
            input: InputBehavior::PassThrough,
            focus: FocusBehavior::Inert,
        },
    }
}

/// Where each kind of overlay goes, whatever its dismissibility: a dropdown
/// just below its trigger (top-left at the trigger's bottom-left), a tooltip
/// just above it, a sheet along the window's bottom edge, a dialog centred,
/// a toast floating above the bottom edge. Only dropdowns and tooltips
/// follow their trigger.
pub proof fn law_overlay_anchor(kind: OverlayKind, closable: bool)
    ensures
        kind == OverlayKind::Dropdown ==> overlay_placement_spec(kind, closable).anchor == LayerAnchor::BelowAnchor,
        kind == OverlayKind::Tooltip ==> overlay_placement_spec(kind, closable).anchor == LayerAnchor::AboveAnchor,
        kind == OverlayKind::Sheet ==> overlay_placement_spec(kind, closable).anchor == LayerAnchor::BottomAnchored,
        kind == OverlayKind::Dialog ==> overlay_placement_spec(kind, closable).anchor == LayerAnchor::Centered,
        kind == OverlayKind::Toast ==> overlay_placement_spec(kind, closable).anchor == LayerAnchor::BottomCenter,
        (overlay_placement_spec(kind, closable).anchor == LayerAnchor::BelowAnchor
            || overlay_placement_spec(kind, closable).anchor == LayerAnchor::AboveAnchor)
            <==> (kind == OverlayKind::Dropdown || kind == OverlayKind::Tooltip),
{
}

/// Whether an overlay can be closed changes only whether its scrim closes
/// it: position, input and focus stay the same; a modal overlay (sheet,
/// dialog) blocks input exactly when it traps focus; a scrim closes the
/// overlay only when it is closable; tooltips and toasts have no scrim.
pub proof fn law_overlay_closability(kind: OverlayKind, c1: bool, c2: bool)
    ensures
        overlay_placement_spec(kind, c1).anchor == overlay_placement_spec(kind, c2).anchor,
        overlay_placement_spec(kind, c1).input == overlay_placement_spec(kind, c2).input,
        overlay_placement_spec(kind, c1).focus == overlay_placement_spec(kind, c2).focus,
        (overlay_placement_spec(kind, c1).input == InputBehavior::Block) <==> (overlay_placement_spec(kind, c1).focus
            == FocusBehavior::Trap),
        (overlay_placement_spec(kind, c1).input == InputBehavior::Block) <==> (kind == OverlayKind::Sheet || kind
            == OverlayKind::Dialog),
        overlay_placement_spec(kind, c1).scrim matches Some(sc) ==> sc.dismisses == c1,
        overlay_placement_spec(kind, c1).scrim is None <==> (kind == OverlayKind::Tooltip || kind == OverlayKind::Toast),
{
}

/// How an open overlay is promoted. A scrim tap reports a close only when
/// the overlay is `dismissible` and the app listens (`has_listener`).
pub fn overlay_placement(kind: OverlayKind, dismissible: bool, has_listener: bool) -> (r: Placement)
    ensures
        r == overlay_placement_spec(kind, dismissible && has_listener),
{
    let closable = dismissible && has_listener;
    match kind {
        OverlayKind::Dropdown => Placement {
            anchor: LayerAnchor::BelowAnchor,
            scrim: Some(ScrimSpec { alpha: 0, dismisses: closable }),
            input: InputBehavior::PassThrough,
            focus: FocusBehavior::PassThrough,
        },
        OverlayKind::Sheet => Placement {
            anchor: LayerAnchor::BottomAnchored,
            scrim: Some(ScrimSpec { alpha: 100, dismisses: closable }),
            input: InputBehavior::Block,
            focus: FocusBehavior::Trap,
        },
        OverlayKind::Dialog => Placement {
            anchor: LayerAnchor::Centered,
            scrim: Some(ScrimSpec { alpha: 160, dismisses: closable }),
            input: InputBehavior::Block,
            focus: FocusBehavior::Trap,
        },
        OverlayKind::Tooltip => Placement {
            anchor: LayerAnchor::AboveAnchor,
            scrim: None,
            input: InputBehavior::PassThrough,
            focus: FocusBehavior::Inert,
        },
        OverlayKind::Toast => Placement {
            anchor: LayerAnchor::BottomCenter,
            scrim: None,
            input: InputBehavior::PassThrough,
            focus: FocusBehavior::Inert,
        },
    }
}

/// How a drawer is promoted: not at all while closed; when open, a layer
/// filling the window over a scrim of opacity `scrim_alpha`, blocking
/// input and trapping focus, whose scrim tap reports a close when the app
/// listens (`has_listener`).
pub fn drawer_placement(open: bool, has_listener: bool, scrim_alpha: u8) -> (r: Option<Placement>)
    ensures
        !open ==> r is None,
        open ==> r == Some(
            Placement {
                anchor: LayerAnchor::Fill,
                scrim: Some(ScrimSpec { alpha: scrim_alpha, dismisses: has_listener }),
                input: InputBehavior::Block,
                focus: FocusBehavior::Trap,
            },
        ),
{
    if !open {
        return None;
    }
    Some(Placement {
        anchor: LayerAnchor::Fill,
        scrim: Some(ScrimSpec { alpha: scrim_alpha, dismisses: has_listener }),
        input: InputBehavior::Block,
        focus: FocusBehavior::Trap,
    })
}

/// A layer that blocks input always traps focus and sits over a scrim, and
/// a layer without a scrim never blocks input.
pub proof fn law_blocking_layers_trap_focus(kind: OverlayKind, closable: bool, p: DialogPresentation)
    ensures
        overlay_placement_spec(kind, closable).input == InputBehavior::Block ==> overlay_placement_spec(kind, closable).focus
            == FocusBehavior::Trap && overlay_placement_spec(kind, closable).scrim is Some,
        dialog_placement_spec(p).input == InputBehavior::Block ==> dialog_placement_spec(p).focus == FocusBehavior::Trap
            && dialog_placement_spec(p).scrim is Some,
        overlay_placement_spec(kind, closable).scrim is None ==> overlay_placement_spec(kind, closable).input
            == InputBehavior::PassThrough,
        dialog_placement_spec(p).scrim is None ==> dialog_placement_spec(p).input == InputBehavior::PassThrough,
{
}

} // verus!
