//! A bottom navigation destination: its label, optional icon and badge,
//! whether it is the selected one, and its press handler.
use vstd::prelude::*;
use crate::text::{decimal, push_decimal};

verus! {

/// One destination of a bottom navigation bar. `W` is the icon widget and
/// `H` the press handler.
pub struct BottomNavItem<W, H> {
    pub label: String,
    pub icon: Option<W>,
    pub badge: Option<u32>,
    pub active: bool,
    pub on_press: Option<H>,
}

impl<W, H> BottomNavItem<W, H> {
    /// A destination with this label: no icon, no badge, not selected, no
    /// handler.
    pub fn new(label: &str) -> (r: BottomNavItem<W, H>)
        ensures
            r.label@ == label@,
            r.icon is None,
            r.badge is None,
            !r.active,
            r.on_press is None,
    {
        BottomNavItem { label: label.to_owned(), icon: None, badge: None, active: false, on_press: None }
    }

    /// Shows `w` above the label.
    pub fn icon(self, w: W) -> (r: BottomNavItem<W, H>)
        ensures
            r.label == self.label,
            r.icon == Some(w),
            r.badge == self.badge,
            r.active == self.active,
            r.on_press == self.on_press,
    {
        BottomNavItem { label: self.label, icon: Some(w), badge: self.badge, active: self.active, on_press: self.on_press }
    }

    /// Shows a count badge.
    pub fn badge(self, n: u32) -> (r: BottomNavItem<W, H>)
        ensures
            r.label == self.label,
            r.icon == self.icon,
            r.badge == Some(n),
            r.active == self.active,
            r.on_press == self.on_press,
    {
        BottomNavItem { label: self.label, icon: self.icon, badge: Some(n), active: self.active, on_press: self.on_press }
    }

    /// Marks this destination as the selected one.
    pub fn active(self) -> (r: BottomNavItem<W, H>)
        ensures
            r.label == self.label,
            r.icon == self.icon,
            r.badge == self.badge,
            r.active,
            r.on_press == self.on_press,
    {
        BottomNavItem { label: self.label, icon: self.icon, badge: self.badge, active: true, on_press: self.on_press }
    }

    /// Sets the press handler.
    pub fn on_press(self, f: H) -> (r: BottomNavItem<W, H>)
        ensures
            r.label == self.label,
            r.icon == self.icon,
            r.badge == self.badge,
            r.active == self.active,
            r.on_press == Some(f),
    {
        BottomNavItem { label: self.label, icon: self.icon, badge: self.badge, active: self.active, on_press: Some(f) }
    }
}

/// The text of a count badge: the count in decimal.
pub fn badge_text(n: u32) -> (r: String)
    ensures
        r@ == decimal(n as nat),
{
    let mut s = String::new();
    push_decimal(&mut s, n as u64);
    proof {
        assert(s@ =~= decimal(n as nat));
    }
    s
}

} // verus!
