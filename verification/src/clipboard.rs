//! Clipboard access: the interface a platform backend implements, and its
//! errors.
use vstd::prelude::*;
use crate::text::{push_str, str_equal};

verus! {

/// Why a clipboard operation failed.
#[derive(Debug)]
pub enum ClipboardError {
    Unavailable,
    CommandFailed(String),
    Unsupported,
}

/// Model of a [`ClipboardError`].
pub enum ClipboardErrorV {
    Unavailable,
    CommandFailed(Seq<char>),
    Unsupported,
}

impl View for ClipboardError {
    type V = ClipboardErrorV;

    open spec fn view(&self) -> ClipboardErrorV {
        match self {
            ClipboardError::Unavailable => ClipboardErrorV::Unavailable,
            ClipboardError::CommandFailed(m) => ClipboardErrorV::CommandFailed(m@),
            ClipboardError::Unsupported => ClipboardErrorV::Unsupported,
        }
    }
}

/// The error's display text.
pub open spec fn clipboard_error_text(e: ClipboardErrorV) -> Seq<char> {
    match e {
        ClipboardErrorV::Unavailable => "clipboard unavailable"@,
        ClipboardErrorV::CommandFailed(m) => "clipboard command failed: "@ + m,
        ClipboardErrorV::Unsupported => "clipboard not supported on this platform"@,
    }
}

impl ClipboardError {
    /// The error's display text.
    pub fn to_display_string(&self) -> (r: String)
        ensures
            r@ == clipboard_error_text(self@),
    {
        let mut s = String::new();
        match self {
            ClipboardError::Unavailable => push_str(&mut s, "clipboard unavailable"),
            ClipboardError::CommandFailed(m) => {
                push_str(&mut s, "clipboard command failed: ");
                push_str(&mut s, m.as_str());
            },
            ClipboardError::Unsupported => push_str(&mut s, "clipboard not supported on this platform"),
        }
        proof {
            assert(s@ =~= clipboard_error_text(self@));
        }
        s
    }
}

impl Clone for ClipboardError {
    fn clone(&self) -> (r: ClipboardError)
        ensures
            r@ == self@,
    {
        match self {
            ClipboardError::Unavailable => ClipboardError::Unavailable,
            ClipboardError::CommandFailed(m) => ClipboardError::CommandFailed(m.clone()),
            ClipboardError::Unsupported => ClipboardError::Unsupported,
        }
    }
}

impl PartialEq for ClipboardError {
    fn eq(&self, other: &ClipboardError) -> (r: bool) {
        match (self, other) {
            (ClipboardError::Unavailable, ClipboardError::Unavailable) => true,
            (ClipboardError::CommandFailed(a), ClipboardError::CommandFailed(b)) => str_equal(a.as_str(), b.as_str()),
            (ClipboardError::Unsupported, ClipboardError::Unsupported) => true,
            _ => false,
        }
    }
}

impl vstd::std_specs::cmp::PartialEqSpecImpl for ClipboardError {
    open spec fn obeys_eq_spec() -> bool {
        true
    }

    open spec fn eq_spec(&self, other: &ClipboardError) -> bool {
        self@ == other@
    }
}

/// Platform clipboard access, implemented by each platform backend.
pub trait ClipboardProvider {
    /// The current clipboard text; `None` if empty or unavailable.
    fn read(&self) -> Option<String>;

    /// Writes text to the clipboard.
    fn write(&self, text: &str) -> Result<(), ClipboardError>;

    /// Clears the clipboard (writes the empty text).
    fn clear(&self) {
        let _ = self.write("");
    }
}

} // verus!
