//! Template descriptors — the data form of a `view!` tree — and the
//! machinery that diffs, registers and hot-swaps them.
use vstd::prelude::*;

pub mod descriptor;
pub mod diff;
pub mod inflate;
pub mod parse;
pub mod registry;
pub mod reload;
pub mod swap;

pub use descriptor::{PropValue, StaticValue, Template, TemplateKey, TemplateNode};
pub use diff::{diff, EscalationReason, TemplateDiff};
pub use registry::{files_match, find_running, get, len, register, snapshot, TemplateRegistry};
pub use swap::{apply_swap, SwapOutcome};
pub use parse::{ParseError, ViewArg, ViewElement, ViewLiteral, ViewProp, ViewSite};
pub use reload::{apply_reload, ReloadReport};
