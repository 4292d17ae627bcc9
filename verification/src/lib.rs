//! Small extensions for `Option` and slices, plus a few free helpers,
//! each with a machine-checked contract.

pub mod lemmas;
pub mod option_ext;
mod private;
pub mod slice_ext;
pub mod util;

pub use option_ext::OptionExt;
pub use slice_ext::SliceExt;
pub use util::{checked_sub, ptr_diff, zip_opt};
