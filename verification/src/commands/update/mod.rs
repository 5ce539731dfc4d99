//! The logic behind the `re update` subcommands.

pub mod dataset;
pub mod project;
pub mod source;
pub mod users;

use vstd::prelude::*;
use crate::commands::update::dataset::UpdateDatasetArgs;
use crate::commands::update::project::UpdateProjectArgs;
use crate::commands::update::source::UpdateSourceArgs;
use crate::commands::update::users::UpdateUsersArgs;

verus! {

/// The subcommands of `re update`.
pub enum UpdateArgs {
    /// Update a source.
    Source(UpdateSourceArgs),
    /// Update a dataset.
    Dataset(UpdateDatasetArgs),
    /// Update a project.
    Project(UpdateProjectArgs),
    /// Update users in bulk.
    Users(UpdateUsersArgs),
}

} // verus!
