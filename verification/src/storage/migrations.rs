//! Stepwise schema migrations for on-disk files.
//!
//! Each migration takes a file at version N to version N+1. With only schema
//! v1 in existence none is registered, so a file at an older version is
//! refused.

use vstd::prelude::*;

use crate::document::TomlValue;
use crate::numbers::render;
use crate::numbers::decimal;
use crate::storage::projects::{StorageError, PROJECT_VERSION};
use crate::storage::projects::StorageErrorView;

verus! {

/// Why a project file at a version cannot be brought up to the current
/// schema, if it cannot.
pub open spec fn migration_problem(version: u32) -> Option<StorageErrorView> {
    if version < PROJECT_VERSION {
        Some(
            StorageErrorView::Invalid {
                path: seq![],
                message: "no migration registered for project schema v"@ + decimal(version as nat),
            },
        )
    } else {
        None
    }
}

/// Migrate a project file from `version` up to the current schema.
pub fn migrate_project(table: Vec<(String, TomlValue)>, version: u32) -> (r: Result<
    Vec<(String, TomlValue)>,
    StorageError,
>)
    ensures
        match r {
            Ok(migrated) => migration_problem(version) is None && migrated == table,
            Err(error) => migration_problem(version) == Some(error@),
        },
{
    if version < PROJECT_VERSION {
        let mut message = "no migration registered for project schema v".to_owned();
        message.append(render(version as u64).as_str());
        let error = StorageError::Invalid { path: String::new(), message };
        assert(error@ == migration_problem(version)->0);
        return Err(error);
    }
    Ok(table)
}

} // verus!
