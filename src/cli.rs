//! Which commands run on which platform.
use vstd::prelude::*;

use crate::error::MigrateError;

verus! {

/// The operations of the command line.
#[derive(Debug, PartialEq, Eq)]
pub enum Commands {
    /// Extract a snapshot from the source store.
    Dump,
    /// Print the adapters and devices of a snapshot.
    List,
    /// Write one snapshot device into the destination store.
    Apply { adapter: String, device: String },
}

/// The host family the program runs on.
#[derive(Debug, Clone, Copy, PartialEq, Eq, Structural)]
pub enum Platform {
    /// Holds the source store.
    Unix,
    /// Holds the destination store.
    Windows,
}

/// A command that runs on the platform: extraction where the source store
/// lives, apply where the destination store lives, listing anywhere.
pub open spec fn supported(command: Commands, platform: Platform) -> bool {
    match command {
        Commands::Dump => platform == Platform::Unix,
        Commands::List => true,
        Commands::Apply { .. } => platform == Platform::Windows,
    }
}

/// The error of a command that does not run here.
pub fn unsupported_cmd() -> (r: Result<(), MigrateError>)
    ensures
        r == Err::<(), MigrateError>(MigrateError::UnsupportedCommand),
{
    Err(MigrateError::UnsupportedCommand)
}

/// Decides whether `command` may run on `platform`.
pub fn exec_cli(command: &Commands, platform: Platform) -> (r: Result<(), MigrateError>)
    ensures
        r is Ok <==> supported(*command, platform),
        r matches Err(e) ==> e == MigrateError::UnsupportedCommand,
{
    match command {
        Commands::Dump => match platform {
            Platform::Unix => Ok(()),
            Platform::Windows => unsupported_cmd(),
        },
        Commands::List => Ok(()),
        Commands::Apply { .. } => match platform {
            Platform::Windows => Ok(()),
            Platform::Unix => unsupported_cmd(),
        },
    }
}

} // verus!
