//! The flags of `adroit new` that drive the forge hook.
use vstd::prelude::*;

verus! {

/// Flags from `adroit new` that drive the forge hook.
#[derive(Debug, Clone, Copy, PartialEq, Eq, Structural)]
pub struct ForgeFlags {
    /// `--with-forge` was passed (opt-in; the hook does nothing otherwise).
    pub enabled: bool,
    /// `--dry-run`: show the plan, touch nothing remote or on disk.
    pub dry_run: bool,
    /// `--yes`: apply without the confirmation gate.
    pub yes: bool,
}

impl Default for ForgeFlags {
    fn default() -> (r: Self)
        ensures
            !r.enabled && !r.dry_run && !r.yes,
    {
        ForgeFlags { enabled: false, dry_run: false, yes: false }
    }
}

} // verus!
