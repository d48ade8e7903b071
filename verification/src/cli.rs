//! The commands of the tool.
use vstd::prelude::*;

verus! {

/// A call of the tool.
///
/// Install, list and uninstall AppImages with full menu integration. Designed
/// to be invoked by Dolphin when the user clicks an AppImage.
#[derive(Debug)]
pub struct Cli {
    pub command: Command,
}

/// What the tool is asked to do.
#[derive(Debug)]
pub enum Command {
    /// Invoked by the file manager when an AppImage is opened: shows a
    /// confirmation; on accept it installs and launches.
    Handle {
        /// The AppImage file passed by the file manager.
        file: String,
    },
    /// Install an AppImage without prompting (intended for scripts).
    Install {
        /// Path to the AppImage to install.
        file: String,
    },
    /// List AppImages previously installed by this tool.
    List,
    /// Uninstall an AppImage by its installed name.
    Uninstall {
        /// Name (without extension) as shown by `list`.
        name: String,
        /// Skip the confirmation prompt (for scripts).
        yes: bool,
    },
    /// Register this tool as the default handler for AppImage MIME types.
    Setup,
}

} // verus!
