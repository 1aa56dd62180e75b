//! The tabs of the graphical front end and what the USB tab keeps.

use vstd::prelude::*;
use crate::staged::StagedFiles;

verus! {

/// A tab of the graphical front end. The USB tab keeps its options and the
/// files staged for installation; a running installation is kept by the front
/// end beside it.
pub enum Tab {
    Home,
    Usb { recurse: bool, for_sphaira: bool, staged_files: StagedFiles },
    Network,
    Rcm,
    Log,
}

impl Tab {
    /// The label of the tab.
    pub fn as_str(&self) -> (res: &'static str)
        ensures
            res@ == match self {
                Tab::Home => "🏠 Home"@,
                Tab::Usb { .. } => "🔌 USB"@,
                Tab::Network => "🌐 Network"@,
                Tab::Rcm => "📎 RCM"@,
                Tab::Log => "📜 Log"@,
            },
    {
        match self {
            Tab::Home => "🏠 Home",
            Tab::Usb { .. } => "🔌 USB",
            Tab::Network => "🌐 Network",
            Tab::Rcm => "📎 RCM",
            Tab::Log => "📜 Log",
        }
    }
}

} // verus!
