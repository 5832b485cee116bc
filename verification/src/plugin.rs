//! What the WinMerge unpacker plugin reports about itself, and how it answers
//! WinMerge's requests.

use vstd::prelude::*;
use crate::com::Status;

verus! {

/// The plugin event WinMerge registers the plugin for.
pub fn plugin_event() -> (s: &'static str)
    ensures
        s@ == "FILE_PACK_UNPACK"@,
{
    "FILE_PACK_UNPACK"
}

/// The description shown in WinMerge's plugin list.
pub fn plugin_description() -> (s: &'static str)
    ensures
        s@ == "Intel HEX expander (x64, unpack only)"@,
{
    "Intel HEX expander (x64, unpack only)"
}

/// The file name patterns (regular expressions, separated by `;`) that the
/// plugin is offered for: `.hex` and `.ihx`.
pub fn plugin_file_filters() -> (s: &'static str)
    ensures
        s@ == "\\.hex$;\\.ihx$"@,
{
    "\\.hex$;\\.ihx$"
}

/// Whether WinMerge may run the plugin on its own for matching files.
pub fn plugin_is_automatic() -> (b: bool)
    ensures
        b,
{
    true
}

/// Extra properties: the caption of the plugin's menu entry.
pub fn plugin_extended_properties() -> (s: &'static str)
    ensures
        s@ == "MenuCaption=Expand Intel HEX"@,
{
    "MenuCaption=Expand Intel HEX"
}

/// The flags a file request is answered with.
#[derive(Debug, Clone, Copy, PartialEq, Eq, Structural)]
pub struct FileReply {
    /// Whether the file was changed.
    pub changed: bool,
    /// Whether the request succeeded.
    pub success: bool,
    /// The sub-code reported to WinMerge.
    pub subcode: i32,
}

/// The answer to an unpack request, given whether the file was expanded:
/// a successful expansion counts as a change, a failed one as neither.
pub fn unpack_reply(expanded: bool) -> (r: FileReply)
    ensures
        r.changed == expanded,
        r.success == expanded,
        r.subcode == 0,
{
    FileReply { changed: expanded, success: expanded, subcode: 0 }
}

/// The answer to a pack request: packing is not supported, so nothing
/// changes and the request fails (the call itself still reports success).
pub fn pack_reply() -> (r: (FileReply, Status))
    ensures
        !r.0.changed,
        !r.0.success,
        r.1 == Status::Success,
{
    (FileReply { changed: false, success: false, subcode: 0 }, Status::Success)
}

/// The answer to a request for the settings dialog: there is none, so the
/// request is not handled and fails.
pub fn settings_dialog_reply() -> (r: (bool, Status))
    ensures
        !r.0,
        r.1 == Status::Fail,
{
    (false, Status::Fail)
}

} // verus!
