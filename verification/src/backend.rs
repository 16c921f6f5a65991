//! Terminal rendering backends and their capability descriptors.
//!
//! The rendering backend is a closed set of tagged variants, selected
//! once at startup by platform detection (which happens outside); each
//! variant carries a fixed capability descriptor that the UI uses to
//! enable or disable features.

use vstd::prelude::*;

verus! {

/// The available terminal rendering backends.
#[derive(Clone, Copy, PartialEq, Eq, Structural)]
pub enum BackendType {
    XtermPassthrough,
    VteParser,
}

/// A backend's capabilities, in the frontend's vocabulary.
pub struct BackendCapabilitiesDto {
    pub enhanced_state: bool,
    pub text_reflow: bool,
    pub kitty_graphics: bool,
    pub shell_integration: bool,
    pub backend_name: String,
}

/// The active backend and its capabilities.
pub struct BackendInfo {
    pub backend_type: BackendType,
    pub capabilities: BackendCapabilitiesDto,
}

/// The fixed capability descriptor of each backend: the passthrough
/// backend reports no enhanced capabilities; the parser backend adds
/// enhanced terminal state queries.
pub fn get_backend_info(backend_type: BackendType) -> (r: BackendInfo)
    ensures
        r.backend_type == backend_type,
        r.capabilities.enhanced_state == (backend_type == BackendType::VteParser),
        !r.capabilities.text_reflow,
        !r.capabilities.kitty_graphics,
        !r.capabilities.shell_integration,
        backend_type == BackendType::XtermPassthrough ==> r.capabilities.backend_name@
            == "xterm-passthrough"@,
        backend_type == BackendType::VteParser ==> r.capabilities.backend_name@ == "vte-parser"@,
{
    let capabilities = match backend_type {
        BackendType::XtermPassthrough => BackendCapabilitiesDto {
            enhanced_state: false,
            text_reflow: false,
            kitty_graphics: false,
            shell_integration: false,
            backend_name: String::from_str("xterm-passthrough"),
        },
        BackendType::VteParser => BackendCapabilitiesDto {
            enhanced_state: true,
            text_reflow: false,
            kitty_graphics: false,
            shell_integration: false,
            backend_name: String::from_str("vte-parser"),
        },
    };
    BackendInfo { backend_type, capabilities }
}

} // verus!
