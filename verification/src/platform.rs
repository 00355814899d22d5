//! Platform adapters: what a platform must do (initialize, run its main
//! loop, shut down) and the web adapter.
use vstd::prelude::*;
use crate::Error;

verus! {

/// Something that hosts the application on a platform.
pub trait PlatformAdapter {
    /// Initializes the platform.
    fn init(&mut self) -> Result<(), Error>;

    /// Runs the main application loop.
    fn run(&mut self) -> Result<(), Error>;

    /// Shuts the platform down.
    fn shutdown(&mut self) -> Result<(), Error>;
}

/// The WebAssembly platform adapter; its steps have nothing to do and
/// always succeed.
#[derive(Debug, Default)]
pub struct WebAdapter {}

impl WebAdapter {
    /// A web adapter.
    pub fn new() -> (r: Self) {
        WebAdapter {}
    }
}

impl PlatformAdapter for WebAdapter {
    fn init(&mut self) -> (r: Result<(), Error>)
        ensures
            r is Ok,
    {
        Ok(())
    }

    fn run(&mut self) -> (r: Result<(), Error>)
        ensures
            r is Ok,
    {
        Ok(())
    }

    fn shutdown(&mut self) -> (r: Result<(), Error>)
        ensures
            r is Ok,
    {
        Ok(())
    }
}

/// Kinds of platforms.
#[derive(Debug, Clone, Copy, PartialEq, Eq, Structural)]
pub enum PlatformType {
    /// The web (WebAssembly).
    Web,
    /// Desktop (Windows, macOS, Linux).
    Desktop,
    /// Detected automatically.
    Auto,
}

/// The adapter for a platform: the web adapter for the web; the desktop
/// adapter lives with the windowing code outside this library, so the
/// other kinds are reported as unsupported here.
pub fn create_adapter(platform_type: PlatformType) -> (r: Result<Box<dyn PlatformAdapter>, Error>)
    ensures
        platform_type == PlatformType::Web ==> r is Ok,
        platform_type != PlatformType::Web ==> (r matches Err(Error::Platform(m)) && m@
            == "Desktop platform not supported in this build"@),
{
    match platform_type {
        PlatformType::Web => {
            let adapter: Box<dyn PlatformAdapter> = Box::new(WebAdapter::new());
            Ok(adapter)
        },
        _ => Err(Error::Platform("Desktop platform not supported in this build".to_owned())),
    }
}

} // verus!
