//! Orbit UI framework core: styling, .orbit file parsing, templates,
//! component identities and update scheduling.
use vstd::prelude::*;

pub mod component;
pub mod events;
pub mod kit;
pub mod parser;
pub mod platform;
pub mod renderer;
pub mod state;
pub mod parser_legacy;
pub mod style;
pub mod text;
pub mod time;

verus! {

/// Errors that can occur in the framework.
#[derive(Debug, Clone, PartialEq)]
pub enum Error {
    /// Initialization error.
    Init(String),
    /// Rendering error.
    Render(String),
    /// Renderer error.
    Renderer(String),
    /// Component error.
    Component(String),
    /// Parser error.
    Parser(String),
    /// Platform error.
    Platform(String),
}

impl Error {
    /// The message carried by the error.
    pub open spec fn message(self) -> Seq<char> {
        match self {
            Error::Init(m) => m@,
            Error::Render(m) => m@,
            Error::Renderer(m) => m@,
            Error::Component(m) => m@,
            Error::Parser(m) => m@,
            Error::Platform(m) => m@,
        }
    }

    /// The label `Display` puts before the message.
    pub open spec fn label(self) -> Seq<char> {
        match self {
            Error::Init(_) => "Initialization error: "@,
            Error::Render(_) => "Rendering error: "@,
            Error::Renderer(_) => "Renderer error: "@,
            Error::Component(_) => "Component error: "@,
            Error::Parser(_) => "Parser error: "@,
            Error::Platform(_) => "Platform error: "@,
        }
    }

    /// The text of the error (as `Display` writes it): its label, then its
    /// message.
    pub fn to_message(&self) -> (r: String)
        ensures
            r@ == self.label() + self.message(),
    {
        let mut out = String::new();
        match self {
            Error::Init(m) => {
                text::push_str(&mut out, "Initialization error: ");
                text::push_str(&mut out, m.as_str());
            },
            Error::Render(m) => {
                text::push_str(&mut out, "Rendering error: ");
                text::push_str(&mut out, m.as_str());
            },
            Error::Renderer(m) => {
                text::push_str(&mut out, "Renderer error: ");
                text::push_str(&mut out, m.as_str());
            },
            Error::Component(m) => {
                text::push_str(&mut out, "Component error: ");
                text::push_str(&mut out, m.as_str());
            },
            Error::Parser(m) => {
                text::push_str(&mut out, "Parser error: ");
                text::push_str(&mut out, m.as_str());
            },
            Error::Platform(m) => {
                text::push_str(&mut out, "Platform error: ");
                text::push_str(&mut out, m.as_str());
            },
        }
        out
    }
}

/// Initialize the framework with default settings; this always succeeds.
pub fn init() -> (r: Result<(), Error>)
    ensures
        r is Ok,
{
    Ok(())
}

} // verus!
