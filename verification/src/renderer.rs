//! Renderer kinds, renderer errors, the renderer interface and a
//! renderer that combines a 3D and a 2D one.
use vstd::prelude::*;
use crate::component::composition::Node;
use crate::text::push_str;
use crate::Error;

verus! {

/// Kinds of renderers.
#[derive(Debug, Clone, Copy, PartialEq, Eq, Structural)]
pub enum RendererType {
    /// Skia-based.
    Skia,
    /// WGPU-based.
    Wgpu,
    /// WebGL-based (for the web).
    WebGL,
    /// Chosen for the platform.
    Auto,
}

/// Errors of renderers.
#[derive(Debug, Clone)]
pub enum RendererError {
    /// A Skia API error.
    SkiaError(String),
    /// An OpenGL error.
    GlError(String),
    /// An initialization error.
    InitError(String),
    /// Any other error.
    GeneralError(String),
}

/// The text describing a renderer error.
pub open spec fn renderer_error_text(e: RendererError) -> Seq<char> {
    match e {
        RendererError::SkiaError(m) => "Skia error: "@ + m@,
        RendererError::GlError(m) => "OpenGL error: "@ + m@,
        RendererError::InitError(m) => "Initialization error: "@ + m@,
        RendererError::GeneralError(m) => "Renderer error: "@ + m@,
    }
}

impl RendererError {
    /// The text describing the error.
    pub fn to_message(&self) -> (r: String)
        ensures
            r@ == renderer_error_text(*self),
    {
        let mut s = String::new();
        match self {
            RendererError::SkiaError(m) => {
                push_str(&mut s, "Skia error: ");
                push_str(&mut s, m.as_str());
            },
            RendererError::GlError(m) => {
                push_str(&mut s, "OpenGL error: ");
                push_str(&mut s, m.as_str());
            },
            RendererError::InitError(m) => {
                push_str(&mut s, "Initialization error: ");
                push_str(&mut s, m.as_str());
            },
            RendererError::GeneralError(m) => {
                push_str(&mut s, "Renderer error: ");
                push_str(&mut s, m.as_str());
            },
        }
        s
    }
}

/// Something that draws a tree of nodes.
pub trait Renderer {
    /// Prepares the renderer; by default there is nothing to do.
    fn init(&mut self) -> (r: Result<(), Error>)
        default_ensures
            r is Ok,
    {
        Ok(())
    }

    /// Draws the tree under `root`.
    fn render(&mut self, root: &Node) -> Result<(), Error>;

    /// Presents what was drawn; by default there is nothing to do.
    fn flush(&mut self) -> (r: Result<(), Error>)
        default_ensures
            r is Ok,
    {
        Ok(())
    }

    /// Releases what the renderer holds; by default there is nothing to do.
    fn cleanup(&mut self) -> (r: Result<(), Error>)
        default_ensures
            r is Ok,
    {
        Ok(())
    }

    /// The renderer's name.
    fn name(&self) -> &str;
}

/// A renderer that draws with a 3D renderer and then, on top, with a 2D
/// one.
pub struct CompositeRenderer<R2: Renderer, R3: Renderer> {
    /// Draws the 2D elements.
    pub renderer_2d: R2,
    /// Draws the 3D elements.
    pub renderer_3d: R3,
}

impl<R2: Renderer, R3: Renderer> CompositeRenderer<R2, R3> {
    /// A composite of a 2D and a 3D renderer.
    pub fn new(renderer_2d: R2, renderer_3d: R3) -> (r: Self)
        ensures
            r.renderer_2d == renderer_2d,
            r.renderer_3d == renderer_3d,
    {
        CompositeRenderer { renderer_2d, renderer_3d }
    }
}

impl<R2: Renderer, R3: Renderer> Renderer for CompositeRenderer<R2, R3> {
    /// Draws with the 3D renderer, then, unless it failed, with the 2D one;
    /// the first failure is returned.
    fn render(&mut self, root: &Node) -> (r: Result<(), Error>)
        ensures
            exists|m3: &mut R3, r3: Result<(), Error>|
                {
                    &&& mut_ref_current(m3) == old(self).renderer_3d
                    &&& mut_ref_future(m3) == final(self).renderer_3d
                    &&& #[trigger] call_ensures(R3::render, (m3, root), r3)
                    &&& (r3 is Err ==> r == r3 && final(self).renderer_2d == old(self).renderer_2d)
                    &&& (r3 is Ok ==> exists|m2: &mut R2, r2: Result<(), Error>|
                        {
                            &&& mut_ref_current(m2) == old(self).renderer_2d
                            &&& mut_ref_future(m2) == final(self).renderer_2d
                            &&& #[trigger] call_ensures(R2::render, (m2, root), r2)
                            &&& r == r2
                        })
                },
    {
        let first = self.renderer_3d.render(root);
        match first {
            Err(e) => Err(e),
            Ok(()) => self.renderer_2d.render(root),
        }
    }

    fn name(&self) -> (r: &str)
        ensures
            r@ == "Composite Renderer"@,
    {
        "Composite Renderer"
    }
}

} // verus!
