//! Errors that the renderer reports, each carrying the renderer's message.
use vstd::prelude::*;

verus! {

/// A failure of the underlying renderer.
#[derive(Debug, PartialEq, Eq)]
pub enum RenderError {
    /// Uploading pixels to a texture failed.
    UpdateTexture(String),
    /// Creating a texture was rejected.
    TextureValue(String),
    /// Any other failure of the renderer.
    GenericSDL(String),
}

impl RenderError {
    /// The text of the renderer's message.
    pub open spec fn text(&self) -> Seq<char> {
        match self {
            RenderError::UpdateTexture(message) => message@,
            RenderError::TextureValue(message) => message@,
            RenderError::GenericSDL(message) => message@,
        }
    }

    /// The renderer's message.
    pub fn message(&self) -> (r: String)
        ensures
            r@ == self.text(),
    {
        match self {
            RenderError::UpdateTexture(message) => message.clone(),
            RenderError::TextureValue(message) => message.clone(),
            RenderError::GenericSDL(message) => message.clone(),
        }
    }
}

} // verus!
