//! Extraction of sprite frames from a packed sheet: sidecar parsing and
//! geometry resolution.
use vstd::prelude::*;

pub mod atlas_parser;
pub mod driver;
pub mod plist_frames;
pub mod text;

pub use plist_frames::parse_plist_frames;

verus! {

/// One named sub-region of a sprite sheet, as stored in the sidecar.
#[derive(Debug)]
pub struct Frame {
    pub name: String,
    pub rect: (u32, u32, u32, u32),
    pub offset: (u32, u32),
    pub rotated: bool,
}

/// The mathematical content of a `Frame`.
pub struct FrameView {
    pub name: Seq<char>,
    pub rect: (u32, u32, u32, u32),
    pub offset: (u32, u32),
    pub rotated: bool,
}

impl View for Frame {
    type V = FrameView;

    open spec fn view(&self) -> FrameView {
        FrameView { name: self.name@, rect: self.rect, offset: self.offset, rotated: self.rotated }
    }
}

/// The views of a sequence of frames.
pub open spec fn frame_views(fs: Seq<Frame>) -> Seq<FrameView> {
    fs.map_values(|f: Frame| f@)
}

/// A frame whose stored rotation has been resolved: width and height are
/// swapped when the region was packed rotated, and the flag is cleared.
pub open spec fn resolved(f: FrameView) -> FrameView {
    if f.rotated {
        FrameView {
            rect: (f.rect.0, f.rect.1, f.rect.3, f.rect.2),
            rotated: false,
            ..f
        }
    } else {
        f
    }
}

impl Frame {
    /// Resolves the packer's rotation flag into the rectangle.
    pub fn into_rotated_rect(self) -> (r: Frame)
        ensures
            r@ == resolved(self@),
            !self.rotated ==> r@ == self@,
            self.rotated ==> r.rect == (self.rect.0, self.rect.1, self.rect.3, self.rect.2)
                && !r.rotated && r.name@ == self.name@ && r.offset == self.offset,
    {
        if self.rotated {
            Frame {
                rect: (self.rect.0, self.rect.1, self.rect.3, self.rect.2),
                rotated: false,
                ..self
            }
        } else {
            self
        }
    }
}

/// Resolving a frame twice gives the same frame as resolving it once.
pub proof fn lemma_resolve_idempotent(f: FrameView)
    ensures
        resolved(resolved(f)) == resolved(f),
        !resolved(f).rotated,
{
}

} // verus!
