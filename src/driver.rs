//! Decisions of an extraction run: which sidecar to read, which rectangle to
//! crop for a frame and how to turn it, and where its image goes.
use vstd::prelude::*;

use crate::text::{char_views, chars_of, pieces, split_on, string_of};
use crate::{resolved, Frame};

verus! {

/// The sidecar formats, in the order in which they are looked for.
#[derive(Debug, Clone, Copy, PartialEq, Eq, Structural)]
pub enum SidecarKind {
    PropertyList,
    Atlas,
    /// Neither sidecar exists: the run has no frames.
    Missing,
}

/// Picks the sidecar to read: the property list when it exists, else the
/// atlas text when it exists, else none.
pub fn choose_sidecar(plist_exists: bool, atlas_exists: bool) -> (r: SidecarKind)
    ensures
        plist_exists ==> r == SidecarKind::PropertyList,
        !plist_exists && atlas_exists ==> r == SidecarKind::Atlas,
        !plist_exists && !atlas_exists ==> r == SidecarKind::Missing,
{
    if plist_exists {
        SidecarKind::PropertyList
    } else if atlas_exists {
        SidecarKind::Atlas
    } else {
        SidecarKind::Missing
    }
}

/// A quarter-turn multiple applied to a cropped image.
#[derive(Debug, Clone, Copy, PartialEq, Eq, Structural)]
pub enum Angle {
    Deg90,
    Deg180,
    Deg270,
}

pub open spec fn angle_of(degrees: u32) -> Option<Angle> {
    if degrees == 90 {
        Some(Angle::Deg90)
    } else if degrees == 180 {
        Some(Angle::Deg180)
    } else if degrees == 270 {
        Some(Angle::Deg270)
    } else {
        None
    }
}

impl Angle {
    /// The angle of 90, 180 or 270 degrees; none for any other value.
    pub fn from_degrees(degrees: u32) -> (r: Option<Angle>)
        ensures
            r == angle_of(degrees),
    {
        if degrees == 90 {
            Some(Angle::Deg90)
        } else if degrees == 180 {
            Some(Angle::Deg180)
        } else if degrees == 270 {
            Some(Angle::Deg270)
        } else {
            None
        }
    }
}

/// What to do with one frame: the sheet rectangle to crop and the turn to
/// apply to the cropped image, if any.
#[derive(Debug, Clone, Copy, PartialEq, Eq, Structural)]
pub struct CropPlan {
    pub x: u32,
    pub y: u32,
    pub width: u32,
    pub height: u32,
    pub turn: Option<Angle>,
}

impl CropPlan {
    /// Whether the crop rectangle lies within a sheet of the given size.
    pub fn fits(&self, sheet_width: u32, sheet_height: u32) -> (r: bool)
        ensures
            r == (self.x + self.width <= sheet_width && self.y + self.height <= sheet_height),
    {
        self.x as u64 + self.width as u64 <= sheet_width as u64 && self.y as u64
            + self.height as u64 <= sheet_height as u64
    }
}

/// Resolves a frame into its crop: the rectangle of the frame with its
/// rotation resolved, turned by `angle` only when the frame was stored
/// rotated and the caller asked for correction.
pub fn crop_plan(frame: Frame, correct_rotation: bool, angle: Angle) -> (r: CropPlan)
    ensures
        (r.x, r.y, r.width, r.height) == resolved(frame@).rect,
        r.turn == if frame.rotated && correct_rotation {
            Some(angle)
        } else {
            None::<Angle>
        },
{
    let was_rotated = frame.rotated;
    let f = frame.into_rotated_rect();
    CropPlan {
        x: f.rect.0,
        y: f.rect.1,
        width: f.rect.2,
        height: f.rect.3,
        turn: if was_rotated && correct_rotation {
            Some(angle)
        } else {
            None
        },
    }
}

/// Whether `s` ends in `.png`.
pub open spec fn has_png_suffix(s: Seq<char>) -> bool {
    s.len() >= 4 && s.subrange(s.len() - 4, s.len() as int) == ".png"@
}

/// The path segments of a frame's output file: its name split at `/`, with
/// `.png` appended to the last segment unless it already ends so.
pub open spec fn output_segments_of(name: Seq<char>) -> Seq<Seq<char>> {
    let p = pieces(name, '/');
    let last = p.last();
    p.update(p.len() - 1, if has_png_suffix(last) { last } else { last + ".png"@ })
}

/// The views of a sequence of strings.
pub open spec fn string_views(v: Seq<String>) -> Seq<Seq<char>> {
    v.map_values(|s: String| s@)
}

/// The path segments, under the output directory, of the file for a frame named `name`.
pub fn output_segments(name: &str) -> (r: Vec<String>)
    ensures
        string_views(r@) == output_segments_of(name@),
{
    let mut parts = split_on(&chars_of(name), '/');
    proof {
        crate::text::lemma_pieces_nonempty(name@, '/');
    }
    let ghost pv = char_views(parts@);
    let mut last = parts.pop().unwrap();
    let suffix = chars_of(".png");
    proof {
        reveal_strlit(".png");
    }
    let n = last.len();
    let mut has_suffix = n >= 4;
    let mut j: usize = 0;
    while has_suffix && j < 4
        invariant_except_break
            0 <= j <= 4,
            suffix@ == ".png"@,
            n == last.len(),
            has_suffix ==> n >= 4 && forall|m: int|
                0 <= m < j ==> last@[n - 4 + m] == #[trigger] suffix@[m],
            !has_suffix ==> !has_png_suffix(last@),
            suffix@.len() == 4,
        ensures
            !has_suffix ==> !has_png_suffix(last@),
            has_suffix ==> n >= 4 && forall|m: int|
                0 <= m < 4 ==> last@[n - 4 + m] == #[trigger] suffix@[m],
            suffix@ == ".png"@,
            n == last.len(),
            suffix@.len() == 4,
        decreases 4 - j,
    {
        if last[n - 4 + j] != suffix[j] {
            has_suffix = false;
            assert(last@.subrange(n - 4, n as int)[j as int] != suffix@[j as int]);
            break;
        } else {
            j = j + 1;
        }
    }
    let ghost lv = last@;
    if has_suffix {
        assert(last@.subrange(n - 4, n as int) =~= ".png"@);
    } else {
        let mut k: usize = 0;
        while k < 4
            invariant
                k <= 4,
                suffix@ == ".png"@,
                suffix@.len() == 4,
                last@ == lv + suffix@.subrange(0, k as int),
            decreases 4 - k,
        {
            last.push(suffix[k]);
            k = k + 1;
            assert(last@ =~= lv + suffix@.subrange(0, k as int));
        }
        assert(suffix@.subrange(0, 4) =~= suffix@);
    }
    parts.push(last);
    let mut r: Vec<String> = Vec::new();
    let mut i: usize = 0;
    let ghost want = output_segments_of(name@);
    assert(char_views(parts@) =~= want);
    while i < parts.len()
        invariant
            i <= parts.len(),
            char_views(parts@) == want,
            string_views(r@) =~= want.subrange(0, i as int),
        decreases parts.len() - i,
    {
        let s = string_of(&parts[i]);
        let ghost rv = string_views(r@);
        let ghost sv = s@;
        assert(sv == want[i as int]);
        r.push(s);
        assert(string_views(r@) =~= rv.push(sv));
        i = i + 1;
        assert(string_views(r@) =~= want.subrange(0, i as int));
    }
    r
}

} // verus!
