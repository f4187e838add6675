//! Frames from a property-list sidecar: a root dictionary whose `frames`
//! dictionary maps each frame name to its geometry.
use vstd::prelude::*;

use crate::text::{
    chars_of, parse_u32, pieces, split_on, strip_braces, trim, trimmed, u32_of, without_braces,
};
use crate::{frame_views, Frame, FrameView};

verus! {

/// Why a sidecar could not be read.
#[derive(Debug, Clone, Copy, PartialEq, Eq, Structural)]
pub enum SidecarError {
    /// The bytes are not a property list.
    Malformed,
    /// A rectangle text does not hold exactly four comma-separated numbers.
    RectShape,
    /// An offset text does not hold exactly two comma-separated numbers.
    OffsetShape,
    /// A coordinate is not an unsigned decimal number that fits in 32 bits.
    BadNumber,
}

/// A property-list document, reduced to the values that frame extraction reads.
#[derive(Debug)]
pub enum PlistNode {
    /// Entries in document order.
    Dictionary(Vec<(String, PlistNode)>),
    String(String),
    Boolean(bool),
    /// Any other kind of value (array, number, date, data, ...).
    Other,
}

/// The number that one coordinate token denotes, surrounding whitespace ignored.
pub open spec fn number_of(t: Seq<char>) -> Option<u32> {
    u32_of(trimmed(t))
}

/// The comma-separated tokens of a coordinate text, braces removed.
pub open spec fn coordinate_tokens(s: Seq<char>) -> Seq<Seq<char>> {
    pieces(without_braces(s), ',')
}

/// What a `{{x,y},{w,h}}` text denotes.
pub open spec fn rect_of(s: Seq<char>) -> Result<(u32, u32, u32, u32), SidecarError> {
    let ts = coordinate_tokens(s);
    if ts.len() != 4 {
        Err(SidecarError::RectShape)
    } else if number_of(ts[0]) is None || number_of(ts[1]) is None || number_of(ts[2]) is None
        || number_of(ts[3]) is None {
        Err(SidecarError::BadNumber)
    } else {
        Ok((
            number_of(ts[0])->0,
            number_of(ts[1])->0,
            number_of(ts[2])->0,
            number_of(ts[3])->0,
        ))
    }
}

/// What a `{dx,dy}` text denotes.
pub open spec fn offset_of(s: Seq<char>) -> Result<(u32, u32), SidecarError> {
    let ts = coordinate_tokens(s);
    if ts.len() != 2 {
        Err(SidecarError::OffsetShape)
    } else if number_of(ts[0]) is None || number_of(ts[1]) is None {
        Err(SidecarError::BadNumber)
    } else {
        Ok((number_of(ts[0])->0, number_of(ts[1])->0))
    }
}

pub(crate) fn number(t: &Vec<char>) -> (r: Option<u32>)
    ensures
        r == number_of(t@),
{
    parse_u32(&trim(t))
}

fn coordinates(s: &str) -> (r: Vec<Vec<char>>)
    ensures
        crate::text::char_views(r@) == coordinate_tokens(s@),
{
    split_on(&strip_braces(&chars_of(s)), ',')
}

/// Reads a rectangle written `{{x,y},{width,height}}`.
pub fn parse_rect(rect_str: &str) -> (r: Result<(u32, u32, u32, u32), SidecarError>)
    ensures
        r == rect_of(rect_str@),
{
    let ts = coordinates(rect_str);
    if ts.len() != 4 {
        return Err(SidecarError::RectShape);
    }
    let x = number(&ts[0]);
    let y = number(&ts[1]);
    let w = number(&ts[2]);
    let h = number(&ts[3]);
    match (x, y, w, h) {
        (Some(x), Some(y), Some(w), Some(h)) => Ok((x, y, w, h)),
        _ => Err(SidecarError::BadNumber),
    }
}

/// Reads an offset written `{dx,dy}`.
pub fn parse_offset(offset_str: &str) -> (r: Result<(u32, u32), SidecarError>)
    ensures
        r == offset_of(offset_str@),
{
    let ts = coordinates(offset_str);
    if ts.len() != 2 {
        return Err(SidecarError::OffsetShape);
    }
    let x = number(&ts[0]);
    let y = number(&ts[1]);
    match (x, y) {
        (Some(x), Some(y)) => Ok((x, y)),
        _ => Err(SidecarError::BadNumber),
    }
}

} // verus!

verus! {

/// The value of the first entry named `key`.
pub open spec fn lookup(entries: Seq<(String, PlistNode)>, key: Seq<char>) -> Option<PlistNode>
    decreases entries.len(),
{
    if entries.len() == 0 {
        None
    } else if entries[0].0@ == key {
        Some(entries[0].1)
    } else {
        lookup(entries.drop_first(), key)
    }
}

fn find<'a>(entries: &'a Vec<(String, PlistNode)>, key: &str) -> (r: Option<&'a PlistNode>)
    ensures
        r matches Some(n) ==> lookup(entries@, key@) == Some(*n),
        r is None ==> lookup(entries@, key@) is None,
{
    let k = String::from_str(key);
    let n = entries.len();
    let mut i: usize = 0;
    assert(entries@.subrange(0, n as int) =~= entries@);
    while i < n
        invariant
            i <= n == entries.len(),
            k@ == key@,
            lookup(entries@, key@) == lookup(entries@.subrange(i as int, n as int), key@),
        decreases n - i,
    {
        assert(entries@.subrange(i as int, n as int).drop_first() =~= entries@.subrange(
            i + 1,
            n as int,
        ));
        if entries[i].0 == k {
            return Some(&entries[i].1);
        }
        i = i + 1;
    }
    None
}

/// What one entry of the `frames` dictionary gives: nothing when it is not a
/// dictionary or has no `frame` text, else a frame or the error in its texts.
pub open spec fn entry_outcome(name: Seq<char>, info: PlistNode) -> Option<
    Result<FrameView, SidecarError>,
> {
    match info {
        PlistNode::Dictionary(d) => match lookup(d@, "frame"@) {
            Some(PlistNode::String(fs)) => Some(
                match rect_of(fs@) {
                    Err(e) => Err(e),
                    Ok(rect) => {
                        let off = match lookup(d@, "offset"@) {
                            Some(PlistNode::String(os)) => offset_of(os@),
                            _ => Ok((0u32, 0u32)),
                        };
                        let rotated = match lookup(d@, "rotated"@) {
                            Some(PlistNode::Boolean(b)) => b,
                            _ => false,
                        };
                        match off {
                            Err(e) => Err(e),
                            Ok(offset) => Ok(FrameView { name, rect, offset, rotated }),
                        }
                    },
                },
            ),
            _ => None,
        },
        _ => None,
    }
}

/// The frames of a sequence of entries, in order, or the first error.
pub open spec fn entries_frames(es: Seq<(String, PlistNode)>) -> Result<
    Seq<FrameView>,
    SidecarError,
>
    decreases es.len(),
{
    if es.len() == 0 {
        Ok(Seq::empty())
    } else {
        match entries_frames(es.drop_last()) {
            Err(e) => Err(e),
            Ok(fs) => match entry_outcome(es.last().0@, es.last().1) {
                None => Ok(fs),
                Some(Err(e)) => Err(e),
                Some(Ok(f)) => Ok(fs.push(f)),
            },
        }
    }
}

/// The frames that a document describes: those of its `frames` dictionary,
/// and none when the root or `frames` is missing or not a dictionary.
pub open spec fn document_frames(doc: PlistNode) -> Result<Seq<FrameView>, SidecarError> {
    match doc {
        PlistNode::Dictionary(root) => match lookup(root@, "frames"@) {
            Some(PlistNode::Dictionary(fs)) => entries_frames(fs@),
            _ => Ok(Seq::empty()),
        },
        _ => Ok(Seq::empty()),
    }
}

/// Whether an extraction result is what the spec-level result says.
pub open spec fn frames_result_matches(
    r: Result<Vec<Frame>, SidecarError>,
    s: Result<Seq<FrameView>, SidecarError>,
) -> bool {
    match r {
        Ok(v) => s == Ok::<Seq<FrameView>, SidecarError>(frame_views(v@)),
        Err(e) => s == Err::<Seq<FrameView>, SidecarError>(e),
    }
}

fn entry_frame(name: &String, info: &PlistNode) -> (r: Option<Result<Frame, SidecarError>>)
    ensures
        r is None ==> entry_outcome(name@, *info) is None,
        r matches Some(Ok(f)) ==> entry_outcome(name@, *info) == Some(
            Ok::<FrameView, SidecarError>(f@),
        ),
        r matches Some(Err(e)) ==> entry_outcome(name@, *info) == Some(
            Err::<FrameView, SidecarError>(e),
        ),
{
    let d = match info {
        PlistNode::Dictionary(d) => d,
        _ => return None,
    };
    let fs = match find(d, "frame") {
        Some(PlistNode::String(fs)) => fs,
        _ => return None,
    };
    let rect = match parse_rect(fs.as_str()) {
        Ok(rect) => rect,
        Err(e) => return Some(Err(e)),
    };
    let off = match find(d, "offset") {
        Some(PlistNode::String(os)) => parse_offset(os.as_str()),
        _ => Ok((0u32, 0u32)),
    };
    let rotated = match find(d, "rotated") {
        Some(PlistNode::Boolean(b)) => *b,
        _ => false,
    };
    match off {
        Ok(offset) => Some(Ok(Frame { name: name.clone(), rect, offset, rotated })),
        Err(e) => Some(Err(e)),
    }
}

/// The frames that a decoded document describes, in entry order.
pub fn frames_from_document(doc: &PlistNode) -> (r: Result<Vec<Frame>, SidecarError>)
    ensures
        frames_result_matches(r, document_frames(*doc)),
{
    let root = match doc {
        PlistNode::Dictionary(root) => root,
        _ => {
            assert(frame_views(Seq::<Frame>::empty()) =~= Seq::<FrameView>::empty());
            return Ok(Vec::new());
        },
    };
    let entries = match find(root, "frames") {
        Some(PlistNode::Dictionary(entries)) => entries,
        _ => {
            assert(frame_views(Seq::<Frame>::empty()) =~= Seq::<FrameView>::empty());
            return Ok(Vec::new());
        },
    };
    let mut out: Vec<Frame> = Vec::new();
    let n = entries.len();
    let mut i: usize = 0;
    assert(entries@.subrange(0, 0) =~= Seq::<(String, PlistNode)>::empty());
    assert(frame_views(out@) =~= Seq::<FrameView>::empty());
    while i < n
        invariant
            i <= n == entries.len(),
            document_frames(*doc) == entries_frames(entries@),
            entries_frames(entries@.subrange(0, i as int)) == Ok::<Seq<FrameView>, SidecarError>(
                frame_views(out@),
            ),
        decreases n - i,
    {
        let ghost pre = entries@.subrange(0, i as int);
        assert(entries@.subrange(0, i + 1).drop_last() =~= pre);
        let (name, info) = &entries[i];
        match entry_frame(name, info) {
            None => {},
            Some(Err(e)) => {
                proof {
                    assert(entries@.subrange(0, i + 1).last() == entries@[i as int]);
                    assert(entries_frames(entries@.subrange(0, i + 1)) == Err::<
                        Seq<FrameView>,
                        SidecarError,
                    >(e));
                    lemma_error_persists(entries@, i as int + 1, e);
                }
                return Err(e);
            },
            Some(Ok(f)) => {
                let ghost fv = frame_views(out@);
                out.push(f);
                assert(frame_views(out@) =~= fv.push(f@));
            },
        }
        i = i + 1;
    }
    assert(entries@.subrange(0, n as int) =~= entries@);
    Ok(out)
}

/// Once a prefix of the entries has failed, every longer prefix fails the same way.
proof fn lemma_error_persists(es: Seq<(String, PlistNode)>, k: int, e: SidecarError)
    requires
        0 <= k <= es.len(),
        entries_frames(es.subrange(0, k)) == Err::<Seq<FrameView>, SidecarError>(e),
    ensures
        entries_frames(es) == Err::<Seq<FrameView>, SidecarError>(e),
    decreases es.len() - k,
{
    if k < es.len() {
        assert(es.subrange(0, k + 1).drop_last() =~= es.subrange(0, k));
        lemma_error_persists(es, k + 1, e);
    } else {
        assert(es.subrange(0, k) =~= es);
    }
}

} // verus!

verus! {

#[verifier::external_type_specification]
#[verifier::external_body]
pub struct ExPlistValue(plist::Value);

#[verifier::external_type_specification]
#[verifier::external_body]
pub struct ExPlistError(plist::Error);

/// The document that `plist::from_bytes` decodes from the given bytes, if any.
pub uninterp spec fn plist_document(bytes: Seq<u8>) -> Option<PlistNode>;

/// Relies on `plist::from_bytes` (binary or XML property list): whether it
/// succeeds and what it decodes depend on the bytes alone.
#[verifier::external_body]
fn decode_plist(bytes: &[u8]) -> (r: Result<PlistNode, plist::Error>)
    ensures
        r matches Ok(doc) ==> plist_document(bytes@) == Some(doc),
        r is Err ==> plist_document(bytes@) is None,
{
    match plist::from_bytes::<plist::Value>(bytes) {
        Ok(v) => Ok(node_of(&v)),
        Err(e) => Err(e),
    }
}

/// Relies on the variants of `plist::Value` and on `plist::Dictionary::iter`,
/// which walks the entries in the order of the document: the decoded value as
/// a tree of plain values.
#[verifier::external_body]
fn node_of(v: &plist::Value) -> PlistNode {
    match v {
        plist::Value::Dictionary(d) => {
            let mut entries = Vec::new();
            for (k, e) in d.iter() {
                entries.push((k.clone(), node_of(e)));
            }
            PlistNode::Dictionary(entries)
        },
        plist::Value::String(s) => PlistNode::String(s.clone()),
        plist::Value::Boolean(b) => PlistNode::Boolean(*b),
        _ => PlistNode::Other,
    }
}

/// The frames of a property-list sidecar, given its bytes, in entry order.
pub fn parse_plist_frames(bytes: &[u8]) -> (r: Result<Vec<Frame>, SidecarError>)
    ensures
        plist_document(bytes@) is None ==> r == Err::<Vec<Frame>, SidecarError>(
            SidecarError::Malformed,
        ),
        plist_document(bytes@) matches Some(doc) ==> frames_result_matches(
            r,
            document_frames(doc),
        ),
{
    match decode_plist(bytes) {
        Ok(doc) => frames_from_document(&doc),
        Err(_) => Err(SidecarError::Malformed),
    }
}

/// An entry whose dictionary has no `frame` text adds no frame and no error:
/// the frames of the entries are those of the entries before it.
pub proof fn lemma_entry_without_rect_skipped(
    es: Seq<(String, PlistNode)>,
    name: String,
    d: Vec<(String, PlistNode)>,
)
    requires
        !(lookup(d@, "frame"@) matches Some(PlistNode::String(_))),
    ensures
        entries_frames(es.push((name, PlistNode::Dictionary(d)))) == entries_frames(es),
{
    assert(es.push((name, PlistNode::Dictionary(d))).drop_last() =~= es);
}

} // verus!
