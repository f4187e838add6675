//! Frames from a line-oriented atlas sidecar: three header lines, then blocks
//! of a name line followed by `key: value` lines.
use vstd::prelude::*;

use crate::plist_frames::{number, number_of};
use crate::text::{
    char_views, chars_of, lines_of, pieces, same_chars, slice_chars, split_lines, split_on,
    string_of, trim, trimmed,
};
use crate::{frame_views, Frame, FrameView};

verus! {

/// The reader's state between lines: the current name context and the frames
/// produced so far.
pub struct AtlasState {
    pub name: Seq<char>,
    pub frames: Seq<FrameView>,
}

/// The position of the first `:` in `s`.
pub open spec fn colon_pos(s: Seq<char>) -> Option<nat>
    decreases s.len(),
{
    if s.len() == 0 {
        None
    } else if s[0] == ':' {
        Some(0)
    } else {
        match colon_pos(s.drop_first()) {
            Some(k) => Some(k + 1),
            None => None,
        }
    }
}

/// The numbers among comma-separated tokens; a token that is no number is dropped.
pub open spec fn numbers_of(ts: Seq<Seq<char>>) -> Seq<u32>
    decreases ts.len(),
{
    if ts.len() == 0 {
        Seq::empty()
    } else {
        let r = numbers_of(ts.drop_last());
        match number_of(ts.last()) {
            Some(n) => r.push(n),
            None => r,
        }
    }
}

/// The first two numbers of a `a, b` value; none when fewer than two numbers
/// can be read from it (such a line then leaves the frame unchanged).
pub open spec fn pair_of(value: Seq<char>) -> Option<(u32, u32)> {
    let ns = numbers_of(pieces(value, ','));
    if ns.len() >= 2 {
        Some((ns[0], ns[1]))
    } else {
        None
    }
}

/// `frames` with its last frame replaced by `f`.
pub open spec fn with_last(frames: Seq<FrameView>, f: FrameView) -> Seq<FrameView> {
    frames.update(frames.len() - 1, f)
}

/// The effect of one line on the reader's state.
pub open spec fn atlas_step(st: AtlasState, line: Seq<char>) -> AtlasState {
    if line.len() == 0 {
        st
    } else {
        match colon_pos(line) {
            None => AtlasState { name: line, frames: st.frames },
            Some(k) => {
                let key = trimmed(line.subrange(0, k as int));
                let value = trimmed(line.subrange(k as int + 1, line.len() as int));
                if key == "rotate"@ {
                    AtlasState {
                        name: st.name,
                        frames: st.frames.push(
                            FrameView {
                                name: st.name,
                                rect: (0, 0, 0, 0),
                                offset: (0, 0),
                                rotated: value == "true"@,
                            },
                        ),
                    }
                } else if st.frames.len() == 0 {
                    st
                } else {
                    let last = st.frames.last();
                    match pair_of(value) {
                        None => st,
                        Some((a, b)) => if key == "xy"@ {
                            AtlasState {
                                name: st.name,
                                frames: with_last(
                                    st.frames,
                                    FrameView { rect: (a, b, last.rect.2, last.rect.3), ..last },
                                ),
                            }
                        } else if key == "size"@ {
                            AtlasState {
                                name: st.name,
                                frames: with_last(
                                    st.frames,
                                    FrameView { rect: (last.rect.0, last.rect.1, a, b), ..last },
                                ),
                            }
                        } else if key == "offset"@ {
                            AtlasState {
                                name: st.name,
                                frames: with_last(st.frames, FrameView { offset: (a, b), ..last }),
                            }
                        } else {
                            st
                        },
                    }
                }
            },
        }
    }
}

/// The state after reading `lines` from `st`.
pub open spec fn atlas_run(st: AtlasState, lines: Seq<Seq<char>>) -> AtlasState
    decreases lines.len(),
{
    if lines.len() == 0 {
        st
    } else {
        atlas_step(atlas_run(st, lines.drop_last()), lines.last())
    }
}

/// No name context yet and no frames.
pub open spec fn atlas_start() -> AtlasState {
    AtlasState { name: Seq::empty(), frames: Seq::empty() }
}

/// The lines after the three header lines.
pub open spec fn body_lines(s: Seq<char>) -> Seq<Seq<char>> {
    let ls = lines_of(s);
    if ls.len() <= 3 {
        Seq::empty()
    } else {
        ls.subrange(3, ls.len() as int)
    }
}

/// The frames that an atlas text describes, in the order of their `rotate` lines.
pub open spec fn atlas_frames(s: Seq<char>) -> Seq<FrameView> {
    atlas_run(atlas_start(), body_lines(s)).frames
}

fn colon_index(s: &Vec<char>) -> (r: Option<usize>)
    ensures
        r matches Some(k) ==> k < s.len() && colon_pos(s@) == Some(k as nat),
        r is None ==> colon_pos(s@) is None,
{
    let n = s.len();
    let mut i: usize = 0;
    assert(s@.subrange(0, n as int) =~= s@);
    while i < n
        invariant
            i <= n == s.len(),
            colon_pos(s@) == match colon_pos(s@.subrange(i as int, n as int)) {
                Some(k) => Some((k + i) as nat),
                None => None,
            },
        decreases n - i,
    {
        assert(s@.subrange(i as int, n as int).drop_first() =~= s@.subrange(i + 1, n as int));
        if s[i] == ':' {
            return Some(i);
        }
        i = i + 1;
    }
    None
}

fn numbers(ts: &Vec<Vec<char>>) -> (r: Vec<u32>)
    ensures
        r@ == numbers_of(char_views(ts@)),
{
    let mut r: Vec<u32> = Vec::new();
    let mut i: usize = 0;
    assert(char_views(ts@).subrange(0, 0) =~= Seq::<Seq<char>>::empty());
    while i < ts.len()
        invariant
            i <= ts.len(),
            r@ == numbers_of(char_views(ts@).subrange(0, i as int)),
        decreases ts.len() - i,
    {
        assert(char_views(ts@).subrange(0, i + 1).drop_last() =~= char_views(ts@).subrange(
            0,
            i as int,
        ));
        match number(&ts[i]) {
            Some(v) => r.push(v),
            None => {},
        }
        i = i + 1;
    }
    assert(char_views(ts@).subrange(0, ts.len() as int) =~= char_views(ts@));
    r
}

fn pair(value: &Vec<char>) -> (r: Option<(u32, u32)>)
    ensures
        r == pair_of(value@),
{
    let ns = numbers(&split_on(value, ','));
    if ns.len() >= 2 {
        Some((ns[0], ns[1]))
    } else {
        None
    }
}

} // verus!

verus! {

/// Reads an atlas text line by line.
struct AtlasReader {
    name: Vec<char>,
    frames: Vec<Frame>,
}

impl AtlasReader {
    spec fn state(&self) -> AtlasState {
        AtlasState { name: self.name@, frames: frame_views(self.frames@) }
    }

    fn replace_last(&mut self, f: Frame)
        requires
            old(self).frames.len() > 0,
        ensures
            final(self).state() == (AtlasState {
                name: old(self).name@,
                frames: with_last(frame_views(old(self).frames@), f@),
            }),
    {
        let ghost fv = frame_views(self.frames@);
        self.frames.pop();
        self.frames.push(f);
        assert(frame_views(self.frames@) =~= with_last(fv, f@));
    }

    fn feed(&mut self, line: &Vec<char>)
        ensures
            final(self).state() == atlas_step(old(self).state(), line@),
    {
        if line.len() == 0 {
            return;
        }
        match colon_index(line) {
            None => {
                self.name = slice_chars(line, 0, line.len());
                assert(self.name@ =~= line@);
            },
            Some(k) => {
                let key = trim(&slice_chars(line, 0, k));
                let value = trim(&slice_chars(line, k + 1, line.len()));
                if same_chars(&key, &chars_of("rotate")) {
                    let f = Frame {
                        name: string_of(&self.name),
                        rect: (0, 0, 0, 0),
                        offset: (0, 0),
                        rotated: same_chars(&value, &chars_of("true")),
                    };
                    let ghost fv = frame_views(self.frames@);
                    self.frames.push(f);
                    assert(frame_views(self.frames@) =~= fv.push(f@));
                    return;
                }
                if self.frames.len() == 0 {
                    return;
                }
                let (a, b) = match pair(&value) {
                    Some(p) => p,
                    None => return,
                };
                let last = self.frames.len() - 1;
                let ghost lv = self.frames@[last as int]@;
                assert(lv == frame_views(self.frames@).last());
                let rect = self.frames[last].rect;
                let rotated = self.frames[last].rotated;
                if same_chars(&key, &chars_of("xy")) {
                    let name = self.frames[last].name.clone();
                    let f = Frame {
                        name,
                        rect: (a, b, rect.2, rect.3),
                        offset: self.frames[last].offset,
                        rotated,
                    };
                    self.replace_last(f);
                } else if same_chars(&key, &chars_of("size")) {
                    let name = self.frames[last].name.clone();
                    let f = Frame {
                        name,
                        rect: (rect.0, rect.1, a, b),
                        offset: self.frames[last].offset,
                        rotated,
                    };
                    self.replace_last(f);
                } else if same_chars(&key, &chars_of("offset")) {
                    let name = self.frames[last].name.clone();
                    let f = Frame { name, rect, offset: (a, b), rotated };
                    self.replace_last(f);
                }
            },
        }
    }
}

/// The frames of an atlas text, in the order of their `rotate` lines.
pub fn parse(contents: &str) -> (r: Vec<Frame>)
    ensures
        frame_views(r@) == atlas_frames(contents@),
{
    let chars = chars_of(contents);
    let lines = split_lines(&chars);
    let ghost ls = char_views(lines@);
    let mut rd = AtlasReader { name: Vec::new(), frames: Vec::new() };
    if lines.len() <= 3 {
        assert(frame_views(rd.frames@) =~= Seq::<FrameView>::empty());
        return rd.frames;
    }
    let mut i: usize = 3;
    assert(rd.state() =~= atlas_start()) by {
        assert(frame_views(rd.frames@) =~= Seq::<FrameView>::empty());
        assert(rd.name@ =~= Seq::<char>::empty());
    }
    assert(ls.subrange(3, 3) =~= Seq::<Seq<char>>::empty());
    while i < lines.len()
        invariant
            3 <= i <= lines.len(),
            ls == char_views(lines@),
            ls == lines_of(contents@),
            rd.state() == atlas_run(atlas_start(), ls.subrange(3, i as int)),
        decreases lines.len() - i,
    {
        assert(ls.subrange(3, i + 1).drop_last() =~= ls.subrange(3, i as int));
        rd.feed(&lines[i]);
        i = i + 1;
    }
    assert(ls.subrange(3, lines.len() as int) =~= body_lines(contents@));
    rd.frames
}

} // verus!

verus! {

/// A `key: value` line whose key is none of `rotate`, `xy`, `size` and
/// `offset` changes nothing.
pub proof fn lemma_unknown_key_ignored(st: AtlasState, line: Seq<char>, k: nat)
    requires
        colon_pos(line) == Some(k),
        trimmed(line.subrange(0, k as int)) != "rotate"@,
        trimmed(line.subrange(0, k as int)) != "xy"@,
        trimmed(line.subrange(0, k as int)) != "size"@,
        trimmed(line.subrange(0, k as int)) != "offset"@,
    ensures
        atlas_step(st, line) == st,
{
}

/// A `rotate` line opens a new frame after all earlier ones, under the
/// current name context.
pub proof fn lemma_rotate_line_appends(st: AtlasState, line: Seq<char>, k: nat)
    requires
        colon_pos(line) == Some(k),
        trimmed(line.subrange(0, k as int)) == "rotate"@,
    ensures
        atlas_step(st, line).frames == st.frames.push(
            FrameView {
                name: st.name,
                rect: (0, 0, 0, 0),
                offset: (0, 0),
                rotated: trimmed(line.subrange(k as int + 1, line.len() as int)) == "true"@,
            },
        ),
{
}

/// One line keeps every frame in its place: all but the last stay as they
/// are, and the last keeps its name and rotation flag.
pub proof fn lemma_step_keeps_order(st: AtlasState, line: Seq<char>)
    ensures
        atlas_step(st, line).frames.len() >= st.frames.len(),
        forall|j: int|
            0 <= j < st.frames.len() - 1 ==> #[trigger] atlas_step(st, line).frames[j]
                == st.frames[j],
        forall|j: int|
            0 <= j < st.frames.len() ==> (#[trigger] atlas_step(st, line).frames[j]).name
                == st.frames[j].name && atlas_step(st, line).frames[j].rotated
                == st.frames[j].rotated,
{
}

/// Frames already produced keep their order whatever lines follow: reading
/// on only appends frames after them, and changes no name or rotation flag of
/// theirs nor anything of those before the last.
pub proof fn lemma_frames_keep_order(st: AtlasState, lines: Seq<Seq<char>>)
    ensures
        atlas_run(st, lines).frames.len() >= st.frames.len(),
        forall|j: int|
            0 <= j < st.frames.len() - 1 ==> #[trigger] atlas_run(st, lines).frames[j]
                == st.frames[j],
        forall|j: int|
            0 <= j < st.frames.len() ==> (#[trigger] atlas_run(st, lines).frames[j]).name
                == st.frames[j].name && atlas_run(st, lines).frames[j].rotated
                == st.frames[j].rotated,
    decreases lines.len(),
{
    if lines.len() > 0 {
        let mid = atlas_run(st, lines.drop_last());
        lemma_frames_keep_order(st, lines.drop_last());
        lemma_step_keeps_order(mid, lines.last());
        assert forall|j: int| 0 <= j < st.frames.len() - 1 implies #[trigger] atlas_run(
            st,
            lines,
        ).frames[j] == st.frames[j] by {
            assert(atlas_step(mid, lines.last()).frames[j] == mid.frames[j]);
        }
        assert forall|j: int| 0 <= j < st.frames.len() implies (#[trigger] atlas_run(
            st,
            lines,
        ).frames[j]).name == st.frames[j].name && atlas_run(st, lines).frames[j].rotated
            == st.frames[j].rotated by {
            assert(atlas_step(mid, lines.last()).frames[j].name == mid.frames[j].name);
        }
    }
}

} // verus!
