//! Visual effects: short animations drawn over grid cells.

use vstd::prelude::*;

verus! {

/// A terminal colour, carried through unchanged to rendering.
#[verifier::external_type_specification]
#[verifier::external_body]
pub struct ExColor(crossterm::style::Color);

/// A character with optional foreground and background colours.
#[derive(Clone, Copy, Debug)]
pub struct Glyph {
    pub ch: char,
    pub fg: Option<crossterm::style::Color>,
    pub bg: Option<crossterm::style::Color>,
}

impl Glyph {
    pub open spec fn plain_spec(ch: char) -> Glyph {
        Glyph { ch, fg: None, bg: None }
    }

    pub open spec fn with_spec(ch: char, clr: crossterm::style::Color) -> Glyph {
        Glyph { ch, fg: Some(clr), bg: None }
    }

    /// An uncoloured glyph.
    pub fn plain(ch: char) -> (r: Glyph)
        ensures
            r == Glyph::plain_spec(ch),
            r.ch == ch,
            r.fg.is_none(),
            r.bg.is_none(),
    {
        Glyph { ch, fg: None, bg: None }
    }

    /// A glyph drawn in the given colour.
    pub fn with(ch: char, clr: crossterm::style::Color) -> (r: Glyph)
        ensures
            r == Glyph::with_spec(ch, clr),
            r.ch == ch,
            r.fg == Some(clr),
            r.bg.is_none(),
    {
        Glyph { ch, fg: Some(clr), bg: None }
    }
}

impl Glyph {
    /// The same glyph drawn on background colour `clr`.
    pub fn on(self, clr: crossterm::style::Color) -> (r: Glyph)
        ensures
            r == (Glyph { bg: Some(clr), ..self }),
    {
        Glyph { bg: Some(clr), ..self }
    }
}

/// A single frame of animation in a visual effect.
#[derive(Clone, Copy, Debug)]
pub enum Frame {
    /// Change nothing.
    Transparent,
    /// Replace with the given glyph.
    Opaque(Glyph),
    /// Set the colour that the character is on.
    ReplaceFloor(crossterm::style::Color),
}

impl Frame {
    /// The glyph shown when this frame is drawn over `txt`.
    pub open spec fn map_spec(self, txt: Glyph) -> Glyph {
        match self {
            Frame::Transparent => txt,
            Frame::Opaque(ch) => ch,
            Frame::ReplaceFloor(clr) => Glyph { ch: txt.ch, fg: txt.fg, bg: Some(clr) },
        }
    }

    /// Turns the glyph at this position into what the frame shows.
    pub fn map(&self, txt: Glyph) -> (r: Glyph)
        ensures
            r == self.map_spec(txt),
    {
        match self {
            Frame::Transparent => txt,
            Frame::Opaque(ch) => *ch,
            Frame::ReplaceFloor(clr) => Glyph { ch: txt.ch, fg: txt.fg, bg: Some(*clr) },
        }
    }
}

/// A visual effect in the grid: a sequence of frames and the one now shown.
#[derive(Clone, Debug)]
pub struct Vfx {
    pub frames: Vec<Frame>,
    pub cur_idx: usize,
}

impl Vfx {
    /// An effect with the given frames, starting at the first.
    pub fn new(frames: Vec<Frame>) -> (r: Vfx)
        ensures
            r.frames@ == frames@,
            r.cur_idx == 0,
    {
        Vfx { frames, cur_idx: 0 }
    }

    /// An effect of `frames` opaque frames showing `ch`.
    pub fn new_opaque(ch: Glyph, frames: usize) -> (r: Vfx)
        ensures
            r.frames@ == Seq::new(frames as nat, |_i: int| Frame::Opaque(ch)),
            r.cur_idx == 0,
    {
        let mut v: Vec<Frame> = Vec::new();
        let mut i: usize = 0;
        while i < frames
            invariant
                i <= frames,
                v@ == Seq::new(i as nat, |_i: int| Frame::Opaque(ch)),
            decreases frames - i,
        {
            v.push(Frame::Opaque(ch));
            i = i + 1;
            assert(v@ =~= Seq::new(i as nat, |_i: int| Frame::Opaque(ch)));
        }
        Vfx { frames: v, cur_idx: 0 }
    }

    /// An effect of `frames` opaque frames showing `ch` in colour `clr`.
    pub fn opaque_with_clr(ch: char, clr: crossterm::style::Color, frames: usize) -> (r: Vfx)
        ensures
            r.frames@ == Seq::new(frames as nat, |_i: int| Frame::Opaque(Glyph { ch, fg: Some(clr), bg: None })),
            r.cur_idx == 0,
    {
        Vfx::new_opaque(Glyph::with(ch, clr), frames)
    }

    /// A copy of this effect.
    pub fn duplicate(&self) -> (r: Vfx)
        ensures
            r.frames@ == self.frames@,
            r.cur_idx == self.cur_idx,
    {
        let mut frames: Vec<Frame> = Vec::new();
        let mut i: usize = 0;
        while i < self.frames.len()
            invariant
                i <= self.frames@.len(),
                frames@ == self.frames@.take(i as int),
            decreases self.frames@.len() - i,
        {
            frames.push(self.frames[i]);
            i = i + 1;
            assert(frames@ =~= self.frames@.take(i as int));
        }
        assert(frames@ =~= self.frames@);
        Vfx { frames, cur_idx: self.cur_idx }
    }

    /// Advances one frame; returns true once every frame has been shown.
    pub fn update(&mut self) -> (done: bool)
        requires
            old(self).cur_idx < old(self).frames@.len(),
        ensures
            final(self).frames@ == old(self).frames@,
            final(self).cur_idx == old(self).cur_idx + 1,
            done == (final(self).cur_idx == final(self).frames@.len()),
    {
        let n = self.frames.len();
        self.cur_idx = self.cur_idx + 1;
        self.cur_idx == n
    }

    /// What the current frame makes of the glyph beneath it.
    pub fn modify_txt(&self, txt: Glyph) -> (r: Glyph)
        requires
            self.cur_idx < self.frames@.len(),
        ensures
            r == self.frames@[self.cur_idx as int].map_spec(txt),
    {
        self.frames[self.cur_idx].map(txt)
    }
}

} // verus!
