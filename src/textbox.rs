//! The text compositor.
//!
//! A text box holds a byte buffer and the frame last drawn for it. Drawing
//! walks the buffer with a pen: a newline returns the pen to the left edge one
//! line lower, a tab advances it by four space advances, and any other byte
//! places its glyph's texture at the pen, offset by the glyph's bearing, then
//! advances the pen by the glyph's advance.
//!
//! Positions are exact, in font units: `x` grows rightwards from the left
//! edge and `y` grows upwards from the top edge. With `s` the frame's scale
//! in pixels per font unit and `h` the viewport height, a position `(x, y)`
//! lands on pixel `(x s, h + y s)`. The pen starts one line below the top.
use crate::font::{Font, FontView, Glyph, Ink, CODES, PIXELS_PER_EM};
use vstd::prelude::*;
use vstd::string::StringSliceAdditionalSpecFns;

verus! {

pub const NEWLINE: u8 = 10;

pub const TAB: u8 = 9;

pub const SPACE: u8 = 32;

/// An em scale given as the fraction `num / den`.
#[derive(Clone, Copy, Debug)]
pub struct Ratio {
    pub num: u32,
    pub den: u32,
}

/// One glyph texture drawn as a quad, in font units.
#[derive(Clone, Copy, Debug, PartialEq, Eq)]
pub struct Quad {
    pub code: u8,
    pub tex: Ink,
    pub left: i128,
    pub bottom: i128,
    pub width: i32,
    pub height: i32,
}

/// A placed quad with its corners as integers.
pub ghost struct Placed {
    pub code: u8,
    pub tex: Ink,
    pub left: int,
    pub bottom: int,
    pub width: int,
    pub height: int,
}

impl View for Quad {
    type V = Placed;

    open spec fn view(&self) -> Placed {
        Placed {
            code: self.code,
            tex: self.tex,
            left: self.left as int,
            bottom: self.bottom as int,
            width: self.width as int,
            height: self.height as int,
        }
    }
}

/// What a text box's texture shows: the viewport it was cleared to opaque
/// black at, the scale `scale[0] / scale[1]` in pixels per font unit, and the
/// glyph quads drawn on it in order.
#[derive(Debug, PartialEq, Eq)]
pub struct Frame {
    pub viewport: [i32; 2],
    pub scale: [u64; 2],
    pub quads: Vec<Quad>,
}

pub ghost struct FrameView {
    pub viewport: [i32; 2],
    pub scale: [u64; 2],
    pub quads: Seq<Placed>,
}

impl View for Frame {
    type V = FrameView;

    open spec fn view(&self) -> FrameView {
        FrameView {
            viewport: self.viewport,
            scale: self.scale,
            quads: self.quads@.map_values(|q: Quad| q@),
        }
    }
}

/// Horizontal advance of the glyph of `b`, 0 where there is none.
pub open spec fn advance_of(glyphs: Seq<Option<Glyph>>, b: u8) -> int {
    match glyphs[b as int] {
        Some(g) => g.h_advance as int,
        None => 0,
    }
}

/// The pen after `text`: its `x` and the number of lines it has moved down.
pub open spec fn pen_after(text: Seq<u8>, glyphs: Seq<Option<Glyph>>) -> (int, int)
    decreases text.len(),
{
    if text.len() == 0 {
        (0, 0)
    } else {
        let p = pen_after(text.drop_last(), glyphs);
        let b = text.last();
        if b == NEWLINE {
            (0, p.1 + 1)
        } else if b == TAB {
            (p.0 + 4 * advance_of(glyphs, SPACE), p.1)
        } else {
            (p.0 + advance_of(glyphs, b), p.1)
        }
    }
}

/// The quads drawn for `text`, in order.
pub open spec fn layout(text: Seq<u8>, font: FontView) -> Seq<Placed>
    decreases text.len(),
{
    if text.len() == 0 {
        Seq::empty()
    } else {
        let prev = layout(text.drop_last(), font);
        let b = text.last();
        let p = pen_after(text.drop_last(), font.glyphs);
        if b == NEWLINE || b == TAB {
            prev
        } else {
            match font.glyphs[b as int] {
                Some(g) => match g.tex {
                    Some(ink) => prev.push(
                        Placed {
                            code: b,
                            tex: ink,
                            left: p.0 + g.bearing[0],
                            bottom: -(p.1 + 1) * font.line_height + g.bearing[1],
                            width: g.size[0] as int,
                            height: g.size[1] as int,
                        },
                    ),
                    None => prev,
                },
                None => prev,
            }
        }
    }
}

/// Every byte is a newline, a tab while the font has a space, or a code with a glyph.
pub open spec fn drawable(text: Seq<u8>, font: FontView) -> bool {
    forall|i: int|
        0 <= i < text.len() ==> #[trigger] drawable_at(text, font, i)
}

/// The frame drawn for `text` at em scale `em`.
pub open spec fn render(text: Seq<u8>, viewport: [i32; 2], font: FontView, em: Ratio) -> FrameView {
    FrameView {
        viewport,
        scale: [(em.num * PIXELS_PER_EM) as u64, (em.den * font.units_per_em) as u64],
        quads: layout(text, font),
    }
}

/// The pen never moves left of the edge or up, and moves at most `4 * 65535`
/// units right and one line down per byte.
pub proof fn lemma_pen_bounds(text: Seq<u8>, glyphs: Seq<Option<Glyph>>)
    ensures
        0 <= pen_after(text, glyphs).0 <= 4 * 65535 * text.len(),
        0 <= pen_after(text, glyphs).1 <= text.len(),
    decreases text.len(),
{
    if text.len() > 0 {
        lemma_pen_bounds(text.drop_last(), glyphs);
        let b = text.last();
        let p = pen_after(text.drop_last(), glyphs);
        let n = text.drop_last().len();
        assert(n + 1 == text.len());
        assert(0 <= advance_of(glyphs, b) <= 65535);
        assert(0 <= advance_of(glyphs, SPACE) <= 65535);
        let len = text.len() as int;
        assert(4 * 65535 * (n as int) + 4 * 65535 == 4 * 65535 * len) by (nonlinear_arith)
            requires
                n + 1 == len,
        ;
    }
}

/// A text box: a byte buffer and the frame last drawn for it.
pub struct TextBox {
    text: Vec<u8>,
    size: [i32; 2],
    frame: Frame,
}

pub ghost struct TextBoxView {
    /// The buffer.
    pub text: Seq<u8>,
    /// Pixel extent of the box's texture.
    pub size: [i32; 2],
    /// What the texture shows.
    pub frame: FrameView,
}

impl TextBox {
    /// What the text box holds.
    pub closed spec fn model(&self) -> TextBoxView {
        TextBoxView { text: self.text@, size: self.size, frame: self.frame@ }
    }

    /// An empty text box whose texture is `size` pixels; nothing is drawn yet.
    pub fn new(size: [i32; 2]) -> (r: TextBox)
        ensures
            r.model().text == Seq::<u8>::empty(),
            r.model().size == size,
            r.model().frame.viewport == size,
            r.model().frame.quads == Seq::<Placed>::empty(),
    {
        let frame = Frame { viewport: size, scale: [0, 1], quads: Vec::new() };
        let r = TextBox { text: Vec::with_capacity(1), size, frame };
        proof {
            assert(r.model().frame.quads =~= Seq::<Placed>::empty());
        }
        r
    }

    /// Replaces the buffer with the bytes of `text`; nothing is redrawn.
    pub fn update(&mut self, text: &str)
        ensures
            final(self).model().text == text.spec_bytes(),
            final(self).model().size == old(self).model().size,
            final(self).model().frame == old(self).model().frame,
    {
        self.text = vstd::slice::slice_to_vec(text.as_bytes());
    }

    /// What the texture shows.
    pub fn view(&self) -> (r: &Frame)
        ensures
            r@ == self.model().frame,
    {
        &self.frame
    }

    /// Whether every byte of the buffer can be drawn with `font`.
    pub fn is_drawable(&self, font: &Font) -> (r: bool)
        ensures
            r == drawable(self.model().text, font@),
    {
        let mut i: usize = 0;
        while i < self.text.len()
            invariant
                i <= self.text@.len(),
                forall|j: int| 0 <= j < i ==> drawable_at(self.text@, font@, j),
            decreases self.text@.len() - i,
        {
            let b = self.text[i];
            if b != NEWLINE {
                let code = if b == TAB {
                    SPACE
                } else {
                    b
                };
                if code as usize >= CODES {
                    proof {
                        assert(!drawable_at(self.text@, font@, i as int));
                    }
                    return false;
                }
                if font.get(code).is_none() {
                    proof {
                        assert(!drawable_at(self.text@, font@, i as int));
                    }
                    return false;
                }
            }
            i = i + 1;
        }
        true
    }

    /// Clears the texture to opaque black at `viewport` and draws the buffer
    /// with `font` at em scale `em`.
    pub fn draw(&mut self, viewport: [i32; 2], font: &Font, em: Ratio)
        requires
            drawable(old(self).model().text, font@),
        ensures
            final(self).model().text == old(self).model().text,
            final(self).model().size == old(self).model().size,
            final(self).model().frame == render(old(self).model().text, viewport, font@, em),
    {
        let ghost text = self.text@;
        let ghost fv = font@;
        let lh = font.line_height() as i128;
        let mut quads: Vec<Quad> = Vec::new();
        let mut x: i128 = 0;
        let mut line: i128 = 0;
        let mut i: usize = 0;
        proof {
            assert(text.take(0) =~= Seq::<u8>::empty());
            assert(quads@.map_values(|q: Quad| q@) =~= Seq::<Placed>::empty());
        }
        while i < self.text.len()
            invariant
                text == self.text@,
                fv == font@,
                drawable(text, fv),
                lh == fv.line_height,
                i <= text.len(),
                (x as int, line as int) == pen_after(text.take(i as int), fv.glyphs),
                quads@.map_values(|q: Quad| q@) == layout(text.take(i as int), fv),
            decreases text.len() - i,
        {
            let b = self.text[i];
            let ghost before = text.take(i as int);
            let ghost after = text.take(i as int + 1);
            proof {
                assert(after.drop_last() =~= before);
                assert(after.last() == b);
                lemma_pen_bounds(before, fv.glyphs);
                assert(0 <= x <= 4 * 65535 * i);
                assert(0 <= line <= i);
                assert(i < 0x1_0000_0000_0000_0000);
                assert(x <= 4 * 65535 * 0x1_0000_0000_0000_0000int) by (nonlinear_arith)
                    requires
                        x <= 4 * 65535 * (i as int),
                        i < 0x1_0000_0000_0000_0000int,
                ;
                assert(drawable_at(text, fv, i as int));
            }
            if b == NEWLINE {
                x = 0;
                line = line + 1;
            } else if b == TAB {
                match font.get(SPACE) {
                    Some(g) => {
                        x = x + 4 * (g.h_advance as i128);
                    },
                    None => {},
                }
            } else {
                match font.get(b) {
                    Some(g) => {
                        match g.tex {
                            Some(ink) => {
                                proof {
                                    assert(-0x8000_0000 <= lh < 0x8000_0000);
                                    assert(-(0x1_0000_0000_0000_0000 * 0x8000_0000) <= (line + 1)
                                        * lh <= 0x1_0000_0000_0000_0000 * 0x8000_0000)
                                        by (nonlinear_arith)
                                        requires
                                            0 <= line <= i,
                                            i < 0xffff_ffff_ffff_ffff,
                                            -0x8000_0000 <= lh < 0x8000_0000,
                                    ;
                                }
                                let q = Quad {
                                    code: b,
                                    tex: ink,
                                    left: x + g.bearing[0] as i128,
                                    bottom: g.bearing[1] as i128 - (line + 1) * lh,
                                    width: g.size[0],
                                    height: g.size[1],
                                };
                                let ghost qs = quads@;
                                quads.push(q);
                                proof {
                                    assert(-(line + 1) * lh == -((line + 1) * lh))
                                        by (nonlinear_arith);
                                    assert(quads@.map_values(|q: Quad| q@) =~= qs.map_values(
                                        |q: Quad| q@,
                                    ).push(q@));
                                }
                            },
                            None => {},
                        }
                        x = x + g.h_advance as i128;
                    },
                    None => {},
                }
            }
            i = i + 1;
        }
        proof {
            assert(text.take(i as int) =~= text);
        }
        let upm = font.units_per_em() as u64;
        assert(em.den as u64 * upm <= 0xffff_ffff * 0xffff) by (nonlinear_arith)
            requires
                em.den <= 0xffff_ffff,
                upm <= 0xffff,
        ;
        let scale = [em.num as u64 * PIXELS_PER_EM as u64, em.den as u64 * upm];
        self.frame = Frame { viewport, scale, quads };
    }
}

/// Byte `i` of `text` can be drawn with `font`.
pub open spec fn drawable_at(text: Seq<u8>, font: FontView, i: int) -> bool {
    text[i] == NEWLINE || (text[i] == TAB && font.glyphs[SPACE as int] is Some) || (text[i] != TAB
        && (text[i] as int) < CODES && font.glyphs[text[i] as int] is Some)
}

/// An empty buffer draws no quad: the frame is only cleared.
pub proof fn lemma_empty_text_draws_nothing(viewport: [i32; 2], font: FontView, em: Ratio)
    ensures
        render(Seq::empty(), viewport, font, em).quads == Seq::<Placed>::empty(),
{
}

/// After a glyph, a newline and a tab, the pen stands four space advances
/// from the left edge, one line below the first.
pub proof fn lemma_tab_after_newline(c: u8, glyphs: Seq<Option<Glyph>>)
    requires
        c != NEWLINE,
        c != TAB,
    ensures
        pen_after(seq![c, NEWLINE, TAB], glyphs) == (4 * advance_of(glyphs, SPACE), 1int),
{
    reveal_with_fuel(pen_after, 4);
    let t = seq![c, NEWLINE, TAB];
    assert(t.drop_last() =~= seq![c, NEWLINE]);
    assert(t.drop_last().drop_last() =~= seq![c]);
    assert(seq![c].drop_last() =~= Seq::<u8>::empty());
}

} // verus!
