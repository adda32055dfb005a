//! The glyph cache: one entry per ASCII code, built once from a font file.
//!
//! Parsing, character mapping, bounding boxes and metrics come from
//! `ttf_parser`. Each code maps to no glyph (the face has no mapping for it)
//! or to a glyph whose texture is present exactly when the face has an
//! outline for it; the texture covers the outline's bounding box in font
//! design units.
use ttf_parser::{Face, FaceParsingError, GlyphId};
use vstd::prelude::*;

verus! {

/// Target size of one em, in pixels.
pub const PIXELS_PER_EM: u32 = 16;

/// Number of character codes a font caches.
pub const CODES: usize = 128;

#[verifier::external_type_specification]
#[verifier::external_body]
pub struct ExFace<'a>(Face<'a>);

#[verifier::external_type_specification]
#[verifier::external_body]
pub struct ExFaceParsingError(FaceParsingError);

/// Whether face 0 of the font file `data` parses.
pub uninterp spec fn face_parses(data: Seq<u8>) -> bool;

/// Units per em of face 0 of `data`.
pub uninterp spec fn face_units_per_em(data: Seq<u8>) -> u16;

/// Ascender of face 0 of `data`, in font units.
pub uninterp spec fn face_ascender(data: Seq<u8>) -> i16;

/// Descender of face 0 of `data`, in font units.
pub uninterp spec fn face_descender(data: Seq<u8>) -> i16;

/// Glyph index that the character map of face 0 of `data` gives `code`.
pub uninterp spec fn cmap_index(data: Seq<u8>, code: u8) -> Option<u16>;

/// Bounding box `(x_min, y_min, x_max, y_max)` of glyph `id`'s outline, if it has one.
pub uninterp spec fn outline_bbox(data: Seq<u8>, id: u16) -> Option<(i16, i16, i16, i16)>;

/// Horizontal advance of glyph `id`.
pub uninterp spec fn hor_advance(data: Seq<u8>, id: u16) -> Option<u16>;

/// Horizontal side bearing of glyph `id`.
pub uninterp spec fn hor_side_bearing(data: Seq<u8>, id: u16) -> Option<i16>;

/// Vertical side bearing of glyph `id`.
pub uninterp spec fn ver_side_bearing(data: Seq<u8>, id: u16) -> Option<i16>;

/// A parsed face together with the bytes it was parsed from.
struct Parsed<'a> {
    data: &'a [u8],
    face: Face<'a>,
}

/// Relies on `ttf_parser::Face::from_slice`: parses face 0; data shorter than
/// the four-byte magic is rejected.
#[verifier::external_body]
fn parse_face<'a>(data: &'a [u8]) -> (r: Result<Parsed<'a>, FaceParsingError>)
    ensures
        r is Ok <==> face_parses(data@),
        r matches Ok(p) ==> p.data@ == data@,
        r is Ok ==> data@.len() >= 4,
{
    match Face::from_slice(data, 0) {
        Ok(face) => Ok(Parsed { data, face }),
        Err(e) => Err(e),
    }
}

/// Relies on `ttf_parser::Face::units_per_em`, documented to lie in 16..=16384.
#[verifier::external_body]
fn units_per_em(p: &Parsed) -> (r: u16)
    ensures
        r == face_units_per_em(p.data@),
        16 <= r <= 16384,
{
    p.face.units_per_em()
}

/// Relies on `ttf_parser::Face::ascender`.
#[verifier::external_body]
fn ascender(p: &Parsed) -> (r: i16)
    ensures
        r == face_ascender(p.data@),
{
    p.face.ascender()
}

/// Relies on `ttf_parser::Face::descender`.
#[verifier::external_body]
fn descender(p: &Parsed) -> (r: i16)
    ensures
        r == face_descender(p.data@),
{
    p.face.descender()
}

/// Relies on `ttf_parser::Face::glyph_index`: the glyph mapped to `code`, if any.
#[verifier::external_body]
fn glyph_index(p: &Parsed, code: u8) -> (r: Option<u16>)
    ensures
        r == cmap_index(p.data@, code),
{
    p.face.glyph_index(code as char).map(|g| g.0)
}

/// Relies on `ttf_parser::Face::glyph_bounding_box`: the box of the glyph's
/// outline, `None` when it has none.
#[verifier::external_body]
fn bounding_box(p: &Parsed, id: u16) -> (r: Option<(i16, i16, i16, i16)>)
    ensures
        r == outline_bbox(p.data@, id),
{
    p.face.glyph_bounding_box(GlyphId(id)).map(|b| (b.x_min, b.y_min, b.x_max, b.y_max))
}

/// Relies on `ttf_parser::Face::glyph_hor_advance`.
#[verifier::external_body]
fn glyph_hor_advance(p: &Parsed, id: u16) -> (r: Option<u16>)
    ensures
        r == hor_advance(p.data@, id),
{
    p.face.glyph_hor_advance(GlyphId(id))
}

/// Relies on `ttf_parser::Face::glyph_hor_side_bearing`.
#[verifier::external_body]
fn glyph_hor_side_bearing(p: &Parsed, id: u16) -> (r: Option<i16>)
    ensures
        r == hor_side_bearing(p.data@, id),
{
    p.face.glyph_hor_side_bearing(GlyphId(id))
}

/// Relies on `ttf_parser::Face::glyph_ver_side_bearing`.
#[verifier::external_body]
fn glyph_ver_side_bearing(p: &Parsed, id: u16) -> (r: Option<i16>)
    ensures
        r == ver_side_bearing(p.data@, id),
{
    p.face.glyph_ver_side_bearing(GlyphId(id))
}

/// What a glyph's texture is rasterized from: the outline of glyph `glyph_id`,
/// whose bounding box starts at `(x_min, y_min)` in font units.
#[derive(Clone, Copy, Debug, PartialEq, Eq)]
pub struct Ink {
    pub glyph_id: u16,
    pub x_min: i32,
    pub y_min: i32,
}

/// One cached glyph.
#[derive(Clone, Copy, Debug)]
pub struct Glyph {
    /// Present exactly when the glyph has a visible outline.
    pub tex: Option<Ink>,
    /// Width and height of the outline's bounding box, in font units.
    pub size: [i32; 2],
    /// Offset from the pen to the bounding box, in font units.
    pub bearing: [i32; 2],
    /// How far the pen moves after this glyph, in font units.
    pub h_advance: u16,
}

pub open spec fn opt_or_zero(v: Option<i16>) -> i32 {
    match v {
        Some(x) => x as i32,
        None => 0,
    }
}

/// The glyph built from glyph `id`'s outline box and metrics; absent metrics count as 0.
pub open spec fn glyph_of(
    id: u16,
    bbox: Option<(i16, i16, i16, i16)>,
    adv: Option<u16>,
    hb: Option<i16>,
    vb: Option<i16>,
) -> Glyph {
    Glyph {
        tex: match bbox {
            Some(b) => Some(Ink { glyph_id: id, x_min: b.0 as i32, y_min: b.1 as i32 }),
            None => None,
        },
        size: match bbox {
            Some(b) => [(b.2 - b.0) as i32, (b.3 - b.1) as i32],
            None => [0i32, 0i32],
        },
        bearing: [opt_or_zero(hb), opt_or_zero(vb)],
        h_advance: match adv {
            Some(a) => a,
            None => 0,
        },
    }
}

/// The cache entry of `code` in the font file `data`.
pub open spec fn glyph_model(data: Seq<u8>, code: u8) -> Option<Glyph> {
    match cmap_index(data, code) {
        Some(id) => Some(
            glyph_of(
                id,
                outline_bbox(data, id),
                hor_advance(data, id),
                hor_side_bearing(data, id),
                ver_side_bearing(data, id),
            ),
        ),
        None => None,
    }
}

/// The whole cache of the font file `data`, indexed by character code.
pub open spec fn glyphs_model(data: Seq<u8>) -> Seq<Option<Glyph>> {
    Seq::new(CODES as nat, |c: int| glyph_model(data, c as u8))
}

impl Glyph {
    /// The glyph for glyph index `id`, from its outline's bounding box
    /// `(x_min, y_min, x_max, y_max)` and its metrics.
    pub fn from_metrics(
        id: u16,
        bbox: Option<(i16, i16, i16, i16)>,
        h_advance: Option<u16>,
        h_bearing: Option<i16>,
        v_bearing: Option<i16>,
    ) -> (r: Glyph)
        ensures
            r == glyph_of(id, bbox, h_advance, h_bearing, v_bearing),
    {
        let (tex, size) = match bbox {
            Some(b) => (
                Some(Ink { glyph_id: id, x_min: b.0 as i32, y_min: b.1 as i32 }),
                [b.2 as i32 - b.0 as i32, b.3 as i32 - b.1 as i32],
            ),
            None => (None, [0i32, 0i32]),
        };
        let bx: i32 = match h_bearing {
            Some(x) => x as i32,
            None => 0,
        };
        let by: i32 = match v_bearing {
            Some(y) => y as i32,
            None => 0,
        };
        let adv: u16 = match h_advance {
            Some(a) => a,
            None => 0,
        };
        Glyph { tex, size, bearing: [bx, by], h_advance: adv }
    }
}

/// Builds the cache entry of one character code.
fn glyph(p: &Parsed, code: u8) -> (r: Option<Glyph>)
    ensures
        r == glyph_model(p.data@, code),
{
    match glyph_index(p, code) {
        None => None,
        Some(id) => {
            let bbox = bounding_box(p, id);
            let adv = glyph_hor_advance(p, id);
            let hb = glyph_hor_side_bearing(p, id);
            let vb = glyph_ver_side_bearing(p, id);
            Some(Glyph::from_metrics(id, bbox, adv, hb, vb))
        },
    }
}

/// A font's glyph cache and metrics.
pub struct Font {
    glyphs: Vec<Option<Glyph>>,
    units_per_em: u16,
    line_height: i32,
}

/// What a font holds.
pub ghost struct FontView {
    /// The cache entry of each character code.
    pub glyphs: Seq<Option<Glyph>>,
    /// Font units per em; one font unit is `PIXELS_PER_EM / units_per_em` pixels.
    pub units_per_em: u16,
    /// Distance between baselines, in font units.
    pub line_height: i32,
}

impl View for Font {
    type V = FontView;

    closed spec fn view(&self) -> FontView {
        FontView {
            glyphs: self.glyphs@,
            units_per_em: self.units_per_em,
            line_height: self.line_height,
        }
    }
}

impl Font {
    /// A font caches one entry per code.
    #[verifier::type_invariant]
    spec fn inv(&self) -> bool {
        self.glyphs@.len() == CODES
    }

    /// A font from its cache entries, one per code `0..128`; `None` when there
    /// are not exactly 128 entries or `units_per_em` is outside `16..=16384`.
    pub fn from_glyphs(glyphs: Vec<Option<Glyph>>, units_per_em: u16, line_height: i32) -> (r:
        Option<Font>)
        ensures
            r is Some <==> (glyphs@.len() == CODES && 16 <= units_per_em <= 16384),
            r matches Some(f) ==> f@ == (FontView {
                glyphs: glyphs@,
                units_per_em,
                line_height,
            }),
    {
        if glyphs.len() == CODES && 16 <= units_per_em && units_per_em <= 16384 {
            Some(Font { glyphs, units_per_em, line_height })
        } else {
            None
        }
    }

    /// Parses `file` and builds the cache for every code in `0..128`.
    /// Fails, with the parser's error, exactly when the file does not parse.
    pub fn load(file: &[u8]) -> (r: Result<Font, FaceParsingError>)
        ensures
            r is Ok <==> face_parses(file@),
            file@.len() < 4 ==> r is Err,
            r matches Ok(f) ==> f@ == (FontView {
                glyphs: glyphs_model(file@),
                units_per_em: face_units_per_em(file@),
                line_height: (face_ascender(file@) - face_descender(file@)) as i32,
            }),
    {
        let p = match parse_face(file) {
            Ok(p) => p,
            Err(e) => return Err(e),
        };
        let mut glyphs: Vec<Option<Glyph>> = Vec::with_capacity(CODES);
        let mut code: u8 = 0;
        while code < 128
            invariant
                code <= 128,
                p.data@ == file@,
                glyphs@.len() == code,
                forall|c: int| 0 <= c < code ==> #[trigger] glyphs@[c] == glyph_model(file@, c as u8),
            decreases 128 - code,
        {
            let g = glyph(&p, code);
            glyphs.push(g);
            code = code + 1;
        }
        proof {
            assert(glyphs@ =~= glyphs_model(file@));
        }
        let upm = units_per_em(&p);
        let line_height = ascender(&p) as i32 - descender(&p) as i32;
        Ok(Font { glyphs, units_per_em: upm, line_height })
    }

    /// The cache entry of `code`.
    pub fn get(&self, code: u8) -> (r: Option<&Glyph>)
        requires
            (code as int) < CODES,
        ensures
            r is Some <==> self@.glyphs[code as int] is Some,
            r matches Some(g) ==> self@.glyphs[code as int] == Some(*g),
    {
        proof {
            use_type_invariant(self);
        }
        self.glyphs[code as usize].as_ref()
    }

    /// Font units per em.
    pub fn units_per_em(&self) -> (r: u16)
        ensures
            r == self@.units_per_em,
    {
        self.units_per_em
    }

    /// Distance between baselines, in font units.
    pub fn line_height(&self) -> (r: i32)
        ensures
            r == self@.line_height,
    {
        self.line_height
    }
}

/// The cache holds an entry for a code exactly when the face maps that code
/// to a glyph.
pub proof fn lemma_entry_iff_mapped(data: Seq<u8>, code: u8)
    requires
        (code as int) < CODES,
    ensures
        glyphs_model(data)[code as int] is Some <==> cmap_index(data, code) is Some,
{
}

/// A glyph without an outline has no texture and an empty size; it keeps its
/// advance, so the pen still moves past it.
pub proof fn lemma_blank_glyph(id: u16, adv: Option<u16>, hb: Option<i16>, vb: Option<i16>)
    ensures
        glyph_of(id, None, adv, hb, vb).tex is None,
        glyph_of(id, None, adv, hb, vb).size == [0i32, 0i32],
        adv matches Some(a) ==> glyph_of(id, None, adv, hb, vb).h_advance == a,
{
}

} // verus!
