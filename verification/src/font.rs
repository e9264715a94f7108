//! Fonts as the layout engine sees them: a provider of glyph ids, scaled
//! advance widths and coverage rasters, answering every query from one
//! fixed model. `Font` adapts a parsed TrueType asset; `FixedFont` is a
//! dependency-free provider whose glyphs are solid blocks.

use font_rs::font::Font as TtfAsset;
use font_rs::font::FontError as TtfError;
use vstd::prelude::*;

verus! {

/// A rasterized glyph: an anti-aliased coverage bitmap, row-major, one
/// byte per pixel, plus the signed ascent-relative vertical bearing.
pub struct GlyphRaster {
    pub width: usize,
    pub height: usize,
    pub top: i32,
    pub data: Vec<u8>,
}

/// The mathematical content of a rasterized glyph.
pub ghost struct RasterModel {
    pub width: nat,
    pub height: nat,
    pub top: int,
    pub data: Seq<u8>,
}

impl GlyphRaster {
    /// The raster's mathematical content.
    pub open spec fn model(self) -> RasterModel {
        RasterModel {
            width: self.width as nat,
            height: self.height as nat,
            top: self.top as int,
            data: self.data@,
        }
    }
}

/// Everything the layout engine may ask of a font, as one fixed table:
/// the pixel size, the glyph id of each character, each glyph's raster,
/// and the kerned advance width of each (previous glyph, glyph) pair.
pub ghost struct FontModel {
    pub size: u16,
    pub glyph: Map<char, u32>,
    pub raster: Map<u32, Option<RasterModel>>,
    pub advance: Map<(Option<u32>, u32), u16>,
}

/// A glyph id the engine can render from a model: a raster is present,
/// its coverage buffer holds exactly one byte per bitmap cell, and its
/// extents fit the 16-bit pixel grid.
pub open spec fn good_raster(m: FontModel, g: u32) -> bool {
    &&& m.raster[g] is Some
    &&& m.raster[g]->Some_0.data.len() == m.raster[g]->Some_0.width * m.raster[g]->Some_0.height
    &&& m.raster[g]->Some_0.width <= u16::MAX
    &&& m.raster[g]->Some_0.height <= u16::MAX
}

/// A glyph-metrics-and-bitmap provider. Every query is answered from the
/// provider's fixed model, so the same question always gets the same
/// answer; this is what lets a measure pass and a draw pass agree.
pub trait FontProvider: Sized {
    /// The provider's fixed glyph table.
    spec fn model(&self) -> FontModel;

    /// What the provider asks of every query: `FixedFont` asks nothing,
    /// while `Font` carries the assumption that its bytes are tame (see
    /// `font_bytes_tame`), since its queries walk the raw font tables.
    spec fn wf_req(&self) -> bool;

    /// The pixel size: the vertical distance between text lines.
    fn size(&self) -> (r: u16)
        ensures
            r == self.model().size,
    ;

    /// The glyph id a character maps to (a fallback id when unmapped).
    fn glyph_index(&self, c: char) -> (r: u32)
        requires
            self.wf_req(),
        ensures
            r == self.model().glyph[c],
    ;

    /// The horizontal advance of a glyph in pixels at the provider's
    /// size, kerned against the previously placed glyph.
    fn advance_width(&self, prev: Option<u32>, g: u32) -> (r: u16)
        requires
            self.wf_req(),
        ensures
            r == self.model().advance[(prev, g)],
    ;

    /// Rasterize one glyph; `None` exactly when the model offers no
    /// raster the engine could render.
    fn raster(&self, g: u32) -> (r: Option<GlyphRaster>)
        requires
            self.wf_req(),
        ensures
            match r {
                Some(gr) => good_raster(self.model(), g) && self.model().raster[g] == Some(
                    gr.model(),
                ),
                None => !good_raster(self.model(), g),
            },
    ;
}

/// The font byte sequences on which every outside routine this library
/// relies on — table lookup, glyph indexing, horizontal metrics, kerning
/// and rasterization — returns normally. Outside this set the two crates
/// index the bytes unchecked and may panic, so every trusted call here
/// requires it. Nothing can establish it at run time: the assumption
/// stands in the contracts, visible to the verifier, instead of being
/// silently carried.
pub uninterp spec fn font_bytes_tame(data: Seq<u8>) -> bool;

/// Whether `stb_truetype` accepts these bytes as a font it can index.
pub uninterp spec fn stb_accepts(data: Seq<u8>) -> bool;

/// Whether `font_rs` parses these bytes into a renderable font.
pub uninterp spec fn font_rs_accepts(data: Seq<u8>) -> bool;

/// The glyph id `stb_truetype` resolves a code point to in a font.
pub uninterp spec fn glyph_index_of(data: Seq<u8>, code: u32) -> u32;

/// The unscaled advance width `stb_truetype` reads for a glyph.
pub uninterp spec fn advance_units_of(data: Seq<u8>, g: u32) -> int;

/// The unscaled kerning `stb_truetype` reads for a glyph pair.
pub uninterp spec fn kern_units_of(data: Seq<u8>, g1: u32, g2: u32) -> int;

/// The em-square size `stb_truetype` reads from a font's header.
pub uninterp spec fn units_per_em_of(data: Seq<u8>) -> u16;

/// The raster `font_rs` produces for a glyph at a pixel size.
pub uninterp spec fn raster_of(data: Seq<u8>, g: u16, size: u16) -> Option<RasterModel>;

/// An unscaled advance plus kerning, mapped to pixels: multiplied by the
/// pixel size, divided by the em-square size (rounding toward zero), and
/// clamped to the representable range. A degenerate em square gives zero.
pub open spec fn spec_scaled_advance(units: int, kern: int, upem: u16, size: u16) -> u16 {
    if upem == 0 {
        0
    } else {
        let t = (units + kern) * size;
        if t <= 0 {
            0
        } else if t / (upem as int) > u16::MAX {
            u16::MAX
        } else {
            (t / (upem as int)) as u16
        }
    }
}

/// The model a TrueType asset answers from: glyph ids, rasters and
/// scaled advances, all functions of the font bytes and the pixel size.
pub open spec fn spec_font_model(data: Seq<u8>, size: u16) -> FontModel {
    FontModel {
        size: size,
        glyph: Map::new(|c: char| true, |c: char| glyph_index_of(data, c as u32)),
        raster: Map::new(|g: u32| true, |g: u32| raster_of(data, g as u16, size)),
        advance: Map::new(
            |k: (Option<u32>, u32)| true,
            |k: (Option<u32>, u32)|
                spec_scaled_advance(
                    advance_units_of(data, k.1),
                    match k.0 {
                        Some(p) => kern_units_of(data, p, k.1),
                        None => 0,
                    },
                    units_per_em_of(data),
                    size,
                ),
        ),
    }
}

#[verifier::external_type_specification]
#[verifier::external_body]
#[verifier::reject_recursive_types(Data)]
pub struct ExFontInfo<Data: core::ops::Deref<Target = [u8]>>(stb_truetype::FontInfo<Data>);

#[verifier::external_type_specification]
#[verifier::external_body]
pub struct ExFont<'a>(TtfAsset<'a>);

#[verifier::external_type_specification]
#[verifier::external_body]
pub struct ExFontError(TtfError);

/// Relies on stb_truetype's `FontInfo::new`: whether the table directory
/// can be indexed depends on the font bytes alone. On bytes outside
/// `font_bytes_tame` the crate indexes the input unchecked and may panic
/// rather than return `None`, so they are excluded here; the last clause
/// restates the assumption for the accepted font.
#[verifier::external_body]
fn stb_font_info<'a>(ttf: &'a [u8]) -> (r: Option<stb_truetype::FontInfo<&'a [u8]>>)
    requires
        font_bytes_tame(ttf@),
    ensures
        r is Some <==> stb_accepts(ttf@),
        r is Some ==> font_bytes_tame(ttf@),
{
    stb_truetype::FontInfo::new(ttf, 0)
}

/// Relies on font_rs's `parse`: success depends on the font bytes alone.
/// On bytes outside `font_bytes_tame` the crate slices its input
/// unchecked and may panic rather than return an error, so they are
/// excluded here.
#[verifier::external_body]
fn font_rs_parse<'a>(ttf: &'a [u8]) -> (r: Result<TtfAsset<'a>, TtfError>)
    requires
        font_bytes_tame(ttf@),
    ensures
        r is Ok <==> font_rs_accepts(ttf@),
{
    font_rs::font::parse(ttf)
}

/// A proportional font: a parsed TrueType asset at a fixed pixel size.
/// The two parsed forms are built from the same bytes as `data`, which
/// the contracts of the trusted accessors rely on.
pub struct Font<'a> {
    font_info: stb_truetype::FontInfo<&'a [u8]>,
    font: TtfAsset<'a>,
    data: &'a [u8],
    pub size: u16,
}

/// Why a font asset could not be used, or a glyph not rendered.
#[derive(Copy, Clone, Debug, PartialEq, Eq, Structural)]
pub enum Error {
    FontInfo,
    Parse,
    Rasterize,
}

impl<'a> Font<'a> {
    /// The pixel size this font renders at.
    pub closed spec fn spec_size(&self) -> u16 {
        self.size
    }

    /// Parse a TrueType asset. Succeeds exactly when both parsers accept
    /// the bytes; nothing partial is produced on failure. The bytes must
    /// be tame (see `font_bytes_tame`): outside that set the parsers
    /// themselves may panic, and nothing can check tameness at run time.
    pub fn new(ttf: &'a [u8], size: u16) -> (r: Result<Font<'a>, Error>)
        requires
            font_bytes_tame(ttf@),
        ensures
            r is Ok <==> stb_accepts(ttf@) && font_rs_accepts(ttf@),
            match r {
                Ok(f) => f.model() == spec_font_model(ttf@, size) && f.spec_size() == size
                    && f.wf_req(),
                Err(e) => (e == Error::FontInfo <==> !stb_accepts(ttf@)) && (e == Error::Parse
                    <==> stb_accepts(ttf@) && !font_rs_accepts(ttf@)),
            },
    {
        let font_info = match stb_font_info(ttf) {
            Some(fi) => fi,
            None => {
                return Err(Error::FontInfo);
            },
        };
        let font = match font_rs_parse(ttf) {
            Ok(f) => f,
            Err(_) => {
                return Err(Error::Parse);
            },
        };
        Ok(Font { font_info, font, data: ttf, size })
    }

    /// Relies on stb_truetype's `FontInfo::find_glyph_index`: the id is a
    /// function of the font bytes and the code point alone. `font_info`
    /// was built from `data` by `Font::new`; on bytes outside
    /// `font_bytes_tame` the crate may panic, so they are excluded.
    #[verifier::external_body]
    fn glyph_index_raw(&self, code: u32) -> (r: u32)
        requires
            font_bytes_tame(self.data@),
        ensures
            r == glyph_index_of(self.data@, code),
    {
        self.font_info.find_glyph_index(code)
    }

    /// Relies on stb_truetype's `FontInfo::get_glyph_h_metrics`: the
    /// unscaled advance is a function of the font bytes and glyph alone;
    /// on bytes outside `font_bytes_tame` the crate may panic, so they
    /// are excluded.
    #[verifier::external_body]
    fn advance_units_raw(&self, g: u32) -> (r: i32)
        requires
            font_bytes_tame(self.data@),
        ensures
            r as int == advance_units_of(self.data@, g),
    {
        self.font_info.get_glyph_h_metrics(g).advance_width
    }

    /// Relies on stb_truetype's `FontInfo::get_glyph_kern_advance`: the
    /// kerning of a pair is a function of the font bytes alone; on bytes
    /// outside `font_bytes_tame` the crate may panic, so they are
    /// excluded.
    #[verifier::external_body]
    fn kern_units_raw(&self, g1: u32, g2: u32) -> (r: i32)
        requires
            font_bytes_tame(self.data@),
        ensures
            r as int == kern_units_of(self.data@, g1, g2),
    {
        self.font_info.get_glyph_kern_advance(g1, g2)
    }

    /// Relies on stb_truetype's `FontInfo::units_per_em`: a fixed-offset
    /// read from the header table, which `FontInfo::new` already read
    /// further into, so it is in bounds on every constructed font.
    #[verifier::external_body]
    fn units_per_em_raw(&self) -> (r: u16)
        ensures
            r == units_per_em_of(self.data@),
    {
        self.font_info.units_per_em()
    }

    /// Relies on font_rs's `Font::render_glyph`: the raster is a function
    /// of the font bytes, the glyph id (truncated to 16 bits, as the
    /// renderer takes it) and the pixel size; its `data` buffer is built
    /// with one byte per `width x height` cell. `font` was parsed from
    /// `data` by `Font::new`; on bytes outside `font_bytes_tame` the
    /// crate may panic, so they are excluded.
    #[verifier::external_body]
    fn raster_raw(&self, g: u32) -> (r: Option<GlyphRaster>)
        requires
            font_bytes_tame(self.data@),
        ensures
            match r {
                Some(gr) => raster_of(self.data@, g as u16, self.size) == Some(gr.model()),
                None => raster_of(self.data@, g as u16, self.size) is None,
            },
    {
        match self.font.render_glyph(g as u16, self.size as u32) {
            Some(b) => Some(
                GlyphRaster { width: b.width, height: b.height, top: b.top, data: b.data },
            ),
            None => None,
        }
    }
}

impl<'a> FontProvider for Font<'a> {
    closed spec fn model(&self) -> FontModel {
        spec_font_model(self.data@, self.size)
    }

    closed spec fn wf_req(&self) -> bool {
        font_bytes_tame(self.data@)
    }

    fn size(&self) -> (r: u16) {
        self.size
    }

    fn glyph_index(&self, c: char) -> (r: u32) {
        self.glyph_index_raw(c as u32)
    }

    fn advance_width(&self, prev: Option<u32>, g: u32) -> (r: u16) {
        let units = self.advance_units_raw(g);
        let kern = match prev {
            Some(p) => self.kern_units_raw(p, g),
            None => 0,
        };
        let upem = self.units_per_em_raw();
        if upem == 0 {
            return 0;
        }
        proof {
            assert((units + kern as int) * self.size < 0x1_0000_0000_0000i64 && (units
                + kern as int) * self.size > -0x1_0000_0000_0000i64) by (nonlinear_arith)
                requires
                    -0x8000_0000 <= units <= 0x7fff_ffff,
                    -0x8000_0000 <= kern as int <= 0x7fff_ffff,
                    0 <= self.size <= 0xffff,
            ;
        }
        let t: i64 = (units as i64 + kern as i64) * self.size as i64;
        if t <= 0 {
            0
        } else {
            let q = (t as u64) / (upem as u64);
            if q > u16::MAX as u64 {
                u16::MAX
            } else {
                q as u16
            }
        }
    }

    fn raster(&self, g: u32) -> (r: Option<GlyphRaster>) {
        match self.raster_raw(g) {
            None => None,
            Some(gr) => {
                if gr.width <= u16::MAX as usize && gr.height <= u16::MAX as usize {
                    proof {
                        assert(gr.width * gr.height < 0x1_0000_0000) by (nonlinear_arith)
                            requires
                                0 <= gr.width <= 0xffff,
                                0 <= gr.height <= 0xffff,
                        ;
                    }
                    if gr.data.len() == gr.width * gr.height {
                        Some(gr)
                    } else {
                        None
                    }
                } else {
                    None
                }
            },
        }
    }
}

/// A dependency-free provider: each character's glyph id is its code
/// point; every glyph renders as a solid fully-covered block half the
/// pixel size wide and one pixel size tall, sitting wholly above the pen
/// line; every advance is half the size plus one, with no kerning.
pub struct FixedFont {
    pub size: u16,
}

/// The block raster every glyph of a fixed font shares.
pub open spec fn spec_block_raster(size: u16) -> RasterModel {
    RasterModel {
        width: (size / 2) as nat,
        height: size as nat,
        top: -(size as int),
        data: Seq::new(((size / 2) as nat) * (size as nat), |i: int| 255u8),
    }
}

impl FontProvider for FixedFont {
    open spec fn wf_req(&self) -> bool {
        true
    }

    open spec fn model(&self) -> FontModel {
        FontModel {
            size: self.size,
            glyph: Map::new(|c: char| true, |c: char| c as u32),
            raster: Map::new(|g: u32| true, |g: u32| Some(spec_block_raster(self.size))),
            advance: Map::new(
                |k: (Option<u32>, u32)| true,
                |k: (Option<u32>, u32)| (self.size / 2 + 1) as u16,
            ),
        }
    }

    fn size(&self) -> (r: u16) {
        self.size
    }

    fn glyph_index(&self, c: char) -> (r: u32) {
        c as u32
    }

    fn advance_width(&self, prev: Option<u32>, g: u32) -> (r: u16) {
        self.size / 2 + 1
    }

    fn raster(&self, g: u32) -> (r: Option<GlyphRaster>) {
        let w = (self.size / 2) as usize;
        let h = self.size as usize;
        proof {
            assert(w * h < 0x1_0000_0000) by (nonlinear_arith)
                requires
                    0 <= w <= 0xffff,
                    0 <= h <= 0xffff,
            ;
        }
        let n = w * h;
        let mut data: Vec<u8> = Vec::new();
        let mut i: usize = 0;
        while i < n
            invariant
                i <= n,
                data@.len() == i,
                forall|k: int| 0 <= k < data@.len() ==> data@[k] == 255u8,
            decreases n - i,
        {
            data.push(255);
            i += 1;
        }
        let gr = GlyphRaster { width: w, height: h, top: -(self.size as i32), data };
        proof {
            assert(gr.model().data =~= spec_block_raster(self.size).data);
            assert(gr.model() == spec_block_raster(self.size));
        }
        Some(gr)
    }
}

} // verus!
