//! Pages of a pyramidal tiled TIFF: which pages are usable, which tile of a page
//! is read, and how its pixels are handed on.

use crate::geometry::min_of;
use crate::text::{decimal, push_decimal};
use vstd::prelude::*;
use vstd::string::StringExecFns;

verus! {

/// Pixel layouts that can be shown.
#[derive(Clone, Copy, Debug, PartialEq, Eq, Structural)]
pub enum TiffColor {
    Rgb8,
    Rgba8,
}

/// One usable page.
#[derive(Clone, Copy, Debug, PartialEq, Eq)]
pub struct LodMetadata {
    pub image_dims: (u32, u32),
    pub tile_dims: (u32, u32),
    pub color: TiffColor,
}

impl LodMetadata {
    /// Neither the image nor its tiles are empty.
    pub open spec fn wf(self) -> bool {
        &&& self.image_dims.0 > 0
        &&& self.image_dims.1 > 0
        &&& self.tile_dims.0 > 0
        &&& self.tile_dims.1 > 0
    }
}

/// The sample layout a page declares.
#[derive(Debug, PartialEq, Eq)]
pub enum PageColor {
    Rgb(u8),
    Rgba(u8),
    /// Any other, by its name.
    Other(String),
}

impl PageColor {
    pub open spec fn text(self) -> Seq<char> {
        match self {
            PageColor::Rgb(bits) => "RGB("@ + decimal(bits as int) + ")"@,
            PageColor::Rgba(bits) => "RGBA("@ + decimal(bits as int) + ")"@,
            PageColor::Other(name) => name@,
        }
    }

    fn append_to(&self, text: &mut String)
        ensures
            final(text)@ == old(text)@ + self.text(),
    {
        let ghost before = text@;
        match self {
            PageColor::Rgb(bits) => {
                text.append("RGB(");
                push_decimal(text, *bits as u128);
                text.append(")");
            },
            PageColor::Rgba(bits) => {
                text.append("RGBA(");
                push_decimal(text, *bits as u128);
                text.append(")");
            },
            PageColor::Other(name) => {
                text.append(name.as_str());
            },
        }
        assert(text@ =~= before + self.text());
    }
}

/// A page as its headers describe it. A header that could not be read holds the
/// decoder's words.
#[derive(Debug, PartialEq, Eq)]
pub struct PageHeader {
    pub tiled: bool,
    /// The planar configuration: `Ok(None)` where the tag is absent.
    pub planar: Result<Option<u16>, String>,
    pub image_dims: Result<(u32, u32), String>,
    pub tile_dims: (u32, u32),
    pub color: Result<PageColor, String>,
}

/// The header that could not be read.
#[derive(Clone, Copy, Debug, PartialEq, Eq, Structural)]
pub enum HeaderField {
    PlanarConfiguration,
    Dimensions,
    Color,
}

impl HeaderField {
    pub open spec fn text(self) -> Seq<char> {
        match self {
            HeaderField::PlanarConfiguration => "PlanarConfiguration tag"@,
            HeaderField::Dimensions => "dimensions"@,
            HeaderField::Color => "colortype"@,
        }
    }
}

/// Why a page cannot be used.
#[derive(Debug, PartialEq, Eq)]
pub enum PageError {
    Stripped,
    /// A header could not be read, in the decoder's words.
    Unreadable(HeaderField, String),
    Planar,
    ZeroImage(u32, u32),
    ZeroTile(u32, u32),
    UnsupportedColor(PageColor),
}

/// Two numbers in brackets.
pub open spec fn pair_text(a: int, b: int) -> Seq<char> {
    "("@ + decimal(a) + ", "@ + decimal(b) + ")"@
}

fn append_pair(text: &mut String, a: u32, b: u32)
    ensures
        final(text)@ == old(text)@ + pair_text(a as int, b as int),
{
    let ghost before = text@;
    text.append("(");
    push_decimal(text, a as u128);
    text.append(", ");
    push_decimal(text, b as u128);
    text.append(")");
    assert(text@ =~= before + pair_text(a as int, b as int));
}

impl PageError {
    pub open spec fn text(self) -> Seq<char> {
        match self {
            PageError::Stripped => "page is stripped, not tiled — pyramidal TIFF must be tiled"@,
            PageError::Unreadable(field, cause) => field.text() + ": "@ + cause@,
            PageError::Planar => "planar TIFF (PlanarConfiguration=Planar) not supported"@,
            PageError::ZeroImage(w, h) => "zero image dimension "@ + pair_text(w as int, h as int),
            PageError::ZeroTile(w, h) => "zero tile dimension "@ + pair_text(w as int, h as int),
            PageError::UnsupportedColor(color) => "unsupported color type "@ + color.text()
                + " (need RGB8 or RGBA8)"@,
        }
    }

    /// The error in words.
    pub fn message(&self) -> (text: String)
        ensures
            text@ == self.text(),
    {
        let mut text = String::new();
        match self {
            PageError::Stripped => {
                text.append("page is stripped, not tiled — pyramidal TIFF must be tiled");
            },
            PageError::Unreadable(field, cause) => {
                match field {
                    HeaderField::PlanarConfiguration => text.append("PlanarConfiguration tag"),
                    HeaderField::Dimensions => text.append("dimensions"),
                    HeaderField::Color => text.append("colortype"),
                }
                text.append(": ");
                text.append(cause.as_str());
            },
            PageError::Planar => {
                text.append("planar TIFF (PlanarConfiguration=Planar) not supported");
            },
            PageError::ZeroImage(w, h) => {
                text.append("zero image dimension ");
                append_pair(&mut text, *w, *h);
            },
            PageError::ZeroTile(w, h) => {
                text.append("zero tile dimension ");
                append_pair(&mut text, *w, *h);
            },
            PageError::UnsupportedColor(color) => {
                text.append("unsupported color type ");
                color.append_to(&mut text);
                text.append(" (need RGB8 or RGBA8)");
            },
        }
        assert(text@ =~= self.text());
        text
    }
}

/// The planar configuration with interleaved samples, which is also the one
/// that an absent tag stands for.
pub const PLANAR_CHUNKY: u16 = 1;

pub open spec fn color_of(color: PageColor) -> Option<TiffColor> {
    match color {
        PageColor::Rgb(8) => Some(TiffColor::Rgb8),
        PageColor::Rgba(8) => Some(TiffColor::Rgba8),
        _ => None,
    }
}

/// The headers are held against the rules in this order; the first broken one
/// is the error.
pub open spec fn page_metadata(page: PageHeader) -> Result<LodMetadata, PageError> {
    if !page.tiled {
        Err(PageError::Stripped)
    } else if page.planar is Err {
        Err(PageError::Unreadable(HeaderField::PlanarConfiguration, page.planar->Err_0))
    } else if page.planar->Ok_0 is Some && page.planar->Ok_0->0 != PLANAR_CHUNKY {
        Err(PageError::Planar)
    } else {
        match page.image_dims {
            Err(cause) => Err(PageError::Unreadable(HeaderField::Dimensions, cause)),
            Ok(dims) => if dims.0 == 0 || dims.1 == 0 {
                Err(PageError::ZeroImage(dims.0, dims.1))
            } else if page.tile_dims.0 == 0 || page.tile_dims.1 == 0 {
                Err(PageError::ZeroTile(page.tile_dims.0, page.tile_dims.1))
            } else {
                match page.color {
                    Err(cause) => Err(PageError::Unreadable(HeaderField::Color, cause)),
                    Ok(declared) => match color_of(declared) {
                        Some(color) => Ok(
                            LodMetadata { image_dims: dims, tile_dims: page.tile_dims, color },
                        ),
                        None => Err(PageError::UnsupportedColor(declared)),
                    },
                }
            },
        }
    }
}

/// Decides whether a page can be used. Only tiled pages with interleaved 8-bit
/// RGB or RGBA samples can.
pub fn read_lod_metadata(page: &PageHeader) -> (r: Result<LodMetadata, PageError>)
    ensures
        r == page_metadata(*page),
{
    if !page.tiled {
        return Err(PageError::Stripped);
    }
    match &page.planar {
        Err(cause) => {
            return Err(PageError::Unreadable(HeaderField::PlanarConfiguration, cause.clone()));
        },
        Ok(Some(planar)) => {
            if *planar != PLANAR_CHUNKY {
                return Err(PageError::Planar);
            }
        },
        Ok(None) => {},
    }
    let image_dims: (u32, u32) = match &page.image_dims {
        Err(cause) => {
            return Err(PageError::Unreadable(HeaderField::Dimensions, cause.clone()));
        },
        Ok(dims) => *dims,
    };
    if image_dims.0 == 0 || image_dims.1 == 0 {
        return Err(PageError::ZeroImage(image_dims.0, image_dims.1));
    }
    if page.tile_dims.0 == 0 || page.tile_dims.1 == 0 {
        return Err(PageError::ZeroTile(page.tile_dims.0, page.tile_dims.1));
    }
    let color: TiffColor = match &page.color {
        Err(cause) => {
            return Err(PageError::Unreadable(HeaderField::Color, cause.clone()));
        },
        Ok(PageColor::Rgb(bits)) => if *bits == 8 {
            TiffColor::Rgb8
        } else {
            return Err(PageError::UnsupportedColor(PageColor::Rgb(*bits)));
        },
        Ok(PageColor::Rgba(bits)) => if *bits == 8 {
            TiffColor::Rgba8
        } else {
            return Err(PageError::UnsupportedColor(PageColor::Rgba(*bits)));
        },
        Ok(PageColor::Other(name)) => {
            return Err(PageError::UnsupportedColor(PageColor::Other(name.clone())));
        },
    };
    Ok(LodMetadata { image_dims, tile_dims: page.tile_dims, color })
}

/// Why a scan of a file's pages failed.
#[derive(Debug, PartialEq, Eq)]
pub enum ScanError {
    /// A page cannot be used.
    Page { page: usize, error: PageError },
    /// The step to the page after this one failed, in the decoder's words.
    NextPage { page: usize, cause: String },
}

impl ScanError {
    pub open spec fn text(self) -> Seq<char> {
        match self {
            ScanError::Page { error, .. } => error.text(),
            ScanError::NextPage { cause, .. } => "next_image during scan: "@ + cause@,
        }
    }

    /// The error in words.
    pub fn message(&self) -> (text: String)
        ensures
            text@ == self.text(),
    {
        match self {
            ScanError::Page { error, .. } => error.message(),
            ScanError::NextPage { cause, .. } => {
                let mut text = String::from_str("next_image during scan: ");
                text.append(cause.as_str());
                text
            },
        }
    }
}

/// How the pages of a file ended.
#[derive(Debug, PartialEq, Eq)]
pub enum PagesEnd {
    /// The last page was reached.
    Complete,
    /// The step past the last page listed failed, in the decoder's words.
    StepFailed(String),
}

pub open spec fn usable(page: PageHeader) -> bool {
    page_metadata(page) is Ok
}

/// Scans the pages of a file from full resolution down. Every page has to be
/// usable and reachable; the first obstacle is the error.
pub fn scan_lods(pages: &[PageHeader], end: PagesEnd) -> (r: Result<Vec<LodMetadata>, ScanError>)
    requires
        pages@.len() > 0,
    ensures
        match r {
            Ok(lods) => {
                &&& end == PagesEnd::Complete
                &&& lods@.len() == pages@.len()
                &&& forall|k: int|
                    0 <= k < pages@.len() ==> page_metadata(#[trigger] pages@[k]) == Ok::<
                        LodMetadata,
                        PageError,
                    >(lods@[k])
            },
            Err(ScanError::Page { page, error }) => {
                &&& page < pages@.len()
                &&& page_metadata(pages@[page as int]) == Err::<LodMetadata, PageError>(error)
                &&& forall|k: int| 0 <= k < page ==> usable(#[trigger] pages@[k])
            },
            Err(ScanError::NextPage { page, cause }) => {
                &&& end == PagesEnd::StepFailed(cause)
                &&& page + 1 == pages@.len()
                &&& forall|k: int| 0 <= k < pages@.len() ==> usable(#[trigger] pages@[k])
            },
        },
{
    let mut lods: Vec<LodMetadata> = Vec::new();
    let mut i: usize = 0;
    while i < pages.len()
        invariant
            i <= pages.len(),
            lods@.len() == i,
            forall|k: int|
                0 <= k < i ==> page_metadata(#[trigger] pages@[k]) == Ok::<LodMetadata, PageError>(
                    lods@[k],
                ),
        decreases pages.len() - i,
    {
        match read_lod_metadata(&pages[i]) {
            Ok(meta) => {
                lods.push(meta);
            },
            Err(error) => {
                return Err(ScanError::Page { page: i, error });
            },
        }
        i = i + 1;
    }
    match end {
        PagesEnd::Complete => Ok(lods),
        PagesEnd::StepFailed(cause) => Err(ScanError::NextPage { page: pages.len() - 1, cause }),
    }
}

/// Bytes of one pixel.
pub fn bytes_per_pixel(color: TiffColor) -> (bytes: usize)
    ensures
        bytes == pixel_bytes(color),
{
    match color {
        TiffColor::Rgb8 => 3,
        TiffColor::Rgba8 => 4,
    }
}

pub open spec fn pixel_bytes(color: TiffColor) -> int {
    match color {
        TiffColor::Rgb8 => 3,
        TiffColor::Rgba8 => 4,
    }
}

/// Each whole RGB triple of `raw`, followed by an opaque alpha.
pub open spec fn with_alpha(raw: Seq<u8>) -> Seq<u8> {
    Seq::new(
        (raw.len() / 3 * 4) as nat,
        |i: int|
            if i % 4 == 3 {
                255u8
            } else {
                raw[i / 4 * 3 + i % 4]
            },
    )
}

/// Pixels as RGBA: those without alpha become opaque.
pub fn rgb_to_rgba8(raw: Vec<u8>, color: TiffColor) -> (rgba: Vec<u8>)
    ensures
        rgba@ == match color {
            TiffColor::Rgba8 => raw@,
            TiffColor::Rgb8 => with_alpha(raw@),
        },
{
    match color {
        TiffColor::Rgba8 => raw,
        TiffColor::Rgb8 => {
            let mut out: Vec<u8> = Vec::new();
            let pixels: usize = raw.len() / 3;
            let mut i: usize = 0;
            while i < pixels
                invariant
                    i <= pixels,
                    pixels == raw@.len() / 3,
                    raw@.len() <= usize::MAX,
                    out@.len() == i * 4,
                    forall|k: int|
                        0 <= k < out@.len() ==> #[trigger] out@[k] == (if k % 4 == 3 {
                            255u8
                        } else {
                            raw@[k / 4 * 3 + k % 4]
                        }),
                decreases pixels - i,
            {
                let at: usize = i * 3;
                out.push(raw[at]);
                out.push(raw[at + 1]);
                out.push(raw[at + 2]);
                out.push(255);
                i = i + 1;
            }
            assert(out@ =~= with_alpha(raw@));
            out
        },
    }
}

/// A decoded tile.
pub struct DecodedTile {
    pub rgba: Vec<u8>,
    /// Dimensions after cropping at the image edge.
    pub width: u32,
    pub height: u32,
}

/// Tiles along an edge.
pub open spec fn tiles_along(image: int, tile: int) -> int {
    (image + tile - 1) / tile
}

/// Extent of tile `c` along an edge, cropped at the image.
pub open spec fn tile_extent(c: int, image: int, tile: int) -> int {
    min_of(image - c * tile, tile)
}

/// Where a tile is found and how large its decoded form is.
#[derive(Clone, Copy, Debug, PartialEq, Eq, Structural)]
pub struct TilePlan {
    /// Index of the tile in its page, row by row.
    pub index: u64,
    pub width: u32,
    pub height: u32,
    /// Bytes the decoder has to hand back.
    pub expected_len: u128,
    pub color: TiffColor,
}

/// Why a tile cannot be read.
#[derive(Clone, Copy, Debug, PartialEq, Eq, Structural)]
pub enum TileError {
    NoSuchLod { lods: usize },
    OutOfRange { across: u32, down: u32 },
    WrongLength { got: usize, expected: u128 },
}

impl TileError {
    pub open spec fn text(self, lod: int, cx: int, cy: int) -> Seq<char> {
        match self {
            TileError::NoSuchLod { lods } => "LOD "@ + decimal(lod) + " out of range (have "@
                + decimal(lods as int) + ")"@,
            TileError::OutOfRange { across, down } => "tile ("@ + decimal(cx) + ","@ + decimal(cy)
                + ") out of range at LOD "@ + decimal(lod) + " ("@ + decimal(across as int) + "x"@
                + decimal(down as int) + ")"@,
            TileError::WrongLength { got, expected } => "tile ("@ + decimal(cx) + ","@ + decimal(cy)
                + ") at LOD "@ + decimal(lod) + ": decoded "@ + decimal(got as int)
                + " bytes, expected "@ + decimal(expected as int),
        }
    }

    /// The error in words, for tile `(cx, cy)` of a level.
    pub fn message(&self, lod: u32, cx: u32, cy: u32) -> (text: String)
        ensures
            text@ == self.text(lod as int, cx as int, cy as int),
    {
        let mut text = String::new();
        match self {
            TileError::NoSuchLod { lods } => {
                text.append("LOD ");
                push_decimal(&mut text, lod as u128);
                text.append(" out of range (have ");
                push_decimal(&mut text, *lods as u128);
                text.append(")");
            },
            TileError::OutOfRange { across, down } => {
                text.append("tile (");
                push_decimal(&mut text, cx as u128);
                text.append(",");
                push_decimal(&mut text, cy as u128);
                text.append(") out of range at LOD ");
                push_decimal(&mut text, lod as u128);
                text.append(" (");
                push_decimal(&mut text, *across as u128);
                text.append("x");
                push_decimal(&mut text, *down as u128);
                text.append(")");
            },
            TileError::WrongLength { got, expected } => {
                text.append("tile (");
                push_decimal(&mut text, cx as u128);
                text.append(",");
                push_decimal(&mut text, cy as u128);
                text.append(") at LOD ");
                push_decimal(&mut text, lod as u128);
                text.append(": decoded ");
                push_decimal(&mut text, *got as u128);
                text.append(" bytes, expected ");
                push_decimal(&mut text, *expected);
            },
        }
        assert(text@ =~= self.text(lod as int, cx as int, cy as int));
        text
    }
}

fn ceil_div(image: u32, tile: u32) -> (n: u32)
    requires
        tile > 0,
    ensures
        n == tiles_along(image as int, tile as int),
{
    let sum: u64 = image as u64 + tile as u64 - 1;
    let n: u64 = sum / tile as u64;
    assert(0 <= n <= image) by (nonlinear_arith)
        requires
            sum == image + tile - 1,
            tile >= 1,
            n == sum as int / tile as int,
            image >= 0,
    ;
    n as u32
}

/// Tile `(cx, cy)` of a page exists.
pub open spec fn tile_exists(meta: LodMetadata, cx: int, cy: int) -> bool {
    cx < tiles_along(meta.image_dims.0 as int, meta.tile_dims.0 as int) && cy < tiles_along(
        meta.image_dims.1 as int,
        meta.tile_dims.1 as int,
    )
}

proof fn lemma_tile_inside(c: int, image: int, tile: int)
    requires
        0 <= c < tiles_along(image, tile),
        tile > 0,
        image > 0,
    ensures
        0 <= c * tile < image,
        1 <= tile_extent(c, image, tile) <= tile,
{
    let n = tiles_along(image, tile);
    assert(n * tile <= image + tile - 1) by (nonlinear_arith)
        requires
            n == (image + tile - 1) / tile,
            tile > 0,
    ;
    assert(0 <= c * tile <= n * tile - tile) by (nonlinear_arith)
        requires
            0 <= c <= n - 1,
            tile > 0,
    ;
}

/// Where tile `(cx, cy)` of a level is found, or why it is not.
pub fn plan_tile(lods: &[LodMetadata], lod: u32, cx: u32, cy: u32) -> (r: Result<
    TilePlan,
    TileError,
>)
    requires
        forall|k: int| 0 <= k < lods@.len() ==> (#[trigger] lods@[k]).wf(),
    ensures
        match r {
            Err(TileError::NoSuchLod { lods: n }) => lod >= lods@.len() && n == lods@.len(),
            Err(TileError::OutOfRange { across, down }) => {
                &&& lod < lods@.len()
                &&& !tile_exists(lods@[lod as int], cx as int, cy as int)
                &&& across == tiles_along(
                    lods@[lod as int].image_dims.0 as int,
                    lods@[lod as int].tile_dims.0 as int,
                )
                &&& down == tiles_along(
                    lods@[lod as int].image_dims.1 as int,
                    lods@[lod as int].tile_dims.1 as int,
                )
            },
            Err(TileError::WrongLength { .. }) => false,
            Ok(plan) => {
                &&& lod < lods@.len()
                &&& tile_exists(lods@[lod as int], cx as int, cy as int)
                &&& plan.index == cy * tiles_along(
                    lods@[lod as int].image_dims.0 as int,
                    lods@[lod as int].tile_dims.0 as int,
                ) + cx
                &&& plan.width == tile_extent(
                    cx as int,
                    lods@[lod as int].image_dims.0 as int,
                    lods@[lod as int].tile_dims.0 as int,
                )
                &&& plan.height == tile_extent(
                    cy as int,
                    lods@[lod as int].image_dims.1 as int,
                    lods@[lod as int].tile_dims.1 as int,
                )
                &&& plan.color == lods@[lod as int].color
                &&& plan.expected_len == plan.width * plan.height * pixel_bytes(plan.color)
            },
        },
{
    if lod as usize >= lods.len() {
        return Err(TileError::NoSuchLod { lods: lods.len() });
    }
    let meta = lods[lod as usize];
    let across: u32 = ceil_div(meta.image_dims.0, meta.tile_dims.0);
    let down: u32 = ceil_div(meta.image_dims.1, meta.tile_dims.1);
    if cx >= across || cy >= down {
        return Err(TileError::OutOfRange { across, down });
    }
    proof {
        lemma_tile_inside(cx as int, meta.image_dims.0 as int, meta.tile_dims.0 as int);
        lemma_tile_inside(cy as int, meta.image_dims.1 as int, meta.tile_dims.1 as int);
        assert(cy * across <= 0xffff_ffff * 0xffff_ffff) by (nonlinear_arith)
            requires
                0 <= cy <= 0xffff_ffff,
                0 <= across <= 0xffff_ffff,
        ;
        assert(0 <= cy * across) by (nonlinear_arith)
            requires
                0 <= cy,
                0 <= across,
        ;
    }
    let index: u64 = cy as u64 * across as u64 + cx as u64;
    let left: u32 = meta.image_dims.0 - cx * meta.tile_dims.0;
    let below: u32 = meta.image_dims.1 - cy * meta.tile_dims.1;
    let width: u32 = if left < meta.tile_dims.0 {
        left
    } else {
        meta.tile_dims.0
    };
    let height: u32 = if below < meta.tile_dims.1 {
        below
    } else {
        meta.tile_dims.1
    };
    assert(0 <= width * height <= 0xffff_ffff * 0xffff_ffff) by (nonlinear_arith)
        requires
            0 <= width <= 0xffff_ffff,
            0 <= height <= 0xffff_ffff,
    ;
    let bytes: u128 = bytes_per_pixel(meta.color) as u128;
    let area: u128 = width as u128 * height as u128;
    assert(area * bytes <= area * 4) by (nonlinear_arith)
        requires
            bytes <= 4,
            area >= 0,
    ;
    Ok(TilePlan { index, width, height, expected_len: area * bytes, color: meta.color })
}

/// Turns what the decoder handed back into a tile, or refuses it where its
/// length is not the planned one.
pub fn finish_tile(plan: &TilePlan, raw: Vec<u8>) -> (r: Result<DecodedTile, TileError>)
    ensures
        match r {
            Ok(tile) => {
                &&& raw@.len() == plan.expected_len
                &&& tile.width == plan.width
                &&& tile.height == plan.height
                &&& tile.rgba@ == match plan.color {
                    TiffColor::Rgba8 => raw@,
                    TiffColor::Rgb8 => with_alpha(raw@),
                }
            },
            Err(error) => raw@.len() != plan.expected_len && error == (TileError::WrongLength {
                got: raw@.len() as usize,
                expected: plan.expected_len,
            }),
        },
{
    if raw.len() as u128 != plan.expected_len {
        return Err(TileError::WrongLength { got: raw.len(), expected: plan.expected_len });
    }
    Ok(
        DecodedTile {
            rgba: rgb_to_rgba8(raw, plan.color),
            width: plan.width,
            height: plan.height,
        },
    )
}

/// How to get from one page of the file to another. Pages are linked forward
/// only, so going back starts over at the first one.
#[derive(Clone, Copy, Debug, PartialEq, Eq, Structural)]
pub struct Navigation {
    pub reopen: bool,
    pub steps: u32,
}

/// The steps from page `current` to page `lod`.
pub fn navigate_to_lod(current: u32, lod: u32) -> (nav: Navigation)
    ensures
        nav.reopen == (lod < current),
        (if nav.reopen {
            0
        } else {
            current as int
        }) + nav.steps == lod,
{
    if lod < current {
        Navigation { reopen: true, steps: lod }
    } else {
        Navigation { reopen: false, steps: lod - current }
    }
}

/// Adding alpha keeps every pixel's colour and makes it opaque.
pub proof fn law_alpha_keeps_colours(raw: Seq<u8>, pixel: int)
    requires
        0 <= pixel < raw.len() / 3,
    ensures
        with_alpha(raw).len() == raw.len() / 3 * 4,
        with_alpha(raw)[4 * pixel] == raw[3 * pixel],
        with_alpha(raw)[4 * pixel + 1] == raw[3 * pixel + 1],
        with_alpha(raw)[4 * pixel + 2] == raw[3 * pixel + 2],
        with_alpha(raw)[4 * pixel + 3] == 255,
{
}

/// The tiles along an edge cover it without a gap or an overlap: position `p`
/// belongs to exactly one of them.
pub proof fn law_tiles_cover_the_edge(image: int, tile: int, p: int)
    requires
        image > 0,
        tile > 0,
        0 <= p < image,
    ensures
        0 <= p / tile < tiles_along(image, tile),
        (p / tile) * tile <= p < (p / tile) * tile + tile_extent(p / tile, image, tile),
        forall|c: int|
            #![trigger tile_extent(c, image, tile)]
            0 <= c < tiles_along(image, tile) && c * tile <= p < c * tile + tile_extent(
                c,
                image,
                tile,
            ) ==> c == p / tile,
{
    let n = tiles_along(image, tile);
    let q = p / tile;
    assert(q * tile <= p < q * tile + tile) by (nonlinear_arith)
        requires
            q == p / tile,
            tile > 0,
    ;
    assert(0 <= q) by (nonlinear_arith)
        requires
            q == p / tile,
            tile > 0,
            p >= 0,
    ;
    assert(q < n) by (nonlinear_arith)
        requires
            q * tile <= p < image,
            n == (image + tile - 1) / tile,
            tile > 0,
    ;
    assert forall|c: int|
        #![trigger tile_extent(c, image, tile)]
        0 <= c < n && c * tile <= p < c * tile + tile_extent(c, image, tile) implies c == q by {
        assert(c == q) by (nonlinear_arith)
            requires
                c * tile <= p < c * tile + tile,
                q * tile <= p < q * tile + tile,
                tile > 0,
        ;
    }
}

/// A page can be used exactly if it is tiled, its samples are interleaved, neither
/// its image nor its tiles are empty, and its samples are 8-bit RGB or RGBA. Then
/// it is used as it says.
pub proof fn law_usable_pages(page: PageHeader)
    ensures
        page_metadata(page) is Ok <==> {
            &&& page.tiled
            &&& page.planar is Ok
            &&& page.planar->Ok_0 is None || page.planar->Ok_0 == Some(1u16)
            &&& page.image_dims is Ok
            &&& page.image_dims->Ok_0.0 > 0 && page.image_dims->Ok_0.1 > 0
            &&& page.tile_dims.0 > 0 && page.tile_dims.1 > 0
            &&& page.color is Ok
            &&& page.color->Ok_0 == PageColor::Rgb(8) || page.color->Ok_0 == PageColor::Rgba(8)
        },
        page_metadata(page) matches Ok(m) ==> {
            &&& m.image_dims == page.image_dims->Ok_0
            &&& m.tile_dims == page.tile_dims
            &&& m.color is Rgb8 <==> page.color->Ok_0 is Rgb
            &&& m.color is Rgba8 <==> page.color->Ok_0 is Rgba
            &&& m.wf()
        },
        usable(page) <==> page_metadata(page) is Ok,
{
}

/// A page that cannot be used is refused for what is wrong with it, and for the
/// first thing wrong: its layout, its planes, its extents, its samples.
pub proof fn law_first_obstacle_is_named(page: PageHeader)
    ensures
        page_metadata(page) matches Err(error) ==> match error {
            PageError::Stripped => !page.tiled,
            PageError::Unreadable(HeaderField::PlanarConfiguration, cause) => page.tiled
                && page.planar is Err && page.planar->Err_0 == cause,
            PageError::Planar => page.tiled && page.planar is Ok && page.planar->Ok_0 is Some
                && page.planar->Ok_0->0 != 1,
            PageError::Unreadable(HeaderField::Dimensions, cause) => page.tiled
                && page.planar is Ok && page.image_dims is Err && page.image_dims->Err_0 == cause,
            PageError::ZeroImage(w, h) => page.tiled && page.planar is Ok && page.image_dims is Ok
                && page.image_dims->Ok_0 == (w, h) && (w == 0 || h == 0),
            PageError::ZeroTile(w, h) => page.tiled && page.planar is Ok && page.image_dims is Ok
                && page.image_dims->Ok_0.0 > 0 && page.image_dims->Ok_0.1 > 0 && page.tile_dims
                == (w, h) && (w == 0 || h == 0),
            PageError::Unreadable(HeaderField::Color, cause) => page.tiled && page.planar is Ok
                && page.image_dims is Ok && page.tile_dims.0 > 0 && page.tile_dims.1 > 0
                && page.color is Err && page.color->Err_0 == cause,
            PageError::UnsupportedColor(declared) => page.tiled && page.planar is Ok
                && page.image_dims is Ok && page.tile_dims.0 > 0 && page.tile_dims.1 > 0
                && page.color is Ok && page.color->Ok_0 == declared,
        },
{
}

/// A tile exists exactly if it starts on the image, on both axes.
pub proof fn law_tile_exists_where_it_starts_on_the_image(meta: LodMetadata, cx: int, cy: int)
    requires
        meta.wf(),
        0 <= cx,
        0 <= cy,
    ensures
        tile_exists(meta, cx, cy) <==> cx * meta.tile_dims.0 < meta.image_dims.0 && cy
            * meta.tile_dims.1 < meta.image_dims.1,
        tile_exists(meta, cx, cy) ==> {
            let w = tile_extent(cx, meta.image_dims.0 as int, meta.tile_dims.0 as int);
            let h = tile_extent(cy, meta.image_dims.1 as int, meta.tile_dims.1 as int);
            &&& 0 < w <= meta.tile_dims.0
            &&& 0 < h <= meta.tile_dims.1
            &&& cx * meta.tile_dims.0 + w <= meta.image_dims.0
            &&& cy * meta.tile_dims.1 + h <= meta.image_dims.1
            &&& w == meta.tile_dims.0 || cx * meta.tile_dims.0 + w == meta.image_dims.0
            &&& h == meta.tile_dims.1 || cy * meta.tile_dims.1 + h == meta.image_dims.1
        },
{
    lemma_starts_on_image(cx, meta.image_dims.0 as int, meta.tile_dims.0 as int);
    lemma_starts_on_image(cy, meta.image_dims.1 as int, meta.tile_dims.1 as int);
}

proof fn lemma_starts_on_image(c: int, image: int, tile: int)
    requires
        0 <= c,
        tile > 0,
        image > 0,
    ensures
        c < tiles_along(image, tile) <==> c * tile < image,
{
    let n = (image + tile - 1) / tile;
    vstd::arithmetic::div_mod::lemma_fundamental_div_mod(image + tile - 1, tile);
    let r = (image + tile - 1) % tile;
    assert(image + tile - 1 == tile * n + r && 0 <= r < tile);
    if c < n {
        assert(c * tile < image) by (nonlinear_arith)
            requires
                c + 1 <= n,
                image + tile - 1 == tile * n + r,
                0 <= r < tile,
                tile > 0,
        ;
    } else {
        assert(c * tile >= image) by (nonlinear_arith)
            requires
                c >= n,
                image + tile - 1 == tile * n + r,
                r >= 0,
                r < tile,
                tile > 0,
        ;
    }
}

/// What the decoder says is passed on to the end of the message.
pub proof fn law_messages_pass_causes_on(field: HeaderField, cause: String, page: usize)
    ensures
        crate::text::ends_with(PageError::Unreadable(field, cause).text(), cause@),
        crate::text::starts_with(PageError::Unreadable(field, cause).text(), field.text()),
        crate::text::ends_with((ScanError::NextPage { page, cause }).text(), cause@),
        (ScanError::Page { page, error: PageError::Planar }).text() == PageError::Planar.text(),
{
    let a = PageError::Unreadable(field, cause).text();
    assert(a.subrange(a.len() - cause@.len(), a.len() as int) =~= cause@);
    assert(a.subrange(0, field.text().len() as int) =~= field.text());
    let b = (ScanError::NextPage { page, cause }).text();
    assert(b.subrange(b.len() - cause@.len(), b.len() as int) =~= cause@);
}

/// As many pixels as a decoder hands back, so many are shown: three bytes of RGB
/// become four of RGBA.
pub proof fn law_pixels_are_kept(raw: Seq<u8>, pixels: int)
    requires
        0 <= pixels,
        raw.len() == pixels * pixel_bytes(TiffColor::Rgb8),
    ensures
        with_alpha(raw).len() == pixels * pixel_bytes(TiffColor::Rgba8),
        raw.len() == 3 * pixels,
        with_alpha(raw).len() == 4 * pixels,
{
}

} // verus!
