use driftwm::tiles::tiff::{
    HeaderField, LodMetadata, Navigation, PageColor, PageError, PageHeader, PagesEnd, ScanError,
    TiffColor, TileError, bytes_per_pixel, finish_tile, navigate_to_lod, plan_tile,
    read_lod_metadata, rgb_to_rgba8, scan_lods,
};
use std::io::Cursor;
use tiff::ColorType;
use tiff::decoder::{ChunkType, Decoder};
use tiff::encoder::TiffEncoder;
use tiff::encoder::colortype::RGB8;
use tiff::tags::Tag;

fn header_of(decoder: &mut Decoder<Cursor<Vec<u8>>>) -> PageHeader {
    PageHeader {
        tiled: decoder.get_chunk_type() == ChunkType::Tile,
        planar: decoder
            .find_tag_unsigned::<u16>(Tag::PlanarConfiguration)
            .map_err(|e| e.to_string()),
        image_dims: decoder.dimensions().map_err(|e| e.to_string()),
        tile_dims: decoder.chunk_dimensions(),
        color: decoder
            .colortype()
            .map(|color| match color {
                ColorType::RGB(bits) => PageColor::Rgb(bits),
                ColorType::RGBA(bits) => PageColor::Rgba(bits),
                other => PageColor::Other(format!("{other:?}")),
            })
            .map_err(|e| e.to_string()),
    }
}

#[test]
fn rejects_stripped_tiff() {
    let mut buf = Cursor::new(Vec::new());
    let mut enc = TiffEncoder::new(&mut buf).unwrap();
    let data: Vec<u8> = (0..4 * 4 * 3).map(|i| i as u8).collect();
    enc.write_image::<RGB8>(4, 4, &data).unwrap();
    let mut decoder = Decoder::new(Cursor::new(buf.into_inner())).unwrap();
    let page = header_of(&mut decoder);
    let err = read_lod_metadata(&page)
        .err()
        .expect("stripped TIFF must be rejected")
        .message();
    assert!(err.contains("stripped"), "got: {err}");
}

fn tiled() -> PageHeader {
    PageHeader {
        tiled: true,
        planar: Ok(None),
        image_dims: Ok((1000, 700)),
        tile_dims: (256, 256),
        color: Ok(PageColor::Rgb(8)),
    }
}

#[test]
fn each_broken_header_has_its_error() {
    let meta = read_lod_metadata(&tiled()).ok().unwrap();
    assert_eq!(meta.image_dims, (1000, 700));
    assert_eq!(meta.tile_dims, (256, 256));
    assert_eq!(meta.color, TiffColor::Rgb8);
    let rgba = PageHeader {
        planar: Ok(Some(1)),
        color: Ok(PageColor::Rgba(8)),
        ..tiled()
    };
    assert_eq!(read_lod_metadata(&rgba).ok().unwrap().color, TiffColor::Rgba8);
    let cause = || "unexpected end of file".to_string();
    let gray = || PageColor::Other("Gray(8)".to_string());
    let cases = [
        (
            PageHeader { planar: Err(cause()), ..tiled() },
            PageError::Unreadable(HeaderField::PlanarConfiguration, cause()),
            "PlanarConfiguration tag: unexpected end of file",
        ),
        (
            PageHeader { planar: Ok(Some(2)), ..tiled() },
            PageError::Planar,
            "planar TIFF (PlanarConfiguration=Planar) not supported",
        ),
        (
            PageHeader { image_dims: Err(cause()), ..tiled() },
            PageError::Unreadable(HeaderField::Dimensions, cause()),
            "dimensions: unexpected end of file",
        ),
        (
            PageHeader { image_dims: Ok((0, 15)), ..tiled() },
            PageError::ZeroImage(0, 15),
            "zero image dimension (0, 15)",
        ),
        (
            PageHeader { tile_dims: (256, 0), ..tiled() },
            PageError::ZeroTile(256, 0),
            "zero tile dimension (256, 0)",
        ),
        (
            PageHeader { color: Err(cause()), ..tiled() },
            PageError::Unreadable(HeaderField::Color, cause()),
            "colortype: unexpected end of file",
        ),
        (
            PageHeader { color: Ok(PageColor::Rgb(16)), ..tiled() },
            PageError::UnsupportedColor(PageColor::Rgb(16)),
            "unsupported color type RGB(16) (need RGB8 or RGBA8)",
        ),
        (
            PageHeader { color: Ok(gray()), ..tiled() },
            PageError::UnsupportedColor(gray()),
            "unsupported color type Gray(8) (need RGB8 or RGBA8)",
        ),
    ];
    for (page, error, text) in cases {
        let got = read_lod_metadata(&page).err().unwrap();
        assert_eq!(got, error);
        assert_eq!(got.message(), text);
    }
    // Colours read as the decoder names them.
    assert_eq!(format!("{:?}", ColorType::RGB(16)), "RGB(16)");
    assert_eq!(format!("{:?}", ColorType::RGBA(16)), "RGBA(16)");
    let rgba = PageError::UnsupportedColor(PageColor::Rgba(16));
    assert_eq!(rgba.message(), "unsupported color type RGBA(16) (need RGB8 or RGBA8)");
}

#[test]
fn a_scan_stops_at_the_first_broken_page() {
    let small = PageHeader {
        image_dims: Ok((500, 350)),
        ..tiled()
    };
    let stripped = PageHeader {
        tiled: false,
        ..tiled()
    };
    let lods = scan_lods(&[tiled(), small], PagesEnd::Complete).ok().unwrap();
    assert_eq!(lods.len(), 2);
    assert_eq!(lods[1].image_dims, (500, 350));
    let page = scan_lods(&[tiled(), stripped, tiled()], PagesEnd::Complete).err().unwrap();
    assert_eq!(
        page,
        ScanError::Page {
            page: 1,
            error: PageError::Stripped
        }
    );
    assert!(page.message().contains("stripped"));
    let end = PagesEnd::StepFailed("bad offset".to_string());
    let step = scan_lods(&[tiled()], end).err().unwrap();
    assert_eq!(
        step,
        ScanError::NextPage {
            page: 0,
            cause: "bad offset".to_string()
        }
    );
    assert_eq!(step.message(), "next_image during scan: bad offset");
}

fn lods() -> Vec<LodMetadata> {
    vec![read_lod_metadata(&tiled()).ok().unwrap()]
}

#[test]
fn tiles_are_planned_within_the_image() {
    let plan = plan_tile(&lods(), 0, 3, 2).ok().unwrap();
    assert_eq!(plan.index, 11);
    assert_eq!((plan.width, plan.height), (232, 188));
    assert_eq!(plan.expected_len, 232 * 188 * 3);
    let inner = plan_tile(&lods(), 0, 0, 0).ok().unwrap();
    assert_eq!((inner.width, inner.height), (256, 256));
    assert_eq!(
        plan_tile(&lods(), 1, 0, 0).err().unwrap(),
        TileError::NoSuchLod { lods: 1 }
    );
    let missing = plan_tile(&lods(), 0, 4, 0).err().unwrap();
    assert_eq!(missing, TileError::OutOfRange { across: 4, down: 3 });
    assert_eq!(missing.message(0, 4, 0), "tile (4,0) out of range at LOD 0 (4x3)");
    let level = TileError::NoSuchLod { lods: 10 };
    assert_eq!(level.message(12, 0, 0), "LOD 12 out of range (have 10)");
    let length = TileError::WrongLength {
        got: 3,
        expected: 130848,
    };
    assert_eq!(
        length.message(0, 3, 2),
        "tile (3,2) at LOD 0: decoded 3 bytes, expected 130848"
    );
}

#[test]
fn a_decoded_tile_has_the_planned_length() {
    let page = PageHeader {
        image_dims: Ok((2, 1)),
        ..tiled()
    };
    let plan = plan_tile(&[read_lod_metadata(&page).ok().unwrap()], 0, 0, 0).ok().unwrap();
    let tile = finish_tile(&plan, vec![1, 2, 3, 4, 5, 6]).ok().unwrap();
    assert_eq!(tile.rgba, vec![1, 2, 3, 255, 4, 5, 6, 255]);
    assert_eq!((tile.width, tile.height), (2, 1));
    assert_eq!(
        finish_tile(&plan, vec![1, 2, 3]).err().unwrap(),
        TileError::WrongLength {
            got: 3,
            expected: 6
        }
    );
}

#[test]
fn levels_are_reached_forwards() {
    assert_eq!(
        navigate_to_lod(1, 3),
        Navigation {
            reopen: false,
            steps: 2
        }
    );
    assert_eq!(
        navigate_to_lod(3, 1),
        Navigation {
            reopen: true,
            steps: 1
        }
    );
    assert_eq!(
        navigate_to_lod(2, 2),
        Navigation {
            reopen: false,
            steps: 0
        }
    );
    assert_eq!(bytes_per_pixel(TiffColor::Rgb8), 3);
    assert_eq!(bytes_per_pixel(TiffColor::Rgba8), 4);
}

#[test]
fn rgb_to_rgba8_upconverts_rgb() {
    let raw = vec![1, 2, 3, 4, 5, 6, 7, 8, 9];
    let out = rgb_to_rgba8(raw, TiffColor::Rgb8);
    assert_eq!(out, vec![1, 2, 3, 255, 4, 5, 6, 255, 7, 8, 9, 255]);
}

#[test]
fn rgb_to_rgba8_passes_rgba_through() {
    let raw = vec![10, 20, 30, 40, 50, 60, 70, 80];
    let out = rgb_to_rgba8(raw.clone(), TiffColor::Rgba8);
    assert_eq!(out, raw);
}
