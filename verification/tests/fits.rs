use astroburst_server::fits::file_bytes::{io_mode, is_network_fs, prefer_mmap, IoMode};
use astroburst_server::fits::header::{parse_header_at, HduHeader, HeaderCard};
use astroburst_server::fits::mef_writer::{
    copy_verbatim, int_planes, is_compressed_image_hdu, is_image_extension, plan_file, plan_hdu,
    plan_mef, read_raw_ints_be, row_tiles, scan_source_hdus, HduPlan,
};
use astroburst_server::fits::rice::{rice_decode, RiceParams};

fn card(key: &str, value: &str) -> Vec<u8> {
    let text = format!("{key:<8}= {value}");
    let mut bytes = text.into_bytes();
    bytes.resize(80, b' ');
    bytes
}

fn header_block(cards: &[(&str, &str)]) -> Vec<u8> {
    let mut out = Vec::new();
    for (k, v) in cards {
        out.extend_from_slice(&card(k, v));
    }
    let mut end = b"END".to_vec();
    end.resize(80, b' ');
    out.extend_from_slice(&end);
    while out.len() % 2880 != 0 {
        out.push(b' ');
    }
    out
}

fn in_blocks(mut data: Vec<u8>) -> Vec<u8> {
    while data.len() % 2880 != 0 {
        data.push(0);
    }
    data
}

fn flags() -> Vec<i32> {
    let mut flags = vec![0i32; 24 * 16];
    flags[5] = 1 << 3;
    flags[40] = (1 << 7) | (1 << 2);
    flags[200] = 1 << 15;
    flags
}

/// A first unit without data, a float image, an integer image, a float cube and a table.
fn source() -> Vec<u8> {
    let mut buf = header_block(&[
        ("SIMPLE", "T"),
        ("BITPIX", "8"),
        ("NAXIS", "0"),
        ("EXTEND", "T"),
        ("VERSION", "'6.4     '"),
    ]);
    buf.extend(header_block(&[
        ("XTENSION", "'IMAGE   '"),
        ("BITPIX", "-32"),
        ("NAXIS", "2"),
        ("NAXIS1", "24"),
        ("NAXIS2", "16"),
        ("PCOUNT", "0"),
        ("GCOUNT", "1"),
        ("EXTNAME", "'SCI     '"),
    ]));
    buf.extend(in_blocks(vec![0; 24 * 16 * 4]));
    buf.extend(header_block(&[
        ("XTENSION", "'IMAGE   '"),
        ("BITPIX", "32"),
        ("NAXIS", "2"),
        ("NAXIS1", "24"),
        ("NAXIS2", "16"),
        ("PCOUNT", "0"),
        ("GCOUNT", "1"),
        ("EXTNAME", "'FLAGS   '"),
    ]));
    let mut data = Vec::new();
    for v in flags() {
        data.extend_from_slice(&v.to_be_bytes());
    }
    buf.extend(in_blocks(data));
    buf.extend(header_block(&[
        ("XTENSION", "'IMAGE   '"),
        ("BITPIX", "-32"),
        ("NAXIS", "3"),
        ("NAXIS1", "8"),
        ("NAXIS2", "6"),
        ("NAXIS3", "3"),
        ("PCOUNT", "0"),
        ("GCOUNT", "1"),
        ("EXTNAME", "'CUBE    '"),
    ]));
    buf.extend(in_blocks(vec![0; 8 * 6 * 3 * 4]));
    buf.extend(header_block(&[
        ("XTENSION", "'BINTABLE'"),
        ("BITPIX", "8"),
        ("NAXIS", "2"),
        ("NAXIS1", "4"),
        ("NAXIS2", "1"),
        ("PCOUNT", "0"),
        ("GCOUNT", "1"),
        ("TFIELDS", "1"),
        ("EXTNAME", "'AUX     '"),
    ]));
    buf.extend(in_blocks(vec![0, 0, 0, 42]));
    buf
}

fn header(cards: &[(&str, &str)]) -> HduHeader {
    HduHeader {
        cards: cards
            .iter()
            .map(|(k, v)| HeaderCard { key: k.to_string(), value: v.to_string() })
            .collect(),
    }
}

#[test]
fn io_mode_parses_expected_values() {
    assert_eq!("auto".parse::<IoMode>().unwrap(), IoMode::Auto);
    assert_eq!("MMAP".parse::<IoMode>().unwrap(), IoMode::Mmap);
    assert_eq!(" read ".parse::<IoMode>().unwrap(), IoMode::Read);
    assert!("fast".parse::<IoMode>().is_err());
}

#[test]
fn an_unreadable_mode_is_auto() {
    assert_eq!(io_mode(None), IoMode::Auto);
    assert_eq!(io_mode(Some("mmap")), IoMode::Mmap);
    assert_eq!(io_mode(Some("fast")), IoMode::Auto);
    assert_eq!(IoMode::Auto.name(), "auto");
    assert_eq!(IoMode::Mmap.name(), "mmap");
    assert_eq!(IoMode::Read.name(), "read");
}

#[test]
fn network_file_systems_are_read() {
    // NFS, and ext4.
    assert!(is_network_fs(Some(0x6969)));
    assert!(!is_network_fs(Some(0xef53)));
    assert!(!is_network_fs(None));
    assert!(!prefer_mmap(Some(0x6969), IoMode::Auto));
    assert!(prefer_mmap(Some(0xef53), IoMode::Auto));
    assert!(prefer_mmap(Some(0x6969), IoMode::Mmap));
    assert!(!prefer_mmap(Some(0xef53), IoMode::Read));
}

#[test]
fn headers_are_read() {
    let bytes = source();
    let first = parse_header_at(&bytes, 0).unwrap();
    assert_eq!(first.header.get("SIMPLE").map(|v| v.trim()), Some("T"));
    assert_eq!(first.header.get("VERSION").map(|v| v.trim()), Some("6.4"));
    assert_eq!((first.header_start, first.data_start, first.next_hdu_offset), (0, 2880, 2880));
    let second = parse_header_at(&bytes, 2880).unwrap();
    assert_eq!(second.header.get_i64("BITPIX"), Some(-32));
    assert_eq!(second.header.get_i64("EXTNAME"), None);
    assert_eq!(second.header.get("NONE"), None);
    // 24 * 16 * 4 bytes fill one block.
    assert_eq!(second.next_hdu_offset, 2880 + 2880 + 2880);
}

#[test]
fn a_header_without_an_end_is_an_error() {
    let bytes = vec![b' '; 2880];
    assert_eq!(parse_header_at(&bytes, 0).err().unwrap(), "no END card in FITS header");
    assert_eq!(scan_source_hdus(&bytes).err().unwrap(), "no END card in FITS header");
    let huge = header_block(&[
        ("BITPIX", "8"),
        ("NAXIS", "2"),
        ("NAXIS1", "9223372036854775807"),
        ("NAXIS2", "9223372036854775807"),
    ]);
    assert_eq!(parse_header_at(&huge, 0).err().unwrap(), "invalid data size in FITS header");
}

#[test]
fn a_file_without_units_is_an_error() {
    assert_eq!(scan_source_hdus(&[0; 100]).err().unwrap(), "No HDUs found in source file");
    assert_eq!(plan_file(&[]).err().unwrap(), "No HDUs found in source file");
}

#[test]
fn integers_are_read_as_they_are_stored() {
    assert_eq!(read_raw_ints_be(&[0, 255], 8).unwrap(), vec![0, 255]);
    assert_eq!(read_raw_ints_be(&[0xff, 0xfe, 1, 2, 9], 16).unwrap(), vec![-2, 258]);
    assert_eq!(
        read_raw_ints_be(&[0x80, 0, 0, 0, 0, 1, 0, 0], 32).unwrap(),
        vec![-2147483648, 65536]
    );
    assert_eq!(
        read_raw_ints_be(&[], 64).unwrap_err(),
        "read_raw_ints_be: unsupported integer BITPIX 64"
    );
    assert_eq!(
        read_raw_ints_be(&[], -32).unwrap_err(),
        "read_raw_ints_be: unsupported integer BITPIX -32"
    );
}

#[test]
fn images_are_told_from_tables() {
    assert!(is_image_extension(&header(&[("XTENSION", "Image  ")])));
    assert!(!is_image_extension(&header(&[("XTENSION", "BINTABLE")])));
    assert!(is_image_extension(&header(&[("NAXIS", "2")])));
    assert!(!is_image_extension(&header(&[("NAXIS", "0")])));
    assert!(!is_image_extension(&header(&[])));
    assert!(is_compressed_image_hdu(&header(&[("ZIMAGE", "T")])));
    assert!(!is_compressed_image_hdu(&header(&[("ZIMAGE", "F")])));
    assert!(!is_compressed_image_hdu(&header(&[])));
}

#[test]
fn every_unit_is_planned() {
    let bytes = source();
    let hdus = scan_source_hdus(&bytes).unwrap();
    assert_eq!(hdus.len(), 5);
    // The units follow one another.
    for i in 1..5 {
        assert_eq!(hdus[i - 1].next_hdu_offset, hdus[i].header_start);
    }
    let plans = plan_file(&bytes).unwrap();
    assert_eq!(plans, plan_mef(&hdus, bytes.len()).unwrap());
    let start = hdus[1].data_start;
    assert_eq!(
        plans[0],
        HduPlan::Quantized {
            width: 24,
            height: 16,
            planes: 1,
            start,
            end: start + 1536,
            bitpix: -32
        }
    );
    let start = hdus[2].data_start;
    assert_eq!(
        plans[1],
        HduPlan::Lossless {
            width: 24,
            height: 16,
            planes: 1,
            start,
            end: start + 1536,
            bitpix: 32
        }
    );
    let start = hdus[3].data_start;
    assert_eq!(
        plans[2],
        HduPlan::Quantized { width: 8, height: 6, planes: 3, start, end: start + 576, bitpix: -32 }
    );
    assert_eq!(plans[3], HduPlan::Verbatim { start: hdus[4].header_start, end: bytes.len() });
    assert_eq!(copy_verbatim(&bytes, &hdus[4]), &bytes[hdus[4].header_start..]);
}

#[test]
fn integer_images_survive_compression() {
    let bytes = source();
    let hdus = scan_source_hdus(&bytes).unwrap();
    let planes = int_planes(&bytes, 24, 16, 1, hdus[2].data_start, 32);
    let want: Vec<i64> = flags().iter().map(|v| *v as i64).collect();
    assert_eq!(planes, vec![want.clone()]);
    let params = RiceParams { blocksize: 32, bytepix: 4, signed: true };
    let tiles = row_tiles(&planes[0], 24, &params);
    assert_eq!(tiles.len(), 16);
    let mut back = Vec::new();
    for tile in &tiles {
        back.extend(rice_decode(tile, 24, &params));
    }
    assert_eq!(back, want);
}

#[test]
fn planes_follow_one_another() {
    let bytes = vec![9, 1, 2, 3, 4, 5, 6, 7, 8];
    assert_eq!(int_planes(&bytes, 2, 1, 4, 1, 8), vec![vec![1, 2], vec![3, 4], vec![5, 6], vec![7, 8]]);
    assert!(int_planes(&bytes, 2, 2, 0, 0, 8).is_empty());
}

#[test]
fn units_that_cannot_be_planned_are_errors() {
    let bytes = source();
    let mut hdus = scan_source_hdus(&bytes).unwrap();
    let end = hdus[2].data_start + 1535;
    assert_eq!(
        plan_hdu(&hdus[2], end).unwrap_err(),
        "HDU data exceeds file size (EXTNAME=Some(\"FLAGS\"))"
    );
    // The first refusal is the one reported.
    assert_eq!(
        plan_mef(&hdus, end).unwrap_err(),
        "HDU data exceeds file size (EXTNAME=Some(\"FLAGS\"))"
    );
    hdus[2].header =
        header(&[("XTENSION", "IMAGE"), ("NAXIS", "2"), ("NAXIS1", "24"), ("NAXIS2", "16")]);
    assert_eq!(plan_hdu(&hdus[2], bytes.len()).unwrap_err(), "Missing BITPIX");
    hdus[2].header = header(&[("NAXIS", "2"), ("NAXIS1", "9"), ("NAXIS2", "9"), ("BITPIX", "64")]);
    assert_eq!(
        plan_hdu(&hdus[2], bytes.len()).unwrap_err(),
        "read_raw_ints_be: unsupported integer BITPIX 64"
    );
    hdus[2].header =
        header(&[("NAXIS", "2"), ("NAXIS1", "9999"), ("NAXIS2", "9999"), ("BITPIX", "8")]);
    assert_eq!(
        plan_hdu(&hdus[2], bytes.len()).unwrap_err(),
        "HDU data exceeds file size (EXTNAME=None)"
    );
    // A cube of more than three axes, and an image compressed before, are copied.
    hdus[2].header = header(&[("NAXIS", "4"), ("BITPIX", "8")]);
    assert!(matches!(plan_hdu(&hdus[2], bytes.len()), Ok(HduPlan::Verbatim { .. })));
    hdus[2].header = header(&[("XTENSION", "IMAGE"), ("NAXIS", "2"), ("ZIMAGE", "T")]);
    assert!(matches!(plan_hdu(&hdus[2], bytes.len()), Ok(HduPlan::Verbatim { .. })));
}
