use astroburst_server::fits::cards::{plain_card, quoted_card, write_header};
use astroburst_server::fits::extension::{
    keep_cards, write_extension, write_stub, ImageShape, RowScale,
};
use astroburst_server::fits::header::{parse_header_at, SourceHdu};
use astroburst_server::fits::mef_writer::{
    plan_file, quantized_tiles, scan_source_hdus, stored_tiles, write_compressed_mef, HduPlan,
    QuantizedUnit,
};
use astroburst_server::fits::rice::{rice_decode, RiceParams};

const BLOCK: usize = 2880;

fn card(key: &str, value: &str) -> Vec<u8> {
    let text = format!("{key:<8}= {value}");
    let mut bytes = text.into_bytes();
    bytes.resize(80, b' ');
    bytes
}

fn header_block(cards: &[(&str, String)]) -> Vec<u8> {
    let mut out = Vec::new();
    for (k, v) in cards {
        out.extend_from_slice(&card(k, v));
    }
    let mut end = b"END".to_vec();
    end.resize(80, b' ');
    out.extend_from_slice(&end);
    while out.len() % BLOCK != 0 {
        out.push(b' ');
    }
    out
}

fn f32_data_block(pixels: &[f32]) -> Vec<u8> {
    let mut out = Vec::with_capacity(pixels.len() * 4);
    for p in pixels {
        out.extend_from_slice(&p.to_be_bytes());
    }
    while out.len() % BLOCK != 0 {
        out.push(0);
    }
    out
}

fn i32_data_block(pixels: &[i32]) -> Vec<u8> {
    let mut out = Vec::with_capacity(pixels.len() * 4);
    for p in pixels {
        out.extend_from_slice(&p.to_be_bytes());
    }
    while out.len() % BLOCK != 0 {
        out.push(0);
    }
    out
}

/// A first unit without data but with an extra card, a float image with world coordinates, an
/// integer image, a float cube of three planes, and a small table.
fn synthetic_source() -> Vec<u8> {
    let (w, h) = (24usize, 16usize);
    let mut buf = header_block(&[
        ("SIMPLE", "T".into()),
        ("BITPIX", "8".into()),
        ("NAXIS", "0".into()),
        ("EXTEND", "T".into()),
        ("VERSION", "'6.4     '".into()),
    ]);
    let sci: Vec<f32> = (0..w * h).map(|i| 100.0 + (i as f32 * 0.07).sin() * 10.0).collect();
    buf.extend_from_slice(&header_block(&[
        ("XTENSION", "'IMAGE   '".into()),
        ("BITPIX", "-32".into()),
        ("NAXIS", "2".into()),
        ("NAXIS1", w.to_string()),
        ("NAXIS2", h.to_string()),
        ("PCOUNT", "0".into()),
        ("GCOUNT", "1".into()),
        ("EXTNAME", "'SCI     '".into()),
        ("CRPIX1", "12.5".into()),
        ("CRPIX2", "8.5".into()),
        ("CTYPE1", "'RA---TAN'".into()),
        ("CTYPE2", "'DEC--TAN'".into()),
    ]));
    buf.extend_from_slice(&f32_data_block(&sci));
    let mut flags = vec![0i32; w * h];
    flags[5] = 1 << 3;
    flags[40] = (1 << 7) | (1 << 2);
    flags[200] = 1 << 15;
    buf.extend_from_slice(&header_block(&[
        ("XTENSION", "'IMAGE   '".into()),
        ("BITPIX", "32".into()),
        ("NAXIS", "2".into()),
        ("NAXIS1", w.to_string()),
        ("NAXIS2", h.to_string()),
        ("PCOUNT", "0".into()),
        ("GCOUNT", "1".into()),
        ("EXTNAME", "'FLAGS   '".into()),
    ]));
    buf.extend_from_slice(&i32_data_block(&flags));
    let (cw, ch, cn) = (8usize, 6usize, 3usize);
    let cube: Vec<f32> = (0..cw * ch * cn).map(|i| (i as f32) * 0.5 - 3.0).collect();
    buf.extend_from_slice(&header_block(&[
        ("XTENSION", "'IMAGE   '".into()),
        ("BITPIX", "-32".into()),
        ("NAXIS", "3".into()),
        ("NAXIS1", cw.to_string()),
        ("NAXIS2", ch.to_string()),
        ("NAXIS3", cn.to_string()),
        ("PCOUNT", "0".into()),
        ("GCOUNT", "1".into()),
        ("EXTNAME", "'CUBE    '".into()),
    ]));
    buf.extend_from_slice(&f32_data_block(&cube));
    buf.extend_from_slice(&header_block(&[
        ("XTENSION", "'BINTABLE'".into()),
        ("BITPIX", "8".into()),
        ("NAXIS", "2".into()),
        ("NAXIS1", "4".into()),
        ("NAXIS2", "1".into()),
        ("PCOUNT", "0".into()),
        ("GCOUNT", "1".into()),
        ("TFIELDS", "1".into()),
        ("EXTNAME", "'AUX     '".into()),
        ("TTYPE1", "'X       '".into()),
        ("TFORM1", "'1J      '".into()),
    ]));
    buf.extend_from_slice(&i32_data_block(&[42]));
    buf
}

/// Rows of floats as integers, a step apart of a sixteenth.
fn quantize(bytes: &[u8], plan: &HduPlan) -> QuantizedUnit {
    let mut unit = QuantizedUnit { rows: Vec::new(), scales: Vec::new() };
    if let HduPlan::Quantized { width, start, end, .. } = *plan {
        let values: Vec<f32> = bytes[start..end]
            .chunks_exact(4)
            .map(|c| f32::from_be_bytes([c[0], c[1], c[2], c[3]]))
            .collect();
        for row in values.chunks_exact(width) {
            let zero = row.iter().copied().fold(f32::INFINITY, f32::min) as f64;
            let ints = row.iter().map(|v| ((*v as f64 - zero) * 16.0).round() as i64).collect();
            unit.rows.push(ints);
            unit.scales
                .push(RowScale { scale: (1.0f64 / 16.0).to_bits(), zero: zero.to_bits() });
        }
    }
    unit
}

fn compressed() -> (Vec<u8>, Vec<u8>) {
    let source = synthetic_source();
    let plans = plan_file(&source).unwrap();
    let units: Vec<QuantizedUnit> = plans.iter().map(|p| quantize(&source, p)).collect();
    let out = write_compressed_mef(&source, &units).unwrap();
    (source, out)
}

fn number(bytes: &[u8]) -> u64 {
    bytes.iter().fold(0, |n, b| n * 256 + *b as u64)
}

/// Each row of a compressed unit, with the numbers behind its descriptor.
fn decode_rows(out: &[u8], hdu: &SourceHdu, params: &RiceParams) -> Vec<(Vec<i64>, Vec<u64>)> {
    let get = |key: &str| hdu.header.get_i64(key).unwrap() as usize;
    let (width, rows) = (get("NAXIS1"), get("NAXIS2"));
    assert!(hdu.header.get("TFORM1").unwrap().starts_with("1PB("));
    let table = &out[hdu.data_start..];
    let heap = &table[rows * width..rows * width + get("PCOUNT")];
    (0..rows)
        .map(|i| {
            let row = &table[i * width..(i + 1) * width];
            let (len, start) = (number(&row[..4]) as usize, number(&row[4..8]) as usize);
            let pixels = rice_decode(&heap[start..start + len], get("ZNAXIS1"), params);
            (pixels, row[8..].chunks_exact(8).map(number).collect())
        })
        .collect()
}

fn decode_floats(out: &[u8], hdu: &SourceHdu) -> Vec<f64> {
    let params = RiceParams { blocksize: 32, bytepix: 4, signed: true };
    let mut all = Vec::new();
    for (pixels, numbers) in decode_rows(out, hdu, &params) {
        let (scale, zero) = (f64::from_bits(numbers[0]), f64::from_bits(numbers[1]));
        all.extend(pixels.into_iter().map(|v| v as f64 * scale + zero));
    }
    all
}

#[test]
fn write_compressed_mef_full_roundtrip() {
    let (source_bytes, out_bytes) = compressed();

    // The first unit keeps its extra card.
    let primary = parse_header_at(&out_bytes, 0).unwrap();
    assert_eq!(primary.header.get("SIMPLE").map(|v| v.trim()), Some("T"));
    assert_eq!(primary.header.get("VERSION").map(|v| v.trim()), Some("6.4"));

    // SCI is quantized, with its world coordinates.
    let hdu1 = parse_header_at(&out_bytes, primary.next_hdu_offset).unwrap();
    assert_eq!(hdu1.header.get("ZCMPTYPE"), Some("RICE_1"));
    assert_eq!(hdu1.header.get("ZQUANTIZ"), Some("SUBTRACTIVE_DITHER_1"));
    assert_eq!(hdu1.header.get("EXTNAME").map(|v| v.trim()), Some("SCI"));
    assert_eq!(hdu1.header.get("CRPIX1").and_then(|v| v.parse().ok()), Some(12.5f64));
    let sci_decoded = decode_floats(&out_bytes, &hdu1);
    let sci_original: Vec<f32> =
        (0..24 * 16).map(|i| 100.0 + (i as f32 * 0.07).sin() * 10.0).collect();
    assert_eq!(sci_decoded.len(), sci_original.len());
    for (o, d) in sci_original.iter().zip(sci_decoded.iter()) {
        assert!((*o as f64 - d).abs() < 2.0, "SCI mismatch: {o} vs {d}");
    }

    // FLAGS is not quantized, and exact.
    let hdu2 = parse_header_at(&out_bytes, hdu1.next_hdu_offset).unwrap();
    assert_eq!(hdu2.header.get("ZCMPTYPE"), Some("RICE_1"));
    assert!(hdu2.header.get("ZQUANTIZ").is_none(), "FLAGS must not be quantized");
    assert_eq!(hdu2.header.get_i64("ZBITPIX"), Some(32));
    assert_eq!(hdu2.header.get("EXTNAME").map(|v| v.trim()), Some("FLAGS"));
    let params = RiceParams { blocksize: 32, bytepix: 4, signed: true };
    let mut flags_decoded = Vec::new();
    for (pixels, numbers) in decode_rows(&out_bytes, &hdu2, &params) {
        assert!(numbers.is_empty());
        flags_decoded.extend(pixels);
    }
    let mut flags_original = vec![0i64; 24 * 16];
    flags_original[5] = 1 << 3;
    flags_original[40] = (1 << 7) | (1 << 2);
    flags_original[200] = 1 << 15;
    assert_eq!(flags_decoded, flags_original, "FLAGS must round-trip exactly");

    // CUBE has three planes.
    let hdu3 = parse_header_at(&out_bytes, hdu2.next_hdu_offset).unwrap();
    assert_eq!(hdu3.header.get_i64("ZNAXIS"), Some(3));
    assert_eq!(hdu3.header.get_i64("ZNAXIS3"), Some(3));
    assert_eq!(hdu3.header.get("EXTNAME").map(|v| v.trim()), Some("CUBE"));
    let cube_decoded = decode_floats(&out_bytes, &hdu3);
    let planes: Vec<&[f64]> = cube_decoded.chunks_exact(8 * 6).collect();
    assert_eq!(planes.len(), 3);
    let cube_original: Vec<f32> = (0..8 * 6 * 3).map(|i| (i as f32) * 0.5 - 3.0).collect();
    for (p, plane) in planes.iter().enumerate() {
        for (i, &d) in plane.iter().enumerate() {
            let o = cube_original[p * 8 * 6 + i];
            assert!((o as f64 - d).abs() < 2.0, "CUBE plane {p} mismatch: {o} vs {d}");
        }
    }

    // AUX is copied byte for byte.
    let hdu4 = parse_header_at(&out_bytes, hdu3.next_hdu_offset).unwrap();
    assert_eq!(hdu4.header.get("XTENSION").map(|v| v.trim()), Some("BINTABLE"));
    assert_eq!(hdu4.header.get("EXTNAME").map(|v| v.trim()), Some("AUX"));
    let src_primary = parse_header_at(&source_bytes, 0).unwrap();
    let src_hdu1 = parse_header_at(&source_bytes, src_primary.next_hdu_offset).unwrap();
    let src_hdu2 = parse_header_at(&source_bytes, src_hdu1.next_hdu_offset).unwrap();
    let src_hdu3 = parse_header_at(&source_bytes, src_hdu2.next_hdu_offset).unwrap();
    let src_hdu4 = parse_header_at(&source_bytes, src_hdu3.next_hdu_offset).unwrap();
    assert_eq!(
        &out_bytes[hdu4.header_start..hdu4.next_hdu_offset],
        &source_bytes[src_hdu4.header_start..src_hdu4.next_hdu_offset],
        "AUX BinTable must be passed through byte-identical"
    );
}

#[test]
fn the_copy_has_the_units_of_the_source() {
    let (source, out) = compressed();
    let copies = scan_source_hdus(&out).unwrap();
    assert_eq!(copies.len(), scan_source_hdus(&source).unwrap().len());
    assert_eq!(copies[4].next_hdu_offset, out.len());
    assert_eq!(copies[0].data_start, copies[0].next_hdu_offset);
    // A copy is compressed already: its units are copied as they are.
    let again: Vec<HduPlan> = plan_file(&out).unwrap();
    assert!(again.iter().all(|p| matches!(p, HduPlan::Verbatim { .. })));
    // What says how an image is stored is written anew, and once.
    let flags = &copies[2].header;
    let count = |key: &str| flags.cards.iter().filter(|c| c.key == key).count();
    assert_eq!((count("BITPIX"), count("NAXIS1"), count("XTENSION")), (1, 1, 1));
    assert_eq!(flags.get("XTENSION"), Some("BINTABLE"));
    assert_eq!(flags.get_i64("BITPIX"), Some(8));
    assert_eq!((flags.get_i64("ZNAXIS1"), flags.get_i64("ZNAXIS2")), (Some(24), Some(16)));
    assert_eq!((flags.get_i64("ZTILE1"), flags.get_i64("ZTILE2")), (Some(24), Some(1)));
    assert_eq!((flags.get_i64("ZVAL1"), flags.get_i64("ZVAL2")), (Some(32), Some(4)));
    assert_eq!(flags.get_i64("TFIELDS"), Some(1));
    assert_eq!(copies[1].header.get_i64("TFIELDS"), Some(3));
    assert_eq!(copies[1].header.get_i64("ZBLANK"), Some(-2147483648));
    assert_eq!(copies[1].header.get_i64("ZBITPIX"), Some(-32));
}

#[test]
fn a_file_that_cannot_be_scanned_has_no_copy() {
    assert_eq!(write_compressed_mef(&[], &vec![]).unwrap_err(), "No HDUs found in source file");
    let mut source = synthetic_source();
    // The integers of the third unit are cut off.
    source.truncate(BLOCK * 4 + 1000);
    let units: Vec<QuantizedUnit> = (0..2)
        .map(|_| QuantizedUnit { rows: Vec::new(), scales: Vec::new() })
        .collect();
    assert_eq!(
        write_compressed_mef(&source, &units).unwrap_err(),
        "HDU data exceeds file size (EXTNAME=Some(\"FLAGS\"))"
    );
}

#[test]
fn cards_are_written_in_columns() {
    let plain = plain_card("BITPIX", "-32");
    assert_eq!(plain.len(), 80);
    assert_eq!(&plain[..30], b"BITPIX  =                  -32");
    assert!(plain[30..].iter().all(|b| *b == b' '));
    let quoted = quoted_card("ZCMPTYPE", "RICE_1");
    assert_eq!(&quoted[..18], b"ZCMPTYPE= 'RICE_1'");
    let header = write_header(&vec![plain_card("SIMPLE", "T"), plain_card("NAXIS", "0")]);
    assert_eq!(header.len(), BLOCK);
    assert_eq!(&header[160..168], b"END     ");
    let read = parse_header_at(&header, 0).unwrap();
    assert_eq!((read.header.get("SIMPLE"), read.header.get_i64("NAXIS")), (Some("T"), Some(0)));
    assert_eq!(read.next_hdu_offset, BLOCK);
}

#[test]
fn cards_are_carried_over() {
    let source = header_block(&[
        ("SIMPLE", "T".into()),
        ("NAXIS7", "3".into()),
        ("ZQUANTIZ", "'OLD'".into()),
        ("BZERO", "32768".into()),
        ("EXTNAME", "'IT''S'".into()),
    ]);
    let names = |quantized: bool| -> Vec<String> {
        keep_cards(&source, 0, quantized)
            .iter()
            .map(|c| String::from_utf8_lossy(&c[..8]).trim().to_string())
            .collect()
    };
    assert_eq!(names(false), vec!["BZERO", "EXTNAME"]);
    assert_eq!(names(true), vec!["EXTNAME"]);
    let stub = parse_header_at(&write_stub(&source), 0).unwrap();
    assert_eq!(stub.header.get("EXTNAME"), Some("IT'S"));
    assert_eq!(stub.header.get_i64("NAXIS"), Some(0));
    assert!(stub.header.get("NAXIS7").is_none());
    assert_eq!(stub.next_hdu_offset, BLOCK);
    // Bytes that hold no header carry nothing over.
    assert!(keep_cards(&source[..400], 0, false).is_empty());
}

#[test]
fn tiles_of_planes_follow_one_another() {
    // Two planes of two rows of three bytes, behind one byte.
    let bytes: Vec<u8> = vec![99, 1, 2, 3, 4, 5, 6, 7, 8, 9, 10, 11, 12];
    let image = ImageShape { width: 3, height: 2, planes: 2, bitpix: 8 };
    let params = RiceParams { blocksize: 32, bytepix: 1, signed: false };
    let rows: Vec<Vec<i64>> =
        stored_tiles(&bytes, 1, &image).iter().map(|t| rice_decode(t, 3, &params)).collect();
    assert_eq!(rows, vec![vec![1, 2, 3], vec![4, 5, 6], vec![7, 8, 9], vec![10, 11, 12]]);
    let empty = ImageShape { width: 0, height: 2, planes: 2, bitpix: 8 };
    assert!(stored_tiles(&bytes, 1, &empty).is_empty());
    let quantized = ImageShape { width: 2, height: 1, planes: 1, bitpix: -32 };
    let tiles = quantized_tiles(&vec![vec![-5, 70000]], &quantized);
    let params = RiceParams { blocksize: 32, bytepix: 4, signed: true };
    assert_eq!(rice_decode(&tiles[0], 2, &params), vec![-5, 70000]);
    // The scale and the zero point stand behind the descriptor, bit for bit.
    let scales = vec![RowScale { scale: 0x0102030405060708, zero: 0x1112131415161718 }];
    let piece =
        write_extension(&header_block(&[]), 0, &quantized, &tiles, Some(&scales)).unwrap();
    let hdu = parse_header_at(&piece, 0).unwrap();
    assert_eq!(hdu.next_hdu_offset, piece.len());
    let rows = decode_rows(&piece, &hdu, &params);
    assert_eq!(rows, vec![(vec![-5, 70000], vec![0x0102030405060708, 0x1112131415161718])]);
}
