use std::io::Write;

use liveiso::archive::{
    decompress, detect_compression, extract_cpio, find_entry, make_cpio, Compression,
};
use liveiso::config::{output_mode, IsoConfig, OutputMode};
use liveiso::error::Error;
use liveiso::header::{read_u64_le, IgnitionHeader, KargEmbedAreas};
use liveiso::kargs::decode_area;
use liveiso::region::Region;
use liveiso::stream::{plan_stream, StreamPlan, StreamStep};

fn run_steps(regions: &[Region], steps: &[StreamStep], src: &[u8]) -> Vec<u8> {
    let mut out = Vec::new();
    let mut pos = 0usize;
    for step in steps {
        match *step {
            StreamStep::Copy(n) => {
                out.extend_from_slice(&src[pos..pos + n as usize]);
                pos += n as usize;
            }
            StreamStep::Emit(i) => out.extend_from_slice(&regions[i].contents),
            StreamStep::Skip(n) => pos += n as usize,
        }
    }
    out.extend_from_slice(&src[pos.min(src.len())..]);
    out
}

fn write_in_place(regions: &[Region], src: &[u8]) -> Vec<u8> {
    let mut img = src.to_vec();
    for r in regions {
        let off = r.offset as usize;
        img[off..off + r.length].copy_from_slice(&r.contents);
    }
    img
}

fn region(offset: u64, contents: &[u8]) -> Region {
    Region { offset, length: contents.len(), contents: contents.to_vec() }
}

fn le(v: u64) -> [u8; 8] {
    v.to_le_bytes()
}

fn ignition_header(offset: u64, length: u64) -> Vec<u8> {
    let mut h = b"coreiso+".to_vec();
    h.extend_from_slice(&le(offset));
    h.extend_from_slice(&le(length));
    h
}

fn karg_header(length: u64, default: u64, offsets: &[u64]) -> Vec<u8> {
    let mut h = b"coreKarg".to_vec();
    h.extend_from_slice(&le(length));
    h.extend_from_slice(&le(default));
    for i in 0..6 {
        h.extend_from_slice(&le(*offsets.get(i).unwrap_or(&0)));
    }
    h
}

fn karg_area(text: &str, length: usize) -> Vec<u8> {
    let mut v = text.as_bytes().to_vec();
    v.resize(length, b'#');
    v
}

fn empty_config(capacity: usize) -> IsoConfig {
    IsoConfig::new(region(4096, &vec![0u8; capacity]), None, None)
}

#[test]
fn test_cpio_roundtrip() {
    let input = r#"{}"#;
    let cpio = make_cpio(input.as_bytes()).unwrap();
    let output = extract_cpio(&cpio).unwrap();
    assert_eq!(input.as_bytes(), output.as_slice());
}

#[test]
fn archive_round_trip_binary_and_empty() {
    for input in [vec![], vec![0u8, 255, 7, 0, 0], (0..5000u32).map(|i| (i % 251) as u8).collect()] {
        let cpio = make_cpio(&input).unwrap();
        assert_eq!(extract_cpio(&cpio).unwrap(), input);
    }
}

#[test]
fn archive_is_xz_wrapping_newc() {
    let cpio = make_cpio(b"{}").unwrap();
    assert_eq!(detect_compression(&cpio), Compression::Xz);
    assert_ne!(cpio, b"{}".to_vec());
    let plain = decompress(&cpio).unwrap();
    assert_eq!(&plain[..6], b"070701");
    assert_eq!(find_entry(&plain, "config.ign").unwrap(), b"{}".to_vec());
    assert_eq!(find_entry(&plain, "other"), Err(Error::ConfigNotInArchive));
}

#[test]
fn archive_with_zero_padding_still_extracts() {
    let mut cpio = make_cpio(b"{\"ignition\":{}}").unwrap();
    cpio.resize(cpio.len() + 1000, 0);
    assert_eq!(extract_cpio(&cpio).unwrap(), b"{\"ignition\":{}}".to_vec());
}

#[test]
fn legacy_gzip_archive_extracts() {
    let entry = (
        cpio::NewcBuilder::new("config.ign").mode(0o100_644),
        std::io::Cursor::new(b"{}".to_vec()),
    );
    let newc = cpio::write_cpio(vec![entry].into_iter(), Vec::new()).unwrap();
    let mut gz = flate2::write::GzEncoder::new(Vec::new(), flate2::Compression::default());
    gz.write_all(&newc).unwrap();
    let gz = gz.finish().unwrap();
    assert_eq!(detect_compression(&gz), Compression::Gzip);
    assert_eq!(extract_cpio(&gz).unwrap(), b"{}".to_vec());
    assert_eq!(detect_compression(&newc), Compression::Plain);
    assert_eq!(extract_cpio(&newc).unwrap(), b"{}".to_vec());
}

#[test]
fn archive_without_config_is_refused() {
    let entry = (cpio::NewcBuilder::new("other.ign").mode(0o100_644), std::io::Cursor::new(b"x".to_vec()));
    let newc = cpio::write_cpio(vec![entry].into_iter(), Vec::new()).unwrap();
    assert_eq!(extract_cpio(&newc), Err(Error::ConfigNotInArchive));
    assert_eq!(extract_cpio(b"garbage"), Err(Error::ArchiveRead));
    assert_eq!(extract_cpio(&[0xFD, 0x37, 0x7A, 0x58, 0x5A, 0x00, 1, 2]), Err(Error::ArchiveRead));
}

#[test]
fn embed_then_show() {
    let mut iso = empty_config(1024);
    assert!(!iso.have_ignition());
    let cpio = make_cpio(b"{}").unwrap();
    iso.embed_ignition(false, &cpio).unwrap();
    assert!(iso.have_ignition());
    assert_eq!(iso.ignition().len(), 1024);
    assert_eq!(&iso.ignition()[..cpio.len()], cpio.as_slice());
    assert_eq!(iso.ignition_config().unwrap(), b"{}".to_vec());
}

#[test]
fn re_embed_without_force_fails_unchanged() {
    let mut iso = empty_config(1024);
    iso.set_ignition(&make_cpio(b"{\"a\":1}").unwrap()).unwrap();
    let before = iso.ignition().to_vec();
    let other = make_cpio(b"{}").unwrap();
    assert_eq!(iso.embed_ignition(false, &other), Err(Error::AlreadyEmbedded));
    assert_eq!(iso.ignition(), before.as_slice());
    iso.embed_ignition(true, &other).unwrap();
    assert_eq!(iso.ignition_config().unwrap(), b"{}".to_vec());
}

#[test]
fn show_empty_area_fails() {
    let iso = empty_config(64);
    assert_eq!(iso.ignition_config(), Err(Error::NoIgnition));
}

#[test]
fn set_ignition_pads_and_enforces_capacity() {
    let mut iso = empty_config(8);
    iso.set_ignition(&[1, 2, 3]).unwrap();
    assert_eq!(iso.ignition(), &[1, 2, 3, 0, 0, 0, 0, 0]);
    assert_eq!(
        iso.set_ignition(&[9; 9]),
        Err(Error::IgnitionTooLarge { needed: 9, capacity: 8 })
    );
    assert_eq!(iso.ignition(), &[1, 2, 3, 0, 0, 0, 0, 0]);
    iso.set_ignition(&[7; 8]).unwrap();
    assert_eq!(iso.ignition(), &[7; 8]);
    iso.set_ignition(&[]).unwrap();
    assert!(!iso.have_ignition());
}

#[test]
fn kargs_need_karg_areas() {
    let mut iso = empty_config(8);
    assert_eq!(iso.kargs(), Err(Error::NoKargAreas));
    assert_eq!(iso.kargs_default(), Err(Error::NoKargAreas));
    assert_eq!(iso.set_kargs("quiet"), Err(Error::NoKargAreas));
    assert_eq!(iso.kargs(), Err(Error::NoKargAreas));
    let areas = KargEmbedAreas { length: 16, default_kargs_offset: 0, kargs_offsets: vec![100] };
    assert!(matches!(iso.stream_kargs(&areas), Err(Error::NoKargAreas)));
}

#[test]
fn set_kargs_keeps_default() {
    let mut iso = IsoConfig::new(region(0, &[0; 4]), Some("a".to_string()), Some("b".to_string()));
    assert_eq!(iso.kargs(), Ok("a"));
    iso.set_kargs("console=ttyS0").unwrap();
    assert_eq!(iso.kargs(), Ok("console=ttyS0"));
    assert_eq!(iso.kargs_default(), Ok("b"));
}

#[test]
fn region_validate() {
    assert_eq!(region(5, b"abc").validate(), Ok(()));
    let bad = Region { offset: 5, length: 4, contents: b"abc".to_vec() };
    assert_eq!(bad.validate(), Err(Error::RegionLength { expected: 4, found: 3 }));
}

#[test]
fn read_u64_le_value() {
    let b = vec![0xAA, 0x01, 0x02, 0x03, 0x04, 0x05, 0x06, 0x07, 0x08];
    assert_eq!(read_u64_le(&b, 1), 0x0807060504030201);
    assert_eq!(read_u64_le(&vec![0xFF; 8], 0), u64::MAX);
}

#[test]
fn ignition_header_parsing() {
    let h = IgnitionHeader::parse(&ignition_header(40000, 262144), 1 << 20).unwrap();
    assert_eq!(h, IgnitionHeader { offset: 40000, length: 262144 });
    let mut bad = ignition_header(40000, 10);
    bad[0] = b'x';
    assert_eq!(IgnitionHeader::parse(&bad, 1 << 20), Err(Error::UnrecognizedImage));
    assert_eq!(
        IgnitionHeader::parse(&ignition_header(1000, 100), 1050),
        Err(Error::IgnitionOutside { offset: 1000, length: 100, size: 1050 })
    );
    assert!(IgnitionHeader::parse(&ignition_header(u64::MAX, 2), u64::MAX).is_err());
    assert!(IgnitionHeader::parse(&ignition_header(950, 100), 1050).is_ok());
}

#[test]
fn karg_header_parsing_sorts_offsets() {
    let a = KargEmbedAreas::parse(&karg_header(1024, 5000, &[9000, 7000, 8000]), 20000).unwrap();
    assert_eq!(a.length, 1024);
    assert_eq!(a.default_kargs_offset, 5000);
    assert_eq!(a.kargs_offsets, vec![7000, 8000, 9000]);
    let six = KargEmbedAreas::parse(&karg_header(10, 1, &[60, 50, 40, 30, 20, 10]), 100).unwrap();
    assert_eq!(six.kargs_offsets, vec![10, 20, 30, 40, 50, 60]);
    let stop = KargEmbedAreas::parse(&karg_header(10, 1, &[60, 0, 40]), 100).unwrap();
    assert_eq!(stop.kargs_offsets, vec![60]);
}

#[test]
fn karg_header_errors() {
    let mut bad = karg_header(1024, 5000, &[7000]);
    bad[4] = b'k';
    assert_eq!(KargEmbedAreas::parse(&bad, 20000), Err(Error::NoKargAreas));
    assert_eq!(
        KargEmbedAreas::parse(&karg_header(2049, 5000, &[7000]), 20000),
        Err(Error::KargAreaTooLarge { max: 2048, declared: 2049 })
    );
    assert!(KargEmbedAreas::parse(&karg_header(2048, 5000, &[7000]), 20000).is_ok());
    assert_eq!(
        KargEmbedAreas::parse(&karg_header(1024, 19000, &[7000]), 20000),
        Err(Error::DefaultKargsOutside { offset: 19000, length: 1024, size: 20000 })
    );
    assert_eq!(
        KargEmbedAreas::parse(&karg_header(1024, 5000, &[7000, 19500]), 20000),
        Err(Error::KargsOutside { offset: 19500, length: 1024, size: 20000 })
    );
    assert_eq!(
        KargEmbedAreas::parse(&karg_header(1024, 5000, &[]), 20000),
        Err(Error::NoKargOffsets)
    );
    assert!(KargEmbedAreas::parse(&karg_header(1024, u64::MAX, &[7000]), u64::MAX).is_err());
}

#[test]
fn karg_magic_probe() {
    assert!(KargEmbedAreas::exists_in(&b"coreKarg".to_vec()));
    assert!(!KargEmbedAreas::exists_in(&b"coreiso+".to_vec()));
}

#[test]
fn karg_mismatch_names_both_values() {
    let areas = KargEmbedAreas { length: 16, default_kargs_offset: 10, kargs_offsets: vec![100, 200] };
    let r = areas.current_kargs(&vec![karg_area("a b\n", 16), karg_area("a c\n", 16)]);
    assert_eq!(
        r,
        Err(Error::KargsMismatch {
            first_offset: 100,
            first_value: "a b".to_string(),
            offset: 200,
            value: "a c".to_string(),
        })
    );
}

#[test]
fn karg_areas_agree() {
    let areas = KargEmbedAreas { length: 16, default_kargs_offset: 10, kargs_offsets: vec![100, 200] };
    let r = areas.current_kargs(&vec![karg_area("a b\n", 16), karg_area(" a b  \n", 16)]);
    assert_eq!(r, Ok("a b".to_string()));
    let bad = areas.current_kargs(&vec![karg_area("a b\n", 16), vec![0xFF; 16]]);
    assert_eq!(bad, Err(Error::InvalidUtf8));
}

#[test]
fn oversized_kargs() {
    let areas = KargEmbedAreas { length: 16, default_kargs_offset: 10, kargs_offsets: vec![100] };
    assert_eq!(
        areas.format_embed_area("console=ttyS0 quiet extra"),
        Err(Error::KargsTooLarge { needed: 26, capacity: 16 })
    );
}

#[test]
fn karg_format_exact() {
    let areas = KargEmbedAreas { length: 16, default_kargs_offset: 10, kargs_offsets: vec![100] };
    assert_eq!(areas.format_embed_area("  quiet  ").unwrap(), b"quiet\n##########".to_vec());
    assert_eq!(areas.format_embed_area("").unwrap(), b"\n###############".to_vec());
    // fifteen bytes and the newline fill the area exactly
    assert_eq!(areas.format_embed_area("abcdefghijklmno").unwrap(), b"abcdefghijklmno\n".to_vec());
    assert!(areas.format_embed_area("abcdefghijklmnop").is_err());
}

#[test]
fn karg_format_then_decode_round_trip() {
    let areas = KargEmbedAreas { length: 64, default_kargs_offset: 10, kargs_offsets: vec![100] };
    for s in ["console=ttyS0 quiet", "  a  b \t", "", "caf\u{e9}=\u{2003}x\u{a0}"] {
        let area = areas.format_embed_area(s).unwrap();
        assert_eq!(decode_area(area).unwrap(), s.trim());
    }
}

#[test]
fn decode_area_strips_padding_and_whitespace() {
    assert_eq!(decode_area(b"  ro quiet \n#####".to_vec()), Ok("ro quiet".to_string()));
    assert_eq!(decode_area(b"a#b###".to_vec()), Ok("a#b".to_string()));
    assert_eq!(decode_area(b"######".to_vec()), Ok("".to_string()));
    assert_eq!(decode_area(vec![b'a', 0xC3, b'#']), Err(Error::InvalidUtf8));
}

#[test]
fn stream_plan_matches_in_place_write() {
    let src: Vec<u8> = (0..200u32).map(|i| i as u8).collect();
    let regions = vec![region(150, b"XYZ"), region(10, b"abcd"), region(14, b""), region(14, b"qq")];
    let steps = plan_stream(&regions).unwrap();
    assert_eq!(run_steps(&regions, &steps, &src), write_in_place(&regions, &src));
    assert_eq!(
        steps,
        vec![
            StreamStep::Copy(10),
            StreamStep::Emit(1),
            StreamStep::Skip(4),
            StreamStep::Copy(0),
            StreamStep::Emit(2),
            StreamStep::Skip(0),
            StreamStep::Copy(0),
            StreamStep::Emit(3),
            StreamStep::Skip(2),
            StreamStep::Copy(134),
            StreamStep::Emit(0),
            StreamStep::Skip(3),
        ]
    );
    let plan = StreamPlan::new(regions.clone()).unwrap();
    assert_eq!(run_steps(&plan.regions, &plan.steps, &src), write_in_place(&regions, &src));
}

#[test]
fn stream_plan_refuses_overlap_and_bad_regions() {
    assert_eq!(
        plan_stream(&vec![region(10, b"abcd"), region(12, b"xy")]),
        Err(Error::RegionOrder { offset: 12, cursor: 14 })
    );
    assert_eq!(
        plan_stream(&vec![region(12, b"xy"), region(10, b"abcd")]),
        Err(Error::RegionOrder { offset: 12, cursor: 14 })
    );
    assert_eq!(
        plan_stream(&vec![region(0, b"a"), Region { offset: 5, length: 2, contents: vec![1] }]),
        Err(Error::RegionLength { expected: 2, found: 1 })
    );
    assert_eq!(
        plan_stream(&vec![region(u64::MAX - 1, b"abc")]),
        Err(Error::RegionEnd { offset: u64::MAX - 1, length: 3 })
    );
    assert_eq!(plan_stream(&vec![]), Ok(vec![]));
}

#[test]
fn write_and_stream_kargs_agree() {
    let mut src: Vec<u8> = vec![b'.'; 400];
    // the Ignition area as read from the image
    src[300..332].copy_from_slice(&[0; 32]);
    let areas = KargEmbedAreas { length: 16, default_kargs_offset: 10, kargs_offsets: vec![100, 200] };
    let mut iso = IsoConfig::new(region(300, &[0; 32]), Some("a".to_string()), Some("a".to_string()));
    iso.set_kargs("quiet").unwrap();
    let plan = iso.stream_kargs(&areas).unwrap();
    let streamed = run_steps(&plan.regions, &plan.steps, &src);
    let written = write_in_place(&iso.write(&Some(areas.clone())).unwrap(), &src);
    assert_eq!(streamed, written);
    assert_eq!(&streamed[100..116], b"quiet\n##########");
    assert_eq!(&streamed[200..216], b"quiet\n##########");
    let overlapping = KargEmbedAreas { length: 16, default_kargs_offset: 10, kargs_offsets: vec![100, 110] };
    assert!(matches!(iso.stream_kargs(&overlapping), Err(Error::RegionOrder { .. })));
}

#[test]
fn write_and_stream_ignition_agree() {
    let src: Vec<u8> = vec![7u8; 5000];
    let mut iso = IsoConfig::new(region(4096, &[0; 512]), None, None);
    iso.set_ignition(&make_cpio(b"{}").unwrap()).unwrap();
    let plan = iso.stream_ignition().unwrap();
    let streamed = run_steps(&plan.regions, &plan.steps, &src);
    let regions = iso.write(&None).unwrap();
    assert_eq!(regions.len(), 1);
    assert_eq!(streamed, write_in_place(&regions, &src));
    let mut touched = IsoConfig::new(region(0, &[0; 4]), Some("x".to_string()), Some("x".to_string()));
    assert_eq!(touched.write(&None).unwrap().len(), 1);
    touched.set_kargs("y").unwrap();
    assert!(matches!(touched.write(&None), Err(Error::NoKargAreas)));
}

#[test]
fn output_mode_choice() {
    assert_eq!(output_mode(None), OutputMode::InPlace);
    assert_eq!(output_mode(Some("-")), OutputMode::Stdout);
    assert_eq!(output_mode(Some("out.iso")), OutputMode::NewFile);
    assert_eq!(output_mode(Some("--")), OutputMode::NewFile);
    assert_eq!(output_mode(Some("")), OutputMode::NewFile);
}

#[test]
fn stream_ignition_refuses_area_past_largest_offset() {
    let iso = IsoConfig::new(region(u64::MAX - 1, &[0; 4]), None, None);
    assert!(matches!(iso.stream_ignition(), Err(Error::RegionEnd { .. })));
}

#[test]
fn write_leaves_untouched_kargs_alone() {
    let areas = KargEmbedAreas { length: 16, default_kargs_offset: 10, kargs_offsets: vec![100, 200] };
    let mut iso = IsoConfig::new(region(300, &[0; 32]), Some("a".to_string()), Some("a".to_string()));
    iso.set_ignition(&[1, 2, 3]).unwrap();
    let regions = iso.write(&Some(areas.clone())).unwrap();
    assert_eq!(regions.len(), 1);
    assert_eq!(regions[0].offset, 300);
    iso.set_kargs("a").unwrap();
    assert_eq!(iso.write(&Some(areas)).unwrap().len(), 3);
}

#[test]
fn show_corrupt_area_fails() {
    let iso = IsoConfig::new(region(0, &[0xFD, 0x37, 0x7A, 0x58, 0x5A, 0x00, 9, 9]), None, None);
    assert_eq!(iso.ignition_config(), Err(Error::ArchiveRead));
    let iso = IsoConfig::new(region(0, b"garbage!"), None, None);
    assert_eq!(iso.ignition_config(), Err(Error::ArchiveRead));
}

#[test]
fn karg_areas_with_one_invalid_report_utf8() {
    let areas = KargEmbedAreas { length: 4, default_kargs_offset: 10, kargs_offsets: vec![100, 200] };
    assert_eq!(areas.current_kargs(&vec![vec![0xFF; 4], karg_area("a\n", 4)]), Err(Error::InvalidUtf8));
}
