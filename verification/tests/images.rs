use boardswarm::fastboot::{
    max_download_size, volume_targets, FastbootData, FastbootVolumeTarget, FastbootWrite,
    FlushStep, WriteAction, WriteEvent,
};
use boardswarm::images::{
    bmap_candidates, boot_header, find_bmap, is_compressed, AimgAction, AimgError, AimgWriter,
    BootEntries, RockDownload,
};
use boardswarm::status::{Code, Status};
use boardswarm::sparse::{ChunkHeader, ChunkType, FileHeader, ParseError};

fn data(writes: &[(u64, &[u8])]) -> FastbootData {
    let mut d = FastbootData::new();
    for (offset, bytes) in writes {
        let mut rest = bytes.to_vec();
        assert!(d.append(*offset, &mut rest, 1 << 20));
        assert!(rest.is_empty());
    }
    d
}

fn le32(n: u32) -> [u8; 4] {
    n.to_le_bytes()
}

#[test]
fn data_is_put_into_sparse_images() {
    let d = data(&[(0, &[1; 4096]), (8192, &[2; 10])]);
    assert_eq!(d.n_chunks(), 2);
    assert_eq!(d.flash_chunks(), 3);
    assert_eq!(d.expanded_blocks(), 3);
    assert!(d.is_ordered());
    let image = d.sparse_image();
    assert_eq!(image.len() as u64, d.flash_size());
    let mut expected = Vec::new();
    expected.extend(le32(0xed26ff3a));
    expected.extend([1, 0, 0, 0, 28, 0, 12, 0]);
    expected.extend(le32(4096));
    expected.extend(le32(3));
    expected.extend(le32(3));
    expected.extend(le32(0));
    expected.extend([0xc1, 0xca, 0, 0]);
    expected.extend(le32(1));
    expected.extend(le32(12 + 4096));
    expected.extend([1; 4096]);
    expected.extend([0xc3, 0xca, 0, 0]);
    expected.extend(le32(1));
    expected.extend(le32(12));
    expected.extend([0xc1, 0xca, 0, 0]);
    expected.extend(le32(1));
    expected.extend(le32(12 + 4096));
    expected.extend([2; 10]);
    expected.extend([0; 4086]);
    assert_eq!(image, expected);
}

#[test]
fn data_that_follows_is_joined() {
    let d = data(&[(4096, &[1; 100]), (4196, &[2; 100])]);
    assert_eq!(d.n_chunks(), 1);
    assert_eq!(d.flash_chunks(), 2);
    assert!(!d.is_empty());
    assert!(FastbootData::new().is_empty());
}

#[test]
fn full_data_takes_no_more() {
    let mut d = FastbootData::new();
    let mut rest = vec![7; 20000];
    assert!(d.append(0, &mut rest, 8192 + 28 + 24));
    assert_eq!(rest.len(), 20000 - 8192);
    assert!(d.append(8192, &mut rest, 8192 + 28 + 24));
    assert_eq!(rest.len(), 20000 - 8192);
    assert!(!d.append(4096, &mut rest, 1 << 20));
    assert!(!d.append(1 << 16, &mut rest, 8192 + 28 + 24));
}

#[test]
fn writes_are_flashed_when_there_is_enough() {
    let mut target = FastbootVolumeTarget::new(8192 + 8192);
    let mut rest = vec![3; 4096];
    assert!(target.write_step(&mut rest, 0).is_none());
    let mut rest = vec![4; 8192];
    let flash = target.write_step(&mut rest, 4096);
    assert!(flash.is_some());
    assert!(matches!(target.flush_step(), FlushStep::Ping));
    let mut rest = vec![4; 10];
    assert!(target.write_step(&mut rest, 0).is_none());
    assert!(matches!(target.flush_step(), FlushStep::Flash(d) if d.n_chunks() == 1));
    assert!(matches!(target.flush_step(), FlushStep::Ping));
}

#[test]
fn small_writes_are_answered_at_once() {
    let mut target = FastbootVolumeTarget::new(8192 + 16384);
    let mut write = FastbootWrite::new(vec![1; 100], 4096);
    let action = write.step(&mut target, WriteEvent::Begin);
    assert!(matches!(action, WriteAction::Complete(Ok(100))));
    let mut empty = FastbootWrite::new(vec![], 0);
    let action = empty.step(&mut target, WriteEvent::Begin);
    assert!(matches!(action, WriteAction::Complete(Ok(0))));
    assert!(matches!(target.flush_step(), FlushStep::Flash(d) if d.n_chunks() == 1));
    // Nothing is wrong with a device of low limits until it is written to.
    assert!(matches!(FastbootVolumeTarget::new(0).flush_step(), FlushStep::Ping));
}

fn flashes(write: &mut FastbootWrite, target: &mut FastbootVolumeTarget) -> Vec<Vec<u8>> {
    let mut images = Vec::new();
    let mut action = write.step(target, WriteEvent::Begin);
    while let WriteAction::Flash(data) = action {
        images.push(data.sparse_image());
        action = write.step(target, WriteEvent::Given);
    }
    assert!(matches!(action, WriteAction::Wait));
    images
}

#[test]
fn large_writes_wait_for_their_flashes() {
    let mut target = FastbootVolumeTarget::new(8192);
    let mut write = FastbootWrite::new([vec![1; 4096], vec![2; 4096]].concat(), 0);
    let images = flashes(&mut write, &mut target);
    assert_eq!(images.len(), 2);
    // Both go to the offset of the write.
    assert_eq!(images[0][40..4136], [1; 4096]);
    assert_eq!(images[1][40..4136], [2; 4096]);
    assert_eq!(images[0][..40], images[1][..40]);
    let action = write.step(&mut target, WriteEvent::Flashed);
    assert!(matches!(action, WriteAction::Wait));
    let action = write.step(&mut target, WriteEvent::Flashed);
    assert!(matches!(action, WriteAction::Complete(Ok(8192))));
}

#[test]
fn the_first_failure_answers_a_write() {
    let failure = || Status::new(Code::FailedPrecondition, "flash");
    let mut target = FastbootVolumeTarget::new(8192);
    let mut write = FastbootWrite::new(vec![1; 8192], 0);
    assert_eq!(flashes(&mut write, &mut target).len(), 2);
    write.step(&mut target, WriteEvent::Flashed);
    let action = write.step(&mut target, WriteEvent::Failed(failure()));
    assert!(matches!(action, WriteAction::Complete(Err(s)) if s.message == "flash"));
    let mut write = FastbootWrite::new(vec![1; 8192], 0);
    let action = write.step(&mut target, WriteEvent::Begin);
    assert!(matches!(action, WriteAction::Flash(_)));
    let action = write.step(&mut target, WriteEvent::NotGiven(failure()));
    assert!(matches!(action, WriteAction::Complete(Err(s)) if s.message == "flash"));
}

fn var(k: &str, v: &str) -> (String, String) {
    (k.to_string(), v.to_string())
}

#[test]
fn fastboot_variables_name_targets() {
    let vars = vec![
        var("partition-size:boot", "0x4000"),
        var("partition-size:data", "junk"),
        var("version", "0.4"),
    ];
    let targets = volume_targets(&vars, &vec!["boot".to_string(), "extra".to_string()]);
    let shown: Vec<_> = targets.iter().map(|t| (t.name.as_str(), t.size)).collect();
    assert_eq!(shown, [("boot", Some(0x4000)), ("data", None), ("extra", None)]);
    assert_eq!(max_download_size("0x10000000"), Some(0x1000_0000));
    assert_eq!(max_download_size("10000000"), None);
    assert_eq!(max_download_size("0x100000000"), None);
}

fn header(chunks: u32) -> [u8; 28] {
    let mut bytes = [0; 28];
    bytes[0..4].copy_from_slice(&le32(0xed26ff3a));
    bytes[4] = 1;
    bytes[8] = 28;
    bytes[10] = 12;
    bytes[12..16].copy_from_slice(&le32(4096));
    bytes[16..20].copy_from_slice(&le32(9));
    bytes[20..24].copy_from_slice(&le32(chunks));
    bytes
}

fn chunk(kind: u8, blocks: u32) -> [u8; 12] {
    let mut bytes = [0; 12];
    bytes[0] = kind;
    bytes[1] = 0xca;
    bytes[4..8].copy_from_slice(&le32(blocks));
    bytes
}

#[test]
fn sparse_images_are_written() {
    let mut writer = AimgWriter::new(&header(4)).unwrap();
    assert_eq!(
        writer.header,
        FileHeader { block_size: 4096, blocks: 9, chunks: 4, checksum: 0 }
    );
    assert_eq!(writer.next(), AimgAction::ReadChunkHeader);
    assert_eq!(writer.on_chunk_header(&chunk(0xc1, 2)), Ok(AimgAction::Copy(8192)));
    assert_eq!(writer.on_chunk_header(&chunk(0xc2, 1)), Ok(AimgAction::ReadFill));
    assert_eq!(writer.on_fill([1, 2, 3, 4]), AimgAction::Fill([1, 2, 3, 4], 1024));
    assert_eq!(writer.on_chunk_header(&chunk(0xc3, 3)), Ok(AimgAction::Seek(12288)));
    assert_eq!(writer.next(), AimgAction::ReadChunkHeader);
    assert_eq!(
        writer.on_chunk_header(&chunk(0xc5, 3)),
        Err(AimgError::ChunkHeader(ParseError::UnknownChunkType))
    );
    assert_eq!(writer.on_chunk_header(&chunk(0xc4, 0)), Ok(AimgAction::Skip));
    assert_eq!(writer.next(), AimgAction::Shutdown);
}

#[test]
fn other_images_are_refused() {
    let mut bytes = header(1);
    bytes[0] = 0;
    let refused = AimgWriter::new(&bytes).unwrap_err();
    assert_eq!(refused, AimgError::FileHeader(ParseError::UnknownMagic));
    assert_eq!(refused.message(), "Parsing android sparse image header");
    let mut bytes = header(1);
    bytes[4] = 2;
    assert_eq!(
        AimgWriter::new(&bytes).unwrap_err(),
        AimgError::FileHeader(ParseError::UnknownVersion)
    );
    let mut bytes = header(1);
    bytes[10] = 13;
    assert_eq!(
        AimgWriter::new(&bytes).unwrap_err(),
        AimgError::FileHeader(ParseError::UnexpectedSize)
    );
    assert_eq!(
        AimgError::ChunkHeader(ParseError::UnknownChunkType).message(),
        "Parsing chunk header"
    );
}

#[test]
fn an_image_that_was_made_is_written_back() {
    let d = data(&[(4096, &[1; 4096]), (12288, &[2; 5000])]);
    let image = d.sparse_image();
    let mut writer = AimgWriter::new(image[0..28].try_into().unwrap()).unwrap();
    let mut at = 28;
    let mut out = Vec::new();
    while writer.next() == AimgAction::ReadChunkHeader {
        let action = writer.on_chunk_header(image[at..at + 12].try_into().unwrap()).unwrap();
        at += 12;
        match action {
            AimgAction::Copy(n) => {
                out.extend_from_slice(&image[at..at + n as usize]);
                at += n as usize;
            }
            AimgAction::Seek(n) => out.resize(out.len() + n as usize, 0xee),
            _ => panic!("no such chunk was made"),
        }
    }
    assert_eq!(at, image.len());
    assert_eq!(out.len(), 5 * 4096);
    assert!(out[0..4096].iter().all(|b| *b == 0xee));
    assert!(out[4096..8192].iter().all(|b| *b == 1));
    assert!(out[12288..17288].iter().all(|b| *b == 2));
    assert!(out[17288..].iter().all(|b| *b == 0));
}

#[test]
fn chunk_headers_are_made() {
    assert_eq!(
        ChunkHeader::new_dontcare(5),
        ChunkHeader { chunk_type: ChunkType::DontCare, chunk_size: 5, total_size: 12 }
    );
    assert_eq!(
        ChunkHeader::new_raw(2, 4096),
        ChunkHeader { chunk_type: ChunkType::Raw, chunk_size: 2, total_size: 8204 }
    );
    assert_eq!(ChunkHeader::new_raw(u32::MAX, 4096).total_size, u32::MAX);
    let header = FileHeader { block_size: 512, blocks: 0, chunks: 0, checksum: 0 };
    assert_eq!(ChunkHeader::new_raw(3, 512).out_size(&header), 1536);
}

fn boot_file() -> [u8; 102] {
    let mut bytes = [0; 102];
    bytes[0..4].copy_from_slice(b"LDR ");
    bytes[25] = 2;
    bytes[26..30].copy_from_slice(&le32(0x66));
    bytes[30] = 57;
    bytes[31] = 1;
    bytes[32..36].copy_from_slice(&le32(0x100));
    bytes[36] = 57;
    bytes
}

fn boot_entry(name: &str) -> [u8; 57] {
    let mut bytes = [0; 57];
    for (i, unit) in name.encode_utf16().enumerate() {
        bytes[5 + 2 * i..7 + 2 * i].copy_from_slice(&unit.to_le_bytes());
    }
    bytes[45..49].copy_from_slice(&le32(0x1000));
    bytes[49..53].copy_from_slice(&le32(0x2000));
    bytes[53..57].copy_from_slice(&le32(7));
    bytes
}

#[test]
fn boot_files_are_transferred() {
    let header = boot_header(&boot_file()).unwrap();
    assert_eq!(header.entry_471, BootEntries { count: 2, offset: 0x66, size: 57 });
    assert_eq!(header.entry_472, BootEntries { count: 1, offset: 0x100, size: 57 });
    let mut other = boot_file();
    other[0] = b'X';
    assert_eq!(boot_header(&other).unwrap_err(), "Failed to parse header");
    let mut download = RockDownload::new(header.entry_471);
    assert_eq!(download.next(), Some(0x66));
    let blob = download.on_entry(&boot_entry("ddr😀")).unwrap();
    assert_eq!(blob.name.trim_end_matches('\0'), "ddr😀");
    assert_eq!((blob.offset, blob.length, blob.delay), (0x1000, 0x2000, 7));
    assert_eq!(download.next(), Some(0x66 + 57));
    let mut bad = boot_entry("");
    bad[5..7].copy_from_slice(&0xd800u16.to_le_bytes());
    assert!(download.on_entry(&bad).is_none());
    assert_eq!(download.next(), None);
}

#[test]
fn block_maps_are_found() {
    let names = bmap_candidates("out/image.img.gz");
    assert_eq!(
        names,
        ["out/image.img.gz.bmap", "out/image.img.bmap", "out/image.bmap"]
    );
    assert_eq!(bmap_candidates("out/"), ["out/.bmap"]);
    assert_eq!(bmap_candidates(""), [".bmap"]);
    assert_eq!(
        find_bmap(&names, &vec![false, true, true]),
        Some("out/image.img.bmap".to_string())
    );
    assert_eq!(find_bmap(&names, &vec![false; 3]), None);
    assert!(is_compressed("a.img.gz"));
    assert!(!is_compressed("a.img"));
    assert!(!is_compressed("gz"));
}
