use std::io::Read;

use dtar::codec::{FileEncoder, TarOutput};
use dtar::TarError;

fn checksum_recomputed(header: &[u8]) -> u64 {
    let mut sum: u64 = 0;
    for (i, b) in header.iter().enumerate() {
        if (148..156).contains(&i) {
            sum += 32;
        } else {
            sum += *b as u64;
        }
    }
    sum
}

fn parse_octal(field: &[u8]) -> u64 {
    let mut v: u64 = 0;
    for b in field {
        assert!((48..56).contains(b), "not an octal digit: {}", b);
        v = v * 8 + (*b - 48) as u64;
    }
    v
}

#[test]
fn dir_header_fields() {
    let name = b"mydir/".to_vec();
    let out = TarOutput::tar_write_dir(&name);
    assert_eq!(out.len(), 512);
    assert_eq!(&out[0..6], b"mydir/");
    assert!(out[6..100].iter().all(|b| *b == 0));
    assert_eq!(&out[100..108], b"0000755\x00");
    assert_eq!(&out[108..116], b"0000000\x00");
    assert_eq!(&out[116..124], b"0000000\x00");
    assert_eq!(&out[124..136], b"00000000000\x00");
    assert_eq!(out[156], b'5');
    assert_eq!(&out[257..265], b"ustar  \x00");
    assert_eq!(&out[265..269], b"root");
    assert_eq!(&out[297..301], b"root");
}

#[test]
fn checksum_is_valid_sum() {
    let name = b"a".to_vec();
    let out = TarOutput::tar_write_dir(&name);
    let sum = checksum_recomputed(&out);
    assert_eq!(parse_octal(&out[148..154]), sum);
    assert_eq!(out[154], 0);
    assert_eq!(out[155], b' ');
}

#[test]
fn checksum_fixup_overwrites_field() {
    let mut header = vec![0u8; 512];
    header[0] = b'x';
    for i in 148..156 {
        header[i] = b' ';
    }
    TarOutput::_tar_fix_header_checksum(&mut header);
    // sum = 'x' + 8 spaces = 120 + 256 = 376 = 0o570
    assert_eq!(&header[148..156], b"000570\x00 ");
}

#[test]
fn end_marker_is_ten_zero_blocks() {
    let out = TarOutput::tar_end_marker();
    assert_eq!(out.len(), 10 * 512);
    assert!(out.iter().all(|b| *b == 0));
}

#[test]
fn long_name_at_101_bytes() {
    let name = vec![b'n'; 101];
    let out = TarOutput::tar_write_dir(&name);
    assert_eq!(out.len(), 1536);
    // long-name record first
    assert_eq!(&out[0..13], b"././@LongLink");
    assert_eq!(out[156], b'L');
    assert_eq!(&out[124..136], b"00000000145\x00"); // 101 in octal
    let sum = checksum_recomputed(&out[0..512]);
    assert_eq!(parse_octal(&out[148..154]), sum);
    // the name payload, zero-padded to a block
    assert_eq!(&out[512..613], &name[..]);
    assert!(out[613..1024].iter().all(|b| *b == 0));
    // the regular header holds the first 100 bytes
    assert_eq!(&out[1024..1124], &name[0..100]);
    assert_eq!(out[1024 + 156], b'5');
}

#[test]
fn long_name_record_mode_is_0755_even_for_files() {
    let name = vec![b'n'; 101];
    let content = b"ab".to_vec();
    let (out, _) = TarOutput::tar_write_file(&name, 2, &content, false).unwrap();
    // the long-name record carries the fixed 0755 of long-name records
    assert_eq!(out[156], b'L');
    assert_eq!(&out[100..108], b"0000755\x00");
    // the regular file header keeps the file mode
    assert_eq!(out[1024 + 156], b'0');
    assert_eq!(&out[1124..1132], b"0000644\x00");
}

#[test]
fn no_long_name_at_100_bytes() {
    let name = vec![b'n'; 100];
    let out = TarOutput::tar_write_dir(&name);
    assert_eq!(out.len(), 512);
    assert_eq!(out[156], b'5');
}

#[test]
fn file_record_layout_and_digest() {
    let name = b"top/hello.txt".to_vec();
    let content = b"hello".to_vec();
    let (out, line) = TarOutput::tar_write_file(&name, 5, &content, true).unwrap();
    assert_eq!(out.len(), 1024);
    assert_eq!(&out[124..136], b"00000000005\x00");
    assert_eq!(out[156], b'0');
    assert_eq!(&out[100..108], b"0000644\x00");
    assert_eq!(&out[512..517], b"hello");
    assert!(out[517..1024].iter().all(|b| *b == 0));
    let line = line.unwrap();
    let expected_hex = {
        let d = <sha2::Sha512 as sha2::Digest>::digest(b"hello");
        hex::encode(d)
    };
    let mut expected = expected_hex.into_bytes();
    expected.extend_from_slice(b"  top/hello.txt\n");
    assert_eq!(line, expected);
}

#[test]
fn digest_of_empty_content_is_known_constant() {
    let name = b"e".to_vec();
    let content: Vec<u8> = Vec::new();
    let (_, line) = TarOutput::tar_write_file(&name, 0, &content, true).unwrap();
    let line = line.unwrap();
    let expected = b"cf83e1357eefb8bdf1542850d66d8007d620e4050b5715dc83f4a921d36ce9ce\
47d0d13c5d85f2b0ff8318d2877eec2f63b931bd47417a81a538327af927da3e  e\n"
        .to_vec();
    assert_eq!(line, expected);
}

#[test]
fn no_digest_line_when_not_requested() {
    let name = b"f".to_vec();
    let content = b"x".to_vec();
    let (_, line) = TarOutput::tar_write_file(&name, 1, &content, false).unwrap();
    assert!(line.is_none());
}

#[test]
fn size_mismatch_on_shrunk_file() {
    let name = b"f".to_vec();
    let content = b"hell".to_vec(); // stated 5, shrank to 4
    let r = TarOutput::tar_write_file(&name, 5, &content, false);
    assert!(matches!(r, Err(TarError::SizeMismatch)));
}

#[test]
fn size_mismatch_on_grown_file() {
    let name = b"f".to_vec();
    let content = b"hello!".to_vec();
    let r = TarOutput::tar_write_file(&name, 5, &content, false);
    assert!(matches!(r, Err(TarError::SizeMismatch)));
}

#[test]
fn streaming_encoder_matches_one_shot() {
    let name = b"top/data.bin".to_vec();
    let content: Vec<u8> = (0u16..1000).map(|i| (i % 251) as u8).collect();
    let (streamed, enc_rest) = {
        let (mut enc, header) = FileEncoder::new(&name, 1000, true);
        let mut out = header;
        for chunk in content.chunks(512) {
            enc.push_chunk(chunk).unwrap();
            out.extend_from_slice(chunk);
        }
        let (pad, line) = enc.finish().unwrap();
        out.extend_from_slice(&pad);
        (out, line)
    };
    let (one_shot, line2) = TarOutput::tar_write_file(&name, 1000, &content, true).unwrap();
    assert_eq!(streamed, one_shot);
    assert_eq!(enc_rest, line2);
}

#[test]
fn streaming_encoder_rejects_overrun_chunk() {
    let name = b"f".to_vec();
    let (mut enc, _) = FileEncoder::new(&name, 3, false);
    assert!(matches!(enc.push_chunk(b"abcd"), Err(TarError::SizeMismatch)));
    assert!(enc.push_chunk(b"ab").is_ok());
    let r = enc.finish();
    assert!(matches!(r, Err(TarError::SizeMismatch)));
}

#[test]
fn archive_parses_with_standard_reader() {
    let long_name: Vec<u8> = {
        let mut n = b"top/".to_vec();
        n.extend(std::iter::repeat(b'x').take(120));
        n
    };
    let mut archive: Vec<u8> = Vec::new();
    archive.extend(TarOutput::tar_write_dir(&b"top/".to_vec()));
    let (f1, _) = TarOutput::tar_write_file(&b"top/a.txt".to_vec(), 5, &b"hello".to_vec(), false)
        .unwrap();
    archive.extend(f1);
    let (f2, _) = TarOutput::tar_write_file(&long_name, 3, &b"abc".to_vec(), false).unwrap();
    archive.extend(f2);
    archive.extend(TarOutput::tar_end_marker());

    let mut ar = tar::Archive::new(&archive[..]);
    let mut seen: Vec<(Vec<u8>, bool, Vec<u8>)> = Vec::new();
    for entry in ar.entries().unwrap() {
        let mut entry = entry.unwrap();
        let path = entry.path_bytes().to_vec();
        let is_dir = entry.header().entry_type().is_dir();
        let mut content = Vec::new();
        entry.read_to_end(&mut content).unwrap();
        seen.push((path, is_dir, content));
    }
    assert_eq!(seen.len(), 3);
    assert_eq!(seen[0], (b"top/".to_vec(), true, Vec::new()));
    assert_eq!(seen[1], (b"top/a.txt".to_vec(), false, b"hello".to_vec()));
    assert_eq!(seen[2], (long_name, false, b"abc".to_vec()));
}
