use base64::engine::general_purpose::STANDARD;
use base64::Engine;
use vcb_clipboard::{Blueprint, CodecError, DecodeOptions, DomainError, Error, FormatError, Grid};

const SAMPLE: &str = "VCB+AAAAtordPn2VAAAAGAAAABkAAAE9AAAAAAAACWAotS/9YGAIPQkAdAIAAKFsVv+hmFb/n6iuoVVe/1Ve/2ZWoVVe/yo1QVVeVnuhVmJ7YmKAjaiwJRk2A7CCEaGrOhKgggzFYwyEM4pARpQlIyeRZCcsSHMOIf09hmMXT1TUI3Q7oMYRHmgbbsfhWfmeQE+qALlEdgYJryyGiV0BRwUvkKPREiPxMPFAtEa8/VrTedP4yI10NO/MwXn+//43SaqH7IPg+Z/P8eYvW8e0052esb39Hes7LeE/WeaY/YfoWXi0Td8QN7ZyeivrR0beMHZ0frqHL5G/c6TkzvlGWqzCZhnut0b2sz6pBTvHdLaTfC6eW8uqrwWjpSmAc4xrcQMYpv1K84HP2dvORZmHzMOJKcR/iDuNvp/3yGT+3YJXpDbOWHdQ7vjkxOfqadB6LQAAAB8AAAABAAAJYCi1L/1gYAhNAAAQAAABAFvxARYAAAAfAAAAAgAACWAotS/9YGAITQAAEAAAAQBb8QEWAAAAGAAABAAAAAADKLUv/SADGQAA4LaeAAAAPwAABAEAAAAqKLUv/SAqUQEAVGhlcmUgaXMgYW4gaW1wb3N0b3IgYW1vbmcgdGhlIGJsdWVwcmludHMuAAAAGAAABAIAAAADKLUv/SADGQAAU3Vz";

fn be(value: u32) -> [u8; 4] {
    value.to_be_bytes()
}

fn cell_bytes(cells: &[u32]) -> Vec<u8> {
    let mut out = Vec::new();
    for cell in cells {
        out.extend_from_slice(&cell.to_be_bytes());
    }
    out
}

fn raw_block(size: u32, tag: u32, payload_len: u32, stream: &[u8]) -> Vec<u8> {
    let mut out = Vec::new();
    out.extend_from_slice(&be(size));
    out.extend_from_slice(&be(tag));
    out.extend_from_slice(&be(payload_len));
    out.extend_from_slice(stream);
    out
}

fn block(tag: u32, payload: &[u8]) -> Vec<u8> {
    let stream = zstd::encode_all(payload, 0).unwrap();
    raw_block(12 + stream.len() as u32, tag, payload.len() as u32, &stream)
}

fn checksum(tail: &[u8]) -> [u8; 6] {
    let text = STANDARD.encode(tail);
    let digest = sha1_smol::Sha1::from(text.as_bytes()).digest().bytes();
    [digest[0], digest[1], digest[2], digest[3], digest[4], digest[5]]
}

fn body_with_checksum(sum: [u8; 6], width: u32, height: u32, blocks: &[Vec<u8>]) -> Vec<u8> {
    let mut out = vec![0u8, 0, 0];
    out.extend_from_slice(&sum);
    out.extend_from_slice(&be(width));
    out.extend_from_slice(&be(height));
    for b in blocks {
        out.extend_from_slice(b);
    }
    out
}

fn body(width: u32, height: u32, blocks: &[Vec<u8>]) -> Vec<u8> {
    let unsigned = body_with_checksum([0; 6], width, height, blocks);
    body_with_checksum(checksum(&unsigned[9..]), width, height, blocks)
}

fn clipboard(body: &[u8]) -> String {
    format!("VCB+{}", STANDARD.encode(body))
}

fn unverified() -> DecodeOptions {
    DecodeOptions { verify_checksum: false }
}

fn grid(rows: usize, cols: usize, cells: &[u32]) -> Grid {
    Grid::from_shape_vec(rows, cols, cells.to_vec()).unwrap()
}

/// Walks the blocks of a body by hand and decompresses the first one that
/// carries `tag`.
fn payload_by_hand(body: &[u8], tag: u32) -> Option<Vec<u8>> {
    let mut at = 17;
    while at + 12 <= body.len() {
        let size = u32::from_be_bytes([body[at], body[at + 1], body[at + 2], body[at + 3]]) as usize;
        let found = u32::from_be_bytes([body[at + 4], body[at + 5], body[at + 6], body[at + 7]]);
        if found == tag {
            return Some(zstd::decode_all(&body[at + 12..at + size]).unwrap());
        }
        at += size;
    }
    None
}

#[test]
fn sample_decodes_with_header_dimensions() {
    let blueprint = Blueprint::try_from_str(SAMPLE).unwrap();
    let body = STANDARD.decode(&SAMPLE[4..]).unwrap();
    let width = u32::from_be_bytes([body[9], body[10], body[11], body[12]]) as usize;
    let height = u32::from_be_bytes([body[13], body[14], body[15], body[16]]) as usize;
    assert_eq!((width, height), (24, 25));
    assert_eq!(blueprint.logic_grid.cols(), width);
    assert_eq!(blueprint.logic_grid.rows(), height);
    let cells = blueprint.logic_grid.to_vec();
    assert_eq!(cells.len(), 600);
    assert!(cells.iter().any(|cell| *cell != 0));
    assert_eq!(cell_bytes(&cells), payload_by_hand(&body, 0).unwrap());
}

#[test]
fn sample_texts_match_blocks_decompressed_by_hand() {
    let blueprint = Blueprint::try_from_str(SAMPLE).unwrap();
    let body = STANDARD.decode(&SAMPLE[4..]).unwrap();
    let name = String::from_utf8(payload_by_hand(&body, 1024).unwrap()).unwrap();
    let description = String::from_utf8(payload_by_hand(&body, 1025).unwrap()).unwrap();
    let tags = String::from_utf8(payload_by_hand(&body, 1026).unwrap()).unwrap();
    assert_eq!(name, "\u{0d9e}");
    assert_eq!(description, "There is an impostor among the blueprints.");
    assert_eq!(tags, "Sus");
    assert_eq!(blueprint.name, Some(name));
    assert_eq!(blueprint.description, Some(description));
    assert_eq!(blueprint.tags, Some(vec!["Sus".to_string()]));
}

#[test]
fn sample_decoration_layers_are_present_and_shaped() {
    let blueprint = Blueprint::try_from_str(SAMPLE).unwrap();
    let on = blueprint.deco_on_grid.unwrap();
    let off = blueprint.deco_off_grid.unwrap();
    assert_eq!((on.rows(), on.cols()), (25, 24));
    assert_eq!((off.rows(), off.cols()), (25, 24));
    assert_eq!(on.to_vec(), vec![0u32; 600]);
    assert_eq!(off.to_vec(), vec![0u32; 600]);
}

#[test]
fn sample_checksum_is_digest_of_remaining_characters() {
    let body = STANDARD.decode(&SAMPLE[4..]).unwrap();
    let digest = sha1_smol::Sha1::from(SAMPLE[16..].as_bytes()).digest().bytes();
    assert_eq!(&body[3..9], &digest[..6]);
    assert_eq!(&body[3..9], &[182u8, 138, 221, 62, 125, 149]);
    assert!(Blueprint::try_from_str_with(SAMPLE, DecodeOptions::default()).is_ok());
    assert!(Blueprint::try_from_str_with(SAMPLE, unverified()).is_ok());
}

#[test]
fn decoding_twice_gives_equal_blueprints() {
    let first = Blueprint::try_from_str(SAMPLE);
    let second = Blueprint::try_from_str(SAMPLE);
    assert_eq!(first, second);
    let broken = clipboard(&body(1, 1, &[block(1, &cell_bytes(&[1]))]));
    assert_eq!(Blueprint::try_from_str(&broken), Blueprint::try_from_str(&broken));
}

#[test]
fn default_options_verify_the_checksum() {
    assert!(DecodeOptions::default().verify_checksum);
}

#[test]
fn text_without_marker_is_refused() {
    let missing = Err(Error::Format(FormatError::MissingPrefix));
    for text in ["", "V", "VCB", "vcb+AAAA", "VCB-AAAA", " VCB+AAAA", "\u{0d9e}VCB+", &SAMPLE[1..], &SAMPLE[4..]] {
        assert_eq!(Blueprint::try_from_str(text), missing);
        assert_eq!(Blueprint::try_from_str_with(text, unverified()), missing);
    }
}

#[test]
fn text_that_is_not_base64_is_refused() {
    let invalid = Err(Error::Format(FormatError::InvalidBase64));
    assert_eq!(Blueprint::try_from_str("VCB+!!!!"), invalid);
    assert_eq!(Blueprint::try_from_str("VCB+AAA"), invalid);
    assert_eq!(Blueprint::try_from_str("VCB+AAAA\u{0d9e}"), invalid);
    assert_eq!(Blueprint::try_from_str(&format!("{} ", SAMPLE)), invalid);
}

#[test]
fn body_shorter_than_a_header_is_truncated() {
    let truncated = Err(Error::Format(FormatError::Truncated { offset: 0 }));
    assert_eq!(Blueprint::try_from_str("VCB+"), truncated);
    assert_eq!(Blueprint::try_from_str(&clipboard(&[0u8; 16])), truncated);
    assert_eq!(Blueprint::from_body(&[], unverified()), truncated);
}

#[test]
fn header_alone_lacks_the_logic_layer() {
    let text = clipboard(&body(0, 0, &[]));
    assert_eq!(
        Blueprint::try_from_str(&text),
        Err(Error::Domain(DomainError::MissingLogicLayer))
    );
}

#[test]
fn block_cut_short_is_truncated() {
    let logic = block(0, &cell_bytes(&[5]));
    let mut cut = body(1, 1, &[logic.clone()]);
    cut.pop();
    assert_eq!(
        Blueprint::from_body(&cut, unverified()),
        Err(Error::Format(FormatError::Truncated { offset: 17 }))
    );
    let mut trailing = body(1, 1, &[logic.clone()]);
    let end = trailing.len();
    trailing.extend_from_slice(&[0, 0, 0, 12, 0]);
    assert_eq!(
        Blueprint::from_body(&trailing, unverified()),
        Err(Error::Format(FormatError::Truncated { offset: end }))
    );
    let mut preamble_only = body(1, 1, &[logic]);
    preamble_only.extend_from_slice(&raw_block(13, 1024, 0, &[]));
    assert_eq!(
        Blueprint::from_body(&preamble_only, unverified()),
        Err(Error::Format(FormatError::Truncated { offset: end }))
    );
}

#[test]
fn unknown_tag_is_refused_with_offset_and_tag() {
    let logic = block(0, &cell_bytes(&[5]));
    let odd = block(3, &cell_bytes(&[5]));
    let text = clipboard(&body(1, 1, &[logic.clone(), odd]));
    assert_eq!(
        Blueprint::try_from_str(&text),
        Err(Error::Format(FormatError::UnknownTag { offset: 17 + logic.len(), tag: 3 }))
    );
    let text = clipboard(&body(1, 1, &[raw_block(0, 1027, 0, &[])]));
    assert_eq!(
        Blueprint::try_from_str(&text),
        Err(Error::Format(FormatError::UnknownTag { offset: 17, tag: 1027 }))
    );
}

#[test]
fn size_below_preamble_is_refused() {
    for size in [0u32, 8, 11] {
        let text = clipboard(&body(1, 1, &[raw_block(size, 0, 4, &[1, 2, 3, 4])]));
        assert_eq!(
            Blueprint::try_from_str(&text),
            Err(Error::Format(FormatError::SizeTooSmall { offset: 17, size }))
        );
    }
}

#[test]
fn corrupt_stream_fails_decompression() {
    let text = clipboard(&body(1, 1, &[raw_block(16, 0, 4, &[1, 2, 3, 4])]));
    assert_eq!(
        Blueprint::try_from_str(&text),
        Err(Error::Codec(CodecError::DecompressionFailed { offset: 17, tag: 0 }))
    );
    let text = clipboard(&body(1, 1, &[raw_block(12, 1025, 0, &[])]));
    assert_eq!(
        Blueprint::try_from_str(&text),
        Err(Error::Codec(CodecError::DecompressionFailed { offset: 17, tag: 1025 }))
    );
    let good = block(0, &cell_bytes(&[5]));
    let mut halved = good.clone();
    halved.truncate(good.len() - 3);
    let size = halved.len() as u32;
    halved[..4].copy_from_slice(&be(size));
    let text = clipboard(&body(1, 1, &[halved]));
    assert_eq!(
        Blueprint::try_from_str(&text),
        Err(Error::Codec(CodecError::DecompressionFailed { offset: 17, tag: 0 }))
    );
}

#[test]
fn layer_of_ragged_length_is_misaligned() {
    let logic = block(0, &cell_bytes(&[5]));
    let ragged = block(2, &[1, 2, 3, 4, 5]);
    let text = clipboard(&body(1, 1, &[logic.clone(), ragged]));
    assert_eq!(
        Blueprint::try_from_str(&text),
        Err(Error::Codec(CodecError::MisalignedBuffer { offset: 17 + logic.len(), tag: 2 }))
    );
}

#[test]
fn text_that_is_not_utf8_is_refused() {
    let logic = block(0, &cell_bytes(&[5]));
    let bad = block(1024, &[0x66, 0xff, 0x66]);
    let text = clipboard(&body(1, 1, &[logic.clone(), bad]));
    assert_eq!(
        Blueprint::try_from_str(&text),
        Err(Error::Codec(CodecError::InvalidUtf8 { offset: 17 + logic.len(), tag: 1024 }))
    );
}

#[test]
fn stream_without_logic_layer_is_refused() {
    let blocks = [
        block(1, &cell_bytes(&[1, 2])),
        block(2, &cell_bytes(&[3, 4])),
        block(1024, b"name"),
        block(1025, b"description"),
        block(1026, b"a, b"),
    ];
    let text = clipboard(&body(2, 1, &blocks));
    assert_eq!(
        Blueprint::try_from_str(&text),
        Err(Error::Domain(DomainError::MissingLogicLayer))
    );
    assert_eq!(
        Blueprint::try_from_str_with(&text, unverified()),
        Err(Error::Domain(DomainError::MissingLogicLayer))
    );
}

#[test]
fn logic_layer_of_wrong_count_is_a_shape_mismatch() {
    let mismatch = Err(Error::Domain(DomainError::ShapeMismatch));
    let text = clipboard(&body(2, 2, &[block(0, &cell_bytes(&[1, 2, 3]))]));
    assert_eq!(Blueprint::try_from_str(&text), mismatch);
    let text = clipboard(&body(2, 2, &[block(0, &cell_bytes(&[1, 2, 3, 4, 5]))]));
    assert_eq!(Blueprint::try_from_str(&text), mismatch);
    let text = clipboard(&body(0, 3, &[block(0, &cell_bytes(&[1]))]));
    assert_eq!(Blueprint::try_from_str(&text), mismatch);
    let text = clipboard(&body(u32::MAX, u32::MAX, &[block(0, &cell_bytes(&[1]))]));
    assert_eq!(Blueprint::try_from_str(&text), mismatch);
}

#[test]
fn decoration_layer_of_wrong_count_is_a_shape_mismatch() {
    let logic = block(0, &cell_bytes(&[1, 2, 3, 4]));
    let deco = block(1, &cell_bytes(&[1, 2, 3]));
    let text = clipboard(&body(2, 2, &[logic.clone(), deco]));
    assert_eq!(Blueprint::try_from_str(&text), Err(Error::Domain(DomainError::ShapeMismatch)));
    let deco = block(2, &[]);
    let text = clipboard(&body(2, 2, &[logic, deco]));
    assert_eq!(Blueprint::try_from_str(&text), Err(Error::Domain(DomainError::ShapeMismatch)));
}

#[test]
fn grid_is_height_rows_of_width_cells() {
    let text = clipboard(&body(3, 2, &[block(0, &cell_bytes(&[1, 2, 3, 4, 5, 6]))]));
    let blueprint = Blueprint::try_from_str(&text).unwrap();
    assert_eq!(blueprint.logic_grid.rows(), 2);
    assert_eq!(blueprint.logic_grid.cols(), 3);
    assert_eq!(blueprint.logic_grid.to_vec(), vec![1, 2, 3, 4, 5, 6]);
    assert_eq!(blueprint.logic_grid, grid(2, 3, &[1, 2, 3, 4, 5, 6]));
    assert_eq!(blueprint.deco_on_grid, None);
    assert_eq!(blueprint.deco_off_grid, None);
    assert_eq!(blueprint.name, None);
    assert_eq!(blueprint.description, None);
    assert_eq!(blueprint.tags, None);
}

#[test]
fn empty_grid_decodes() {
    let text = clipboard(&body(0, 7, &[block(0, &[])]));
    let blueprint = Blueprint::try_from_str(&text).unwrap();
    assert_eq!((blueprint.logic_grid.rows(), blueprint.logic_grid.cols()), (7, 0));
    assert_eq!(blueprint.logic_grid.to_vec(), Vec::<u32>::new());
}

#[test]
fn tags_text_is_split_on_comma_space() {
    let logic = block(0, &cell_bytes(&[9]));
    let decode_tags = |tags: &str| {
        let text = clipboard(&body(1, 1, &[logic.clone(), block(1026, tags.as_bytes())]));
        Blueprint::try_from_str(&text).unwrap().tags.unwrap()
    };
    assert_eq!(decode_tags("a, b, c"), vec!["a", "b", "c"]);
    assert_eq!(decode_tags(""), vec![""]);
    assert_eq!(decode_tags("solo"), vec!["solo"]);
    assert_eq!(decode_tags(", "), vec!["", ""]);
    assert_eq!(decode_tags("a,b"), vec!["a,b"]);
    assert_eq!(decode_tags("a,, b"), vec!["a,", "b"]);
    assert_eq!(decode_tags("a,  b"), vec!["a", " b"]);
    assert_eq!(decode_tags("a, , b, "), vec!["a", "", "b", ""]);
    assert_eq!(decode_tags("\u{0d9e}, \u{e9}"), vec!["\u{0d9e}", "\u{e9}"]);
}

#[test]
fn first_name_block_wins() {
    let blocks = [
        block(1024, b"first"),
        block(0, &cell_bytes(&[9])),
        block(1024, b"second"),
    ];
    let blueprint = Blueprint::try_from_str(&clipboard(&body(1, 1, &blocks))).unwrap();
    assert_eq!(blueprint.name, Some("first".to_string()));
}

#[test]
fn first_block_of_every_kind_wins() {
    let blocks = [
        block(0, &cell_bytes(&[1])),
        block(1, &cell_bytes(&[2])),
        block(2, &cell_bytes(&[3])),
        block(1025, b"one"),
        block(1026, b"x, y"),
        block(0, &cell_bytes(&[4])),
        block(1, &cell_bytes(&[5])),
        block(2, &cell_bytes(&[6])),
        block(1025, b"two"),
        block(1026, b"z"),
    ];
    let blueprint = Blueprint::try_from_str(&clipboard(&body(1, 1, &blocks))).unwrap();
    assert_eq!(blueprint.logic_grid.to_vec(), vec![1]);
    assert_eq!(blueprint.deco_on_grid.unwrap().to_vec(), vec![2]);
    assert_eq!(blueprint.deco_off_grid.unwrap().to_vec(), vec![3]);
    assert_eq!(blueprint.name, None);
    assert_eq!(blueprint.description, Some("one".to_string()));
    assert_eq!(blueprint.tags, Some(vec!["x".to_string(), "y".to_string()]));
}

#[test]
fn ignored_duplicate_must_still_decode() {
    let blocks = [
        block(0, &cell_bytes(&[1])),
        block(1024, b"kept"),
        block(1024, &[0xff]),
    ];
    let second = 17 + blocks[0].len() + blocks[1].len();
    assert_eq!(
        Blueprint::try_from_str(&clipboard(&body(1, 1, &blocks))),
        Err(Error::Codec(CodecError::InvalidUtf8 { offset: second, tag: 1024 }))
    );
}

#[test]
fn ignored_duplicate_layer_need_not_fill_the_grid() {
    let blocks = [block(0, &cell_bytes(&[1])), block(0, &cell_bytes(&[1, 2, 3]))];
    let blueprint = Blueprint::try_from_str(&clipboard(&body(1, 1, &blocks))).unwrap();
    assert_eq!(blueprint.logic_grid.to_vec(), vec![1]);
}

#[test]
fn recorded_payload_length_is_not_consulted() {
    let stream = zstd::encode_all(&cell_bytes(&[7])[..], 0).unwrap();
    let logic = raw_block(12 + stream.len() as u32, 0, 999, &stream);
    let blueprint = Blueprint::try_from_str(&clipboard(&body(1, 1, &[logic]))).unwrap();
    assert_eq!(blueprint.logic_grid.to_vec(), vec![7]);
}

#[test]
fn wrong_checksum_is_refused_unless_verification_is_off() {
    let blocks = [block(0, &cell_bytes(&[1])), block(1024, b"n")];
    let good = body(1, 1, &blocks);
    let mut sum = [0u8; 6];
    sum.copy_from_slice(&good[3..9]);
    sum[5] ^= 1;
    let bad = body_with_checksum(sum, 1, 1, &blocks);
    let text = clipboard(&bad);
    assert_eq!(
        Blueprint::try_from_str(&text),
        Err(Error::Format(FormatError::ChecksumMismatch))
    );
    assert_eq!(
        Blueprint::from_body(&bad, DecodeOptions::default()),
        Err(Error::Format(FormatError::ChecksumMismatch))
    );
    let lenient = Blueprint::try_from_str_with(&text, unverified()).unwrap();
    assert_eq!(lenient, Blueprint::try_from_str(&clipboard(&good)).unwrap());
    assert_eq!(lenient.name, Some("n".to_string()));
}

#[test]
fn malformed_body_is_reported_before_its_checksum() {
    let blocks = [block(1, &cell_bytes(&[1]))];
    let bad = body_with_checksum([1, 2, 3, 4, 5, 6], 1, 1, &blocks);
    assert_eq!(
        Blueprint::try_from_str(&clipboard(&bad)),
        Err(Error::Domain(DomainError::MissingLogicLayer))
    );
    let bad = body_with_checksum([1, 2, 3, 4, 5, 6], 1, 1, &[raw_block(12, 9, 0, &[])]);
    assert_eq!(
        Blueprint::try_from_str(&clipboard(&bad)),
        Err(Error::Format(FormatError::UnknownTag { offset: 17, tag: 9 }))
    );
}

#[test]
fn version_bytes_are_not_interpreted() {
    let blocks = [block(0, &cell_bytes(&[1]))];
    let mut other = body(1, 1, &blocks);
    other[0] = 9;
    other[2] = 200;
    assert!(Blueprint::try_from_str(&clipboard(&other)).is_ok());
}

#[test]
fn first_error_in_stream_order_is_reported() {
    let blocks = [
        block(0, &cell_bytes(&[1])),
        block(1024, &[0xff]),
        raw_block(3, 0, 0, &[]),
    ];
    assert_eq!(
        Blueprint::try_from_str(&clipboard(&body(1, 1, &blocks))),
        Err(Error::Codec(CodecError::InvalidUtf8 { offset: 17 + blocks[0].len(), tag: 1024 }))
    );
    let blocks = [raw_block(3, 7, 0, &[])];
    assert_eq!(
        Blueprint::try_from_str(&clipboard(&body(1, 1, &blocks))),
        Err(Error::Format(FormatError::UnknownTag { offset: 17, tag: 7 }))
    );
}
