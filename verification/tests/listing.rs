use guitar_riff::chunk::checked_total_outer_size;
use guitar_riff::chunk::Chunk;
use guitar_riff::chunk::ChunkDataType;
use guitar_riff::chunk::ChunkIdentifier;
use guitar_riff::chunk::FileChunk;
use guitar_riff::listing::can_list;
use guitar_riff::listing::chunk_lines;
use guitar_riff::listing::get_indent;
use guitar_riff::riff::RiffStream;

fn leaf(identifier: &[u8; 4], length: usize) -> Chunk {
    Chunk::Simple {
        identifier: ChunkIdentifier(*identifier),
        data: vec![0u8; length],
    }
}

fn branch(data_type: &[u8; 4], sub_chunks: Vec<Chunk>) -> Chunk {
    Chunk::List {
        data_type: ChunkDataType(*data_type),
        sub_chunks,
    }
}

#[test]
fn indent_is_two_spaces_a_level() {
    assert_eq!(get_indent(0), "");
    assert_eq!(get_indent(1), "  ");
    assert_eq!(get_indent(3), "      ");
    assert_eq!(get_indent(40).len(), 80);
}

#[test]
fn indent_below_level_one_is_empty() {
    assert_eq!(get_indent(-1), "");
    assert_eq!(get_indent(i32::MIN), "");
}

#[test]
fn simple_chunk_is_listed_by_identifier_and_size() {
    assert_eq!(chunk_lines(&vec![leaf(b"fmt ", 16)], 0), vec!["fmt : 16"]);
    assert_eq!(chunk_lines(&vec![leaf(b"data", 0)], 2), vec!["    data: 0"]);
    assert_eq!(
        chunk_lines(&vec![leaf(b"big ", 1234567)], 1),
        vec!["  big : 1234567"]
    );
}

#[test]
fn list_chunk_is_listed_by_inner_size_and_data_type() {
    assert_eq!(
        chunk_lines(&vec![branch(b"INFO", vec![])], 0),
        vec!["LIST 4 items: INFO"]
    );
    assert_eq!(
        chunk_lines(&vec![branch(b"INFO", vec![leaf(b"INAM", 5)])], 1),
        vec!["  LIST 17 items: INFO", "    INAM: 5"]
    );
}

#[test]
fn children_are_listed_one_level_deeper_in_order() {
    let chunks = vec![
        leaf(b"fmt ", 16),
        branch(
            b"INFO",
            vec![
                leaf(b"INAM", 10),
                branch(b"adtl", vec![leaf(b"labl", 1), branch(b"deep", vec![])]),
                leaf(b"ICMT", 99),
            ],
        ),
        leaf(b"data", 100),
    ];
    assert_eq!(
        chunk_lines(&chunks, 0),
        vec![
            "fmt : 16",
            "LIST 162 items: INFO",
            "  INAM: 10",
            "  LIST 25 items: adtl",
            "    labl: 1",
            "    LIST 4 items: deep",
            "  ICMT: 99",
            "data: 100",
        ]
    );
}

#[test]
fn no_chunks_give_no_lines() {
    assert_eq!(chunk_lines(&vec![], 5), Vec::<String>::new());
}

#[test]
fn tags_that_are_no_text_are_listed_with_replacements() {
    assert_eq!(
        chunk_lines(
            &vec![
                Chunk::Simple {
                    identifier: ChunkIdentifier([0xff, b'a', 0, 0x80]),
                    data: vec![1, 2, 3],
                },
                branch(&[0xc3, 0xa9, 0xc3, 0x28], vec![]),
            ],
            0
        ),
        vec!["\u{fffd}a\0\u{fffd}: 3", "LIST 4 items: \u{e9}\u{fffd}("]
    );
}

#[test]
fn listing_negative_levels_has_no_indent_until_level_one() {
    let chunks = vec![branch(
        b"one ",
        vec![branch(b"two ", vec![branch(b"tri ", vec![leaf(b"leaf", 0)])])],
    )];
    assert_eq!(
        chunk_lines(&chunks, -1),
        vec![
            "LIST 36 items: one ",
            "LIST 24 items: two ",
            "  LIST 12 items: tri ",
            "    leaf: 0",
        ]
    );
}

#[test]
fn can_list_counts_the_levels() {
    let flat = vec![leaf(b"a   ", 1), leaf(b"b   ", 2)];
    assert!(can_list(&flat, 0));
    assert!(can_list(&flat, i32::MAX));
    assert!(can_list(&flat, i32::MIN));
    assert!(can_list(&vec![], i32::MAX));

    let one = vec![leaf(b"a   ", 1), branch(b"one ", vec![])];
    assert!(can_list(&one, 0));
    assert!(can_list(&one, i32::MAX - 1));
    assert!(!can_list(&one, i32::MAX));

    let two = vec![
        branch(b"one ", vec![leaf(b"a   ", 1), branch(b"two ", vec![leaf(b"b   ", 1)])]),
        branch(b"flat", vec![]),
    ];
    assert!(can_list(&two, i32::MAX - 2));
    assert!(!can_list(&two, i32::MAX - 1));
    assert!(!can_list(&two, i32::MAX));
}

#[test]
fn listing_at_the_last_level_that_fits() {
    let chunks = vec![leaf(b"a   ", 1)];
    assert!(can_list(&chunks, 3));
    assert_eq!(chunk_lines(&chunks, 3), vec!["      a   : 1"]);
}

#[test]
fn checked_sizes_agree_with_sizes() {
    let tree = branch(
        b"root",
        vec![leaf(b"a   ", 3), branch(b"sub ", vec![leaf(b"b   ", 0)]), leaf(b"c   ", 7)],
    );
    assert_eq!(tree.checked_inner_size(), Some(tree.inner_size()));
    assert_eq!(tree.checked_outer_size(), Some(tree.outer_size()));
    assert_eq!(tree.checked_inner_size(), Some(4 + 11 + 20 + 15));
    assert_eq!(leaf(b"a   ", 3).checked_inner_size(), Some(3));
    assert_eq!(leaf(b"a   ", 3).checked_outer_size(), Some(11));
    assert_eq!(branch(b"none", vec![]).checked_inner_size(), Some(4));
    assert_eq!(branch(b"none", vec![]).checked_outer_size(), Some(12));
    if let Chunk::List { sub_chunks, .. } = &tree {
        assert_eq!(checked_total_outer_size(sub_chunks), Some(46));
    }
    assert_eq!(checked_total_outer_size(&vec![]), Some(0));
}

#[test]
fn file_chunk_holds_form_type_and_chunks() {
    let file = FileChunk {
        form_type: ChunkDataType(*b"WAVE"),
        sub_chunks: vec![leaf(b"fmt ", 2)],
    };
    let copy = file.clone();
    assert_eq!(copy, file);
    assert_eq!(copy.sub_chunks[0].outer_size(), 10);
}

#[test]
fn listing_what_was_read() {
    let stream = b"RIFF\x20\x00\x00\x00WAVEfmt \x04\x00\x00\x00\x00\x01\x02\x03LIST\x04\x00\x00\x00INFO";
    let mut riff = RiffStream::open(stream.as_slice()).unwrap();
    let chunks = riff.chunks().collect();
    assert!(can_list(&chunks, 0));
    assert_eq!(chunk_lines(&chunks, 0), vec!["fmt : 4", "LIST 4 items: INFO"]);
}
