use djvulpes::chunk::DJVU_MAGIC;
use djvulpes::{
    parse_chunk_at, parse_chunks, parse_dirm_tail, parse_document_root, parse_form_at,
    parse_navm_bookmarks, read_page_details, read_page_info, Dirm, DirmTailEntry, Document,
    DocumentFormKind, Page, PageChunkKind, PageChunkPayload, PageInfo, ParseError,
};

fn push_chunk(bytes: &mut Vec<u8>, id: [u8; 4], payload: &[u8]) {
    let payload_len = u32::try_from(payload.len()).expect("test payload should fit in u32");

    bytes.extend_from_slice(&id);
    bytes.extend_from_slice(&payload_len.to_be_bytes());
    bytes.extend_from_slice(payload);
    if payload.len() % 2 == 1 {
        bytes.push(0);
    }
}

fn chunk(id: [u8; 4], payload: &[u8]) -> Vec<u8> {
    let mut bytes = Vec::new();
    push_chunk(&mut bytes, id, payload);
    bytes
}

fn form(kind: [u8; 4], children: &[u8]) -> Vec<u8> {
    let mut payload = Vec::new();
    payload.extend_from_slice(&kind);
    payload.extend_from_slice(children);
    chunk(*b"FORM", &payload)
}

fn info_chunk() -> Vec<u8> {
    chunk(*b"INFO", &[0x06, 0x18, 0x06, 0x61, 25, 0, 200, 0, 22, 1])
}

fn page_form(info: &[u8]) -> Vec<u8> {
    form(*b"DJVU", &chunk(*b"INFO", info))
}

fn multipage_document_with_directory(offsets: &[u32], forms: &[u8]) -> Vec<u8> {
    let mut bytes = Vec::new();
    bytes.extend_from_slice(&DJVU_MAGIC);

    let mut root_children = Vec::new();
    let mut dirm_payload = vec![0x80, 0, u8::try_from(offsets.len()).unwrap()];
    for offset in offsets {
        dirm_payload.extend_from_slice(&offset.to_be_bytes());
    }
    push_chunk(&mut root_children, *b"DIRM", &dirm_payload);
    root_children.extend_from_slice(forms);

    bytes.extend_from_slice(&form(*b"DJVM", &root_children));
    bytes
}

fn all_pages<'a>(document: &'a Document<'a>, bytes: &'a [u8]) -> Result<Vec<Page<'a>>, ParseError> {
    let mut pages = document.pages(bytes);
    let mut found = Vec::new();
    while let Some(page) = pages.next() {
        found.push(page?);
    }
    Ok(found)
}

fn push_bookmark_prefix(bytes: &mut Vec<u8>, child_count: u16, title: &str, url: &str) {
    bytes.extend_from_slice(&child_count.to_le_bytes());
    bytes.extend_from_slice(
        &u16::try_from(title.len())
            .expect("test title should fit in NAVM")
            .to_be_bytes(),
    );
    bytes.extend_from_slice(title.as_bytes());
    let url_len = u32::try_from(url.len()).expect("test URL should fit in NAVM");
    bytes.push(u8::try_from(url_len >> 16).expect("high URL length byte should fit"));
    bytes.push(u8::try_from((url_len >> 8) & 0xff).expect("mid URL length byte should fit"));
    bytes.push(u8::try_from(url_len & 0xff).expect("low URL length byte should fit"));
    bytes.extend_from_slice(url.as_bytes());
}

#[test]
fn parse_document_root_accepts_minimal_multipage_document() {
    let bytes = b"AT&TFORM\0\0\0\x04DJVM";

    let root = parse_document_root(bytes).expect("minimal root should parse");

    assert_eq!(root.kind, "DJVM");
    assert_eq!(root.children_start, 16);
    assert_eq!(root.chunk.data_end, 16);
}

#[test]
fn parse_form_rejects_size_too_small_for_form_kind() {
    let bytes = b"FORM\0\0\0\x03ABC!";

    let error = parse_form_at(bytes, 0).expect_err("undersized FORM should fail");

    assert!(error.message().contains("too small"));
}

#[test]
fn parse_chunks_accepts_final_child_padding_after_parent_data() {
    let bytes = b"ABCD\0\0\0\x01Z\0";

    let chunks = parse_chunks(bytes, 0, 9).expect("final padding may sit after parent data");

    assert_eq!(chunks.len(), 1);
    assert_eq!(chunks[0].data_end, 9);
    assert_eq!(chunks[0].next_start, 10);
}

#[test]
fn parse_chunks_accepts_odd_child_with_padding_inside_parent() {
    let bytes = b"ABCD\0\0\0\x01Z\0";

    let chunks = parse_chunks(bytes, 0, 10).expect("padded odd chunk should parse");

    assert_eq!(chunks.len(), 1);
    assert_eq!(chunks[0].id, "ABCD");
    assert_eq!(chunks[0].data_start, 8);
    assert_eq!(chunks[0].data_end, 9);
    assert_eq!(chunks[0].next_start, 10);
}

#[test]
fn chunks_outside_the_file_are_refused() {
    let bytes = b"ABCD\0\0\0\x09Z\0";

    assert!(parse_chunk_at(bytes, 0).is_err());
    assert!(parse_chunk_at(bytes, 4).is_err());
    assert!(parse_document_root(b"AT&X").is_err());
}

#[test]
fn chunks_follow_each_other_without_gaps() {
    let mut bytes = chunk(*b"ABCD", &[1, 2, 3]);
    push_chunk(&mut bytes, *b"EFGH", &[4, 5]);

    let chunks = parse_chunks(&bytes, 0, bytes.len()).expect("chunks should parse");

    assert_eq!(chunks.len(), 2);
    assert_eq!(chunks[0].next_start, 12);
    assert_eq!(chunks[1].data_start, 20);
    assert_eq!(chunks[1].next_start, bytes.len());
}

#[test]
fn parses_decompressed_tail_entries() {
    let dirm = Dirm {
        flags: 0x81,
        entry_count: 2,
        offsets: vec![100, 130],
        compressed_tail_start: 27,
        compressed_tail_len: 99,
    };
    let raw = [
        0x00, 0x00, 0x1e, 0x00, 0x26, 0xed, 0x00, 0x02, b'a', b'.', b'd', b'j', b'v', b'u', 0,
        b's', b'h', b'a', b'r', b'e', b'd', b'.', b'd', b'j', b'b', b'z', 0,
    ];

    let entries = parse_dirm_tail(&dirm, &raw).expect("tail parses");

    assert_eq!(
        entries,
        vec![
            DirmTailEntry {
                offset: 100,
                size: 30,
                flags: 0,
                name: "a.djvu",
            },
            DirmTailEntry {
                offset: 130,
                size: 9965,
                flags: 2,
                name: "shared.djbz",
            },
        ]
    );
}

#[test]
fn rejects_tail_with_missing_name_terminator() {
    let dirm = Dirm {
        flags: 0,
        entry_count: 1,
        offsets: vec![100],
        compressed_tail_start: 0,
        compressed_tail_len: 0,
    };
    let raw = [0x00, 0x00, 0x1e, 0x00, b'n', b'a', b'm', b'e'];

    let error = parse_dirm_tail(&dirm, &raw).expect_err("missing terminator fails");

    assert!(error.message().contains("missing name terminator"));
}

#[test]
fn rejects_tail_names_that_are_not_text() {
    let dirm = Dirm {
        flags: 0,
        entry_count: 1,
        offsets: vec![100],
        compressed_tail_start: 0,
        compressed_tail_len: 0,
    };
    let raw = [0x00, 0x00, 0x1e, 0x00, 0xff, 0];

    let error = parse_dirm_tail(&dirm, &raw).expect_err("invalid text fails");

    assert!(error.message().contains("invalid utf-8 sequence"));
}

#[test]
fn document_parse_resolves_directory_forms_and_pages() {
    let shared_form = form(*b"DJVI", &[]);
    let shared_offset = 36;
    let page_offset = shared_offset + u32::try_from(shared_form.len()).unwrap();

    let mut forms = shared_form;
    forms.extend_from_slice(&form(*b"DJVU", &info_chunk()));
    let bytes = multipage_document_with_directory(&[shared_offset, page_offset], &forms);

    let document = Document::parse(&bytes).expect("document should parse");
    let root_counts = document
        .root_chunk_counts(&bytes)
        .expect("root counts should parse");
    let form_counts = document.form_kind_counts();
    let pages = all_pages(&document, &bytes).expect("pages should parse");

    assert_eq!(root_counts.dirm, 1);
    assert_eq!(root_counts.djvu_forms, 1);
    assert_eq!(root_counts.djvi_forms, 1);
    assert_eq!(form_counts.pages, 1);
    assert_eq!(form_counts.shared, 1);
    assert_eq!(document.unresolved_directory_offsets, 0);
    assert_eq!(pages.len(), 1);
    assert_eq!(pages[0].offset, page_offset);
    assert_eq!(pages[0].info.as_ref().map(|info| info.dpi), Some(200));
}

#[test]
fn document_parse_counts_unresolved_directory_offsets() {
    let bytes = multipage_document_with_directory(&[1_000], &[]);

    let document = Document::parse(&bytes).expect("document should parse");

    assert_eq!(document.forms.len(), 0);
    assert_eq!(document.unresolved_directory_offsets, 1);
}

#[test]
fn a_single_page_document_has_one_form() {
    let mut bytes = DJVU_MAGIC.to_vec();
    bytes.extend_from_slice(&form(*b"DJVU", &info_chunk()));

    let document = Document::parse(&bytes).expect("document should parse");

    assert_eq!(document.forms.len(), 1);
    assert_eq!(document.forms[0].kind, DocumentFormKind::Page);
    assert_eq!(document.form_kind_counts().pages, 1);
    assert_eq!(all_pages(&document, &bytes).expect("page should parse").len(), 1);
    assert!(document.pages(&bytes).nth(1).is_none());
}

#[test]
fn included_chunks_stand_behind_the_reference_to_them() {
    let mut page_children = info_chunk();
    push_chunk(&mut page_children, *b"INCL", b"shared");
    push_chunk(&mut page_children, *b"Sjbz", b"bitonal");
    let shared_form = form(*b"DJVI", &chunk(*b"Djbz", b"symbols!"));
    let shared_offset = 36;
    let page_offset = shared_offset + u32::try_from(shared_form.len()).unwrap();
    let mut forms = shared_form;
    forms.extend_from_slice(&form(*b"DJVU", &page_children));
    let bytes = multipage_document_with_directory(&[shared_offset, page_offset], &forms);
    let document = Document::parse(&bytes).expect("document should parse");
    let page = document
        .pages(&bytes)
        .next()
        .expect("there is a page")
        .expect("page should parse");
    let entries = [
        DirmTailEntry { offset: shared_offset, size: 0, flags: 0, name: "shared" },
        DirmTailEntry { offset: page_offset, size: 0, flags: 1, name: "page" },
    ];

    let chunks = document
        .resolved_page_chunks(&bytes, &page, &entries)
        .expect("chunks should resolve");

    let kinds: Vec<PageChunkKind> = chunks.iter().map(|chunk| chunk.chunk.kind).collect();
    assert!(kinds.contains(&PageChunkKind::Djbz));
    let own: Vec<PageChunkKind> = chunks
        .iter()
        .filter(|chunk| chunk.source == djvulpes::PageChunkSource::Page)
        .map(|chunk| chunk.chunk.kind)
        .collect();
    assert_eq!(own, vec![PageChunkKind::Info, PageChunkKind::Include, PageChunkKind::Sjbz]);

    assert!(document.resolved_page_chunks(&bytes, &page, &entries[1..]).is_err());
    let listed = document.directory_entries(&entries);
    assert_eq!(listed[0].kind, Some(DocumentFormKind::Shared));
    assert_eq!(listed[1].form_index, Some(1));
}

#[test]
fn reads_info_dpi_as_little_endian_after_reserved_byte() {
    let bytes = page_form(&[0x0d, 0x60, 0x13, 0xd2, 25, 0, 0x58, 0x02, 22, 1]);
    let form = parse_form_at(&bytes, 0).expect("form should parse");

    let info = read_page_info(&bytes, &form)
        .expect("INFO should parse")
        .expect("INFO should exist");

    assert_eq!(info.width, 3424);
    assert_eq!(info.height, 5074);
    assert_eq!(info.version, 25);
    assert_eq!(info.dpi, 600);
    assert!((f32::from(info.gamma_tenths) / 10.0 - 2.2).abs() < f32::EPSILON);
    assert_eq!(info.rotation, 1);
    assert_eq!(info.normalized_rotation_flag(), 1);
    assert!(info.is_rightside_up());
}

#[test]
fn page_info_normalizes_invalid_rotation_flags_to_rightside_up() {
    let info = PageInfo {
        width: 1,
        height: 1,
        version: 25,
        dpi: 300,
        gamma_tenths: 22,
        rotation: 0,
    };

    assert_eq!(info.normalized_rotation_flag(), 1);
    assert!(info.is_rightside_up());
}

#[test]
fn page_info_preserves_valid_rotation_flags() {
    for flag in [1, 6, 2, 5] {
        let info = PageInfo {
            width: 1,
            height: 1,
            version: 25,
            dpi: 300,
            gamma_tenths: 22,
            rotation: flag,
        };

        assert_eq!(info.normalized_rotation_flag(), flag);
    }
}

#[test]
fn read_page_details_classifies_known_page_chunks() {
    let mut children = Vec::new();
    push_chunk(
        &mut children,
        *b"INFO",
        &[0x06, 0x18, 0x06, 0x61, 25, 0, 200, 0, 22, 1],
    );
    push_chunk(&mut children, *b"INCL", b"shared");
    push_chunk(&mut children, *b"Sjbz", b"bitonal");
    push_chunk(&mut children, *b"ZZZZ", b"unknown");

    let bytes = form(*b"DJVU", &children);
    let form = parse_form_at(&bytes, 0).expect("page form should parse");

    let details = read_page_details(&bytes, &form).expect("page details should parse");

    assert_eq!(details.info.as_ref().map(|info| info.dpi), Some(200));
    assert_eq!(details.chunks.len(), 4);
    assert_eq!(details.chunks[0].kind, PageChunkKind::Info);
    assert_eq!(details.chunks[1].kind, PageChunkKind::Include);
    assert_eq!(details.chunks[2].kind, PageChunkKind::Sjbz);
    assert_eq!(details.chunks[3].kind, PageChunkKind::Unknown);
    assert_eq!(
        details.chunks[1].payload,
        PageChunkPayload::Include { id: "shared" }
    );
    assert_eq!(details.chunks_of_kind(PageChunkKind::Include).len(), 1);
}

#[test]
fn parses_modern_navm_child_count_larger_than_one_byte() {
    let mut bytes = vec![1, 0];
    push_bookmark_prefix(&mut bytes, 300, "parent", "#1");
    for index in 0..300 {
        push_bookmark_prefix(&mut bytes, 0, &format!("child {index}"), "#2");
    }

    let bookmarks = parse_navm_bookmarks(&bytes).expect("modern NAVM should parse");

    assert_eq!(bookmarks.len(), 1);
    assert_eq!(bookmarks[0].title, "parent");
    assert_eq!(bookmarks[0].children.len(), 300);
    assert_eq!(bookmarks[0].children[299].title, "child 299");
}

#[test]
fn bookmark_errors_say_where_they_are() {
    let mut bytes = vec![1, 0];
    push_bookmark_prefix(&mut bytes, 1, "par\"ent", "#1");
    bytes.extend_from_slice(&[0, 0, 0, 9, b'x']);

    let error = parse_navm_bookmarks(&bytes).expect_err("short title should fail");

    assert_eq!(
        error.message(),
        "NAVM title is truncated at offset 22 with length 9 while parsing NAVM bookmark 1 of 1 \
         at depth 1 under NAVM title \"par\\\"ent\" while parsing top-level NAVM bookmark 1"
    );
    assert_eq!(
        parse_navm_bookmarks(&[2, 0]).expect_err("version 2 is unknown").message(),
        "unsupported NAVM version 2"
    );
    assert_eq!(
        parse_navm_bookmarks(&[]).expect_err("nothing cannot be read").message(),
        "NAVM payload is truncated"
    );
}
