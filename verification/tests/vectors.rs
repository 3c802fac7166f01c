use base64::Engine;
use tmap_core::vectors::{path_type_bytes, subpath_spans, PathSpan};

#[test]
fn splits_disjoint_subpaths_by_type_bytes() {
    // Two separate closed triangles. Type bytes: 0x00 Start, 0x01 Line,
    // 0x81 Line+Close, repeated.
    let types_b64 = base64::engine::general_purpose::STANDARD.encode([0u8, 1, 0x81, 0, 1, 0x81]);
    let types = path_type_bytes(&types_b64);
    let spans = subpath_spans(&types, 6);
    assert_eq!(spans.len(), 2, "two disjoint regions, not one");
    assert!(spans.iter().all(|s| s.closed && s.end - s.start == 3));
}

#[test]
fn type_bytes_ignore_whitespace_and_bad_text() {
    assert_eq!(path_type_bytes(" AAGB\n  AAGB "), vec![0u8, 1, 0x81, 0, 1, 0x81]);
    assert_eq!(path_type_bytes("AAGBAAGB"), vec![0u8, 1, 0x81, 0, 1, 0x81]);
    assert!(path_type_bytes("not base64!").is_empty());
    assert!(path_type_bytes("").is_empty());
}

#[test]
fn points_without_types_make_one_open_path() {
    assert_eq!(subpath_spans(&Vec::new(), 2), vec![PathSpan { start: 0, end: 2, closed: false }]);
    assert!(subpath_spans(&Vec::new(), 0).is_empty());
    // A start type on the first point opens nothing new; a close flag on a
    // later point closes the path it ends.
    assert_eq!(subpath_spans(&vec![0u8, 1, 0x81], 3), vec![PathSpan { start: 0, end: 3, closed: true }]);
    // Types run out: the remaining points continue the current path.
    assert_eq!(
        subpath_spans(&vec![0u8, 0x81, 0], 5),
        vec![PathSpan { start: 0, end: 2, closed: true }, PathSpan { start: 2, end: 5, closed: false }]
    );
}
