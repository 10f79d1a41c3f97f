use img_optim::errors::PipelineError;
use img_optim::paths::{extension_of, is_image_path, is_safe_rel, join_path, strip_prefix, with_extension};
use img_optim::unpack::{plan_unpack, ArchiveEntry, UnpackAction};

#[test]
fn extension_is_read_from_final_component() {
    assert_eq!(extension_of(b"dir/file.PNG").unwrap().as_slice(), b"PNG");
    assert_eq!(extension_of(b"a/b.tar.gz").unwrap().as_slice(), b"gz");
    assert!(extension_of(b"dir.d/noext").is_none());
    assert!(extension_of(b"dir/.hidden").is_none());
}

#[test]
fn image_classification_ignores_case() {
    assert!(is_image_path(b"x/y.PNG"));
    assert!(is_image_path(b"x/y.jpg"));
    assert!(is_image_path(b"x/y.WebP"));
    assert!(is_image_path(b"x/y.avif"));
    assert!(is_image_path(b"x/y.gif"));
    assert!(!is_image_path(b"x/y.txt"));
    assert!(!is_image_path(b"x/noext"));
    assert!(!is_image_path(b"x/.png"));
}

#[test]
fn with_extension_replaces_or_appends() {
    assert_eq!(with_extension(b"out/p.png", b"jpg").as_slice(), b"out/p.jpg");
    assert_eq!(with_extension(b"out/p", b"jpg").as_slice(), b"out/p.jpg");
    assert_eq!(with_extension(b"out/p.png", b"").as_slice(), b"out/p");
}

#[test]
fn prefix_stripping_and_joining_mirror_paths() {
    assert_eq!(
        strip_prefix(b"/tmp/src/a/b.png", b"/tmp/src").unwrap().as_slice(),
        b"a/b.png"
    );
    assert!(strip_prefix(b"/elsewhere/a.png", b"/tmp/src").is_none());
    assert_eq!(join_path(b"/tmp/dst", b"a/b.png").as_slice(), b"/tmp/dst/a/b.png");
    assert_eq!(join_path(b"/tmp/dst/", b"a/b.png").as_slice(), b"/tmp/dst/a/b.png");
}

#[test]
fn joining_then_stripping_returns_the_relative_path() {
    let rel: &[u8] = "chapters/p\u{e9}riple 01.png".as_bytes();
    let joined = join_path(b"/tmp/dst", rel);
    assert_eq!(strip_prefix(&joined, b"/tmp/dst").unwrap().as_slice(), rel);
}

#[test]
fn safe_relative_paths_are_recognized() {
    assert!(is_safe_rel(b"a/b.png"));
    assert!(is_safe_rel(b"..plain"));
    assert!(!is_safe_rel(b""));
    assert!(!is_safe_rel(b"/abs"));
    assert!(!is_safe_rel(b"../evil"));
    assert!(!is_safe_rel(b"a/../b"));
    assert!(!is_safe_rel(b"a/.."));
    assert!(!is_safe_rel(b"a\0b"));
}

#[test]
fn unpack_plan_mirrors_entries_in_archive_order() {
    let entries = vec![
        ArchiveEntry { name: b"dir/".to_vec(), mode: Some(0o755) },
        ArchiveEntry { name: b"dir/file.txt".to_vec(), mode: None },
    ];
    let acts = plan_unpack(&entries).unwrap();
    assert_eq!(acts.len(), 2);
    match &acts[0] {
        UnpackAction::MakeDir { index, rel, mode } => {
            assert_eq!(*index, 0);
            assert_eq!(rel.as_slice(), b"dir");
            assert_eq!(*mode, Some(0o755));
        }
        _ => panic!("expected a directory action"),
    }
    match &acts[1] {
        UnpackAction::WriteFile { index, rel, mode } => {
            assert_eq!(*index, 1);
            assert_eq!(rel.as_slice(), b"dir/file.txt");
            assert_eq!(*mode, None);
        }
        _ => panic!("expected a file action"),
    }
}

#[test]
fn unpack_plan_keeps_non_ascii_names() {
    let name = "p\u{e9}rip\u{e9}ties/caf\u{e9}.txt".as_bytes().to_vec();
    let entries = vec![ArchiveEntry { name: name.clone(), mode: None }];
    let acts = plan_unpack(&entries).unwrap();
    match &acts[0] {
        UnpackAction::WriteFile { rel, .. } => assert_eq!(rel.as_slice(), name.as_slice()),
        _ => panic!("expected a file action"),
    }
}

#[test]
fn traversal_entry_fails_the_whole_plan() {
    let entries = vec![
        ArchiveEntry { name: b"fine.txt".to_vec(), mode: None },
        ArchiveEntry { name: b"../evil.txt".to_vec(), mode: None },
    ];
    let r = plan_unpack(&entries);
    assert!(matches!(r, Err(PipelineError::UnsafeArchiveEntry { .. })));
}

#[test]
fn nested_traversal_entry_is_rejected() {
    let entries = vec![ArchiveEntry { name: b"deep/../../x".to_vec(), mode: None }];
    assert!(matches!(
        plan_unpack(&entries),
        Err(PipelineError::UnsafeArchiveEntry { .. })
    ));
}

#[test]
fn absolute_entry_is_rejected() {
    let entries = vec![ArchiveEntry { name: b"/etc/hosts".to_vec(), mode: None }];
    assert!(matches!(
        plan_unpack(&entries),
        Err(PipelineError::UnsafeArchiveEntry { .. })
    ));
}
