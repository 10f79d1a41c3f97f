use img_optim::convert::{build_convert_args, build_repack_args, conversion_outcome, repack_outcome};
use img_optim::dispatch::{dispatch_entry, plan_entries, summarize_outcomes, EntryDisposition};
use img_optim::text::sort_entries;
use img_optim::errors::PipelineError;
use img_optim::job::Conversion;
use img_optim::pipeline::{advance, next_action, validate_target, Stage, StageAction, StageEvent, TargetStatus};

fn default_cfg() -> Conversion {
    Conversion::new(None, None, None, None)
}

#[test]
fn images_are_routed_to_conversion_with_new_extension() {
    let cfg = default_cfg();
    let a = dispatch_entry(b"/s/a/x.png", false, b"/s", b"/t", &cfg);
    match a {
        EntryDisposition::ConvertImage { src, dest } => {
            assert_eq!(src.as_slice(), b"/s/a/x.png");
            assert_eq!(dest.as_slice(), b"/t/a/x.jpg");
        }
        _ => panic!("expected a conversion"),
    }
}

#[test]
fn opaque_files_keep_their_relative_path() {
    let cfg = default_cfg();
    let a = dispatch_entry(b"/s/a/read.me", false, b"/s", b"/t", &cfg);
    match a {
        EntryDisposition::CopyOpaque { src, dest } => {
            assert_eq!(src.as_slice(), b"/s/a/read.me");
            assert_eq!(dest.as_slice(), b"/t/a/read.me");
        }
        _ => panic!("expected a verbatim copy"),
    }
}

#[test]
fn directories_are_mirrored() {
    let cfg = default_cfg();
    let a = dispatch_entry(b"/s/a/sub", true, b"/s", b"/t", &cfg);
    match a {
        EntryDisposition::MakeDir { dest } => assert_eq!(dest.as_slice(), b"/t/a/sub"),
        _ => panic!("expected a directory action"),
    }
}

#[test]
fn entries_outside_the_source_root_are_skipped() {
    let cfg = default_cfg();
    let a = dispatch_entry(b"/elsewhere/x.png", false, b"/s", b"/t", &cfg);
    assert!(matches!(a, EntryDisposition::Skip { .. }));
}

#[test]
fn one_failed_conversion_is_contained() {
    let cfg = default_cfg();
    let entries = vec![
        (b"/s/p1.png".to_vec(), false),
        (b"/s/p2.png".to_vec(), false),
        (b"/s/p3.png".to_vec(), false),
        (b"/s/info.txt".to_vec(), false),
        (b"/s/notes.md".to_vec(), false),
    ];
    let acts = plan_entries(&entries, b"/s", b"/t", &cfg);
    assert_eq!(acts.len(), 5);
    // the conversion of the second image fails; everything else succeeds
    let outcomes = vec![true, false, true, true, true];
    let rep = summarize_outcomes(&acts, &outcomes);
    assert_eq!(rep.failures, 1);
    assert_eq!(rep.produced.len(), 4);
    assert_eq!(rep.produced[0].as_slice(), b"/t/p1.jpg");
    assert_eq!(rep.produced[1].as_slice(), b"/t/p3.jpg");
    assert_eq!(rep.produced[2].as_slice(), b"/t/info.txt");
    assert_eq!(rep.produced[3].as_slice(), b"/t/notes.md");
}

#[test]
fn replanning_the_same_tree_is_identical() {
    let cfg = default_cfg();
    let entries = vec![
        (b"/s/a".to_vec(), true),
        (b"/s/a/x.png".to_vec(), false),
        (b"/s/a/read.me".to_vec(), false),
    ];
    let first = plan_entries(&entries, b"/s", b"/t", &cfg);
    let second = plan_entries(&entries, b"/s", b"/t", &cfg);
    assert_eq!(first.len(), second.len());
    for (a, b) in first.iter().zip(second.iter()) {
        match (a, b) {
            (
                EntryDisposition::MakeDir { dest: d1 },
                EntryDisposition::MakeDir { dest: d2 },
            ) => assert_eq!(d1, d2),
            (
                EntryDisposition::CopyOpaque { src: s1, dest: d1 },
                EntryDisposition::CopyOpaque { src: s2, dest: d2 },
            ) => {
                assert_eq!(s1, s2);
                assert_eq!(d1, d2);
            }
            (
                EntryDisposition::ConvertImage { src: s1, dest: d1 },
                EntryDisposition::ConvertImage { src: s2, dest: d2 },
            ) => {
                assert_eq!(s1, s2);
                assert_eq!(d1, d2);
            }
            _ => panic!("plans diverged"),
        }
    }
}

#[test]
fn sorting_puts_directories_before_their_descendants() {
    let mut entries = vec![
        (b"/s/a/deep/x.png".to_vec(), false),
        (b"/s/a".to_vec(), true),
        (b"/s/a/deep".to_vec(), true),
        (b"/s/a/read.me".to_vec(), false),
    ];
    sort_entries(&mut entries);
    assert_eq!(entries[0].0.as_slice(), b"/s/a");
    assert_eq!(entries[1].0.as_slice(), b"/s/a/deep");
    assert_eq!(entries[2].0.as_slice(), b"/s/a/deep/x.png");
    assert_eq!(entries[3].0.as_slice(), b"/s/a/read.me");
}

#[test]
fn converter_arguments_follow_the_documented_contract() {
    let cfg = default_cfg();
    let args = build_convert_args(b"/s/x.png", b"/t/x.jpg", &cfg);
    let words: Vec<&[u8]> = args.iter().map(|a| a.as_slice()).collect();
    assert_eq!(
        words,
        vec![
            b"convert".as_slice(),
            b"/s/x.png",
            b"-geometry",
            b"1000x1400^",
            b"-quality",
            b"80",
            b"/t/x.jpg",
        ]
    );
}

#[test]
fn converter_arguments_include_the_codec_define() {
    let cfg = Conversion::new(None, None, Some(b"webp:method=6".to_vec()), None);
    let args = build_convert_args(b"a.png", b"b.jpg", &cfg);
    let words: Vec<&[u8]> = args.iter().map(|a| a.as_slice()).collect();
    assert_eq!(
        words,
        vec![
            b"convert".as_slice(),
            b"a.png",
            b"-geometry",
            b"1000x1400^",
            b"-quality",
            b"80",
            b"-define",
            b"webp:method=6",
            b"b.jpg",
        ]
    );
}

#[test]
fn repack_arguments_follow_the_documented_contract() {
    let args = build_repack_args(b"/t/out.cbz");
    let words: Vec<&[u8]> = args.iter().map(|a| a.as_slice()).collect();
    assert_eq!(words, vec![b"--recurse-paths".as_slice(), b"/t/out.cbz", b"."]);
}

#[test]
fn tool_exit_statuses_map_to_their_errors() {
    assert!(conversion_outcome(true, b"").is_ok());
    let e = conversion_outcome(false, b"decode failure").unwrap_err();
    match &e {
        PipelineError::Conversion { diagnostic } => {
            assert_eq!(diagnostic.as_slice(), b"decode failure")
        }
        _ => panic!("expected a conversion error"),
    }
    assert!(e.is_entry_level());
    let r = repack_outcome(false, b"disk full").unwrap_err();
    assert!(matches!(r, PipelineError::Repack { .. }));
    assert!(!r.is_entry_level());
}

#[test]
fn target_validation_accepts_only_free_locations() {
    assert!(validate_target(TargetStatus::Missing).is_ok());
    assert!(validate_target(TargetStatus::EmptyDir).is_ok());
    assert!(matches!(
        validate_target(TargetStatus::NonEmptyDir),
        Err(PipelineError::Filesystem { .. })
    ));
    assert!(matches!(
        validate_target(TargetStatus::ExistingFile),
        Err(PipelineError::Filesystem { .. })
    ));
}

#[test]
fn a_job_walks_its_stages_in_order() {
    let s0 = Stage::Start;
    assert_eq!(next_action(s0), StageAction::CheckTarget);
    let s1 = advance(s0, StageEvent::TargetChecked(TargetStatus::Missing));
    assert_eq!(next_action(s1), StageAction::Unpack);
    let s2 = advance(s1, StageEvent::UnpackFinished(true));
    assert_eq!(next_action(s2), StageAction::Process);
    let s3 = advance(s2, StageEvent::ProcessFinished(true));
    assert_eq!(next_action(s3), StageAction::Repack);
    let s4 = advance(s3, StageEvent::RepackFinished(true));
    assert_eq!(next_action(s4), StageAction::Finish);
}

#[test]
fn an_occupied_target_aborts_before_unpacking() {
    let s0 = Stage::Start;
    let s1 = advance(s0, StageEvent::TargetChecked(TargetStatus::NonEmptyDir));
    assert_eq!(s1, Stage::Failed);
    assert_eq!(next_action(s1), StageAction::Abort);
}

#[test]
fn a_failed_repack_aborts_the_job() {
    let s = advance(
        advance(
            advance(
                advance(Stage::Start, StageEvent::TargetChecked(TargetStatus::EmptyDir)),
                StageEvent::UnpackFinished(true),
            ),
            StageEvent::ProcessFinished(true),
        ),
        StageEvent::RepackFinished(false),
    );
    assert_eq!(s, Stage::Failed);
}
