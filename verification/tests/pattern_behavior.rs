use img_optim::job::Conversion;
use img_optim::errors::PipelineError;
use img_optim::pattern::{derive_glob, escape_glob, extract_capture, jobs_from_matches, resolve_pattern};
use img_optim::text::{find_first, replace_all, sort_paths};

fn default_cfg() -> Conversion {
    Conversion::new(None, None, None, None)
}

#[test]
fn escape_glob_escapes_metacharacters() {
    assert_eq!(escape_glob(b"a*b?c").as_slice(), b"a\\*b\\?c");
    assert_eq!(escape_glob(b"x[1]{2}!#").as_slice(), b"x\\[1\\]\\{2\\}\\!\\#");
    assert_eq!(escape_glob(b"plain-name.cbz").as_slice(), b"plain-name.cbz");
}

#[test]
fn derive_glob_widens_token_to_wildcards() {
    assert_eq!(derive_glob(b"book-##.cbz", b"##").as_slice(), b"book-??.cbz");
}

#[test]
fn derive_glob_escapes_literal_portions() {
    assert_eq!(derive_glob(b"b*ok-##.cbz", b"##").as_slice(), b"b\\*ok-??.cbz");
}

#[test]
fn derive_glob_handles_repeated_token() {
    assert_eq!(derive_glob(b"v##-##.cbz", b"##").as_slice(), b"v??-??.cbz");
}

#[test]
fn capture_binds_fixed_width_value() {
    let cap = extract_capture(b"book-##.cbz", b"##", b"./book-01.cbz");
    assert_eq!(cap.unwrap().as_slice(), b"01");
}

#[test]
fn capture_rejects_non_matching_path() {
    assert!(extract_capture(b"book-##.cbz", b"##", b"book-01.cbr").is_none());
}

#[test]
fn capture_refuses_newline_in_bound_value() {
    assert!(extract_capture(b"book-##.cbz", b"##", b"book-\n1.cbz").is_none());
}

#[test]
fn find_first_returns_leftmost_occurrence() {
    assert_eq!(find_first(b"a##b##", b"##"), 1);
}

#[test]
fn replace_all_substitutes_every_occurrence() {
    assert_eq!(replace_all(b"out-##.cbz", b"##", b"07").as_slice(), b"out-07.cbz");
    assert_eq!(replace_all(b"a##b##", b"##", b"xy").as_slice(), b"axybxy");
}

#[test]
fn sort_paths_orders_lexicographically() {
    let mut v = vec![
        b"book-10.cbz".to_vec(),
        b"book-01.cbz".to_vec(),
        b"book-02.cbz".to_vec(),
    ];
    sort_paths(&mut v);
    assert_eq!(v[0].as_slice(), b"book-01.cbz");
    assert_eq!(v[1].as_slice(), b"book-02.cbz");
    assert_eq!(v[2].as_slice(), b"book-10.cbz");
}

#[test]
fn three_books_resolve_in_order() {
    let cfg = default_cfg();
    let paths = vec![
        b"book-01.cbz".to_vec(),
        b"book-02.cbz".to_vec(),
        b"book-10.cbz".to_vec(),
    ];
    let jobs = jobs_from_matches(b"book-##.cbz", b"out-##.cbz", b"##", &cfg, &paths).unwrap();
    assert_eq!(jobs.len(), 3);
    assert_eq!(jobs[0].source.as_slice(), b"book-01.cbz");
    assert_eq!(jobs[0].target.as_slice(), b"out-01.cbz");
    assert_eq!(jobs[1].target.as_slice(), b"out-02.cbz");
    assert_eq!(jobs[2].target.as_slice(), b"out-10.cbz");
    assert_eq!(jobs[0].config.quality.as_slice(), b"80");
    assert_eq!(jobs[0].config.geometry.as_slice(), b"1000x1400^");
    assert_eq!(jobs[0].config.extension.as_slice(), b"jpg");
}

#[test]
fn resolution_fails_without_token_in_source() {
    let cfg = default_cfg();
    let r = resolve_pattern(b"book.cbz", b"out-##.cbz", b"##", &cfg);
    assert!(matches!(r, Err(PipelineError::Configuration { .. })));
}

#[test]
fn resolution_fails_without_token_in_target() {
    let cfg = default_cfg();
    let r = resolve_pattern(b"book-##.cbz", b"out.cbz", b"##", &cfg);
    assert!(matches!(r, Err(PipelineError::Configuration { .. })));
}

#[test]
fn empty_token_degenerates_to_literal_lookup() {
    // An empty token occurs in every template, so resolution proceeds: the
    // derived glob is the literal source and the target stays unchanged.
    assert_eq!(derive_glob(b"book.cbz", b"").as_slice(), b"book.cbz");
    assert_eq!(
        extract_capture(b"book.cbz", b"", b"./book.cbz").unwrap().as_slice(),
        b""
    );
    let cfg = default_cfg();
    let paths = vec![b"./book.cbz".to_vec()];
    let jobs = jobs_from_matches(b"book.cbz", b"out.cbz", b"", &cfg, &paths).unwrap();
    assert_eq!(jobs.len(), 1);
    assert_eq!(jobs[0].source.as_slice(), b"./book.cbz");
    assert_eq!(jobs[0].target.as_slice(), b"out.cbz");
}

#[test]
fn replacing_an_empty_needle_changes_nothing() {
    assert_eq!(replace_all(b"abc", b"", b"x").as_slice(), b"abc");
}

#[test]
fn unmatched_glob_hit_is_a_pattern_error() {
    let cfg = default_cfg();
    let paths = vec![b"zzz".to_vec()];
    let r = jobs_from_matches(b"book-##.cbz", b"out-##.cbz", b"##", &cfg, &paths);
    assert!(matches!(r, Err(PipelineError::PatternMatch { .. })));
}

#[test]
fn custom_configuration_is_carried_into_jobs() {
    let cfg = Conversion::new(
        Some(b"800x600^".to_vec()),
        Some(b"90".to_vec()),
        Some(b"webp:lossless=true".to_vec()),
        Some(b"webp".to_vec()),
    );
    let paths = vec![b"book-01.cbz".to_vec()];
    let jobs = jobs_from_matches(b"book-##.cbz", b"out-##.cbz", b"##", &cfg, &paths).unwrap();
    assert_eq!(jobs[0].config.geometry.as_slice(), b"800x600^");
    assert_eq!(jobs[0].config.quality.as_slice(), b"90");
    assert_eq!(jobs[0].config.define.as_ref().unwrap().as_slice(), b"webp:lossless=true");
    assert_eq!(jobs[0].config.extension.as_slice(), b"webp");
}
