use phink::coverage::{remove_cov_from_trace, Coverage, InputCoverage};

#[test]
fn beacons_are_parsed_and_deduplicated() {
    let mut cov = InputCoverage::new();
    cov.add_cov(&b"COV=12\nhello\nCOV=12\nCOV=999".to_vec());
    let mut lines = cov.lines().clone();
    lines.sort();
    assert_eq!(lines, vec![12, 999]);
}

#[test]
fn malformed_beacon_lines_are_ignored() {
    let mut cov = InputCoverage::new();
    // No digits, stray text, digits too large for 64 bits, digits not at
    // the front: none of these counts.
    cov.add_cov(&b"COV=\nCOV=1x\nxCOV=2\nCOV=18446744073709551616\ncov=3".to_vec());
    assert!(cov.lines().is_empty());
    cov.add_cov(&b"COV=18446744073709551615".to_vec());
    assert_eq!(cov.lines(), &vec![u64::MAX]);
}

#[test]
fn run_wide_coverage_only_grows() {
    let mut run = Coverage::new();

    let mut first = InputCoverage::new();
    first.add_cov(&b"COV=109\nCOV=140".to_vec());
    run.merge(&first);
    assert!(run.lines().contains(&109));
    assert!(run.lines().contains(&140));

    let before: Vec<u64> = run.lines().clone();
    let mut second = InputCoverage::new();
    second.add_cov(&b"COV=167".to_vec());
    run.merge(&second);

    // Superset of the prior value, plus the new line.
    for line in &before {
        assert!(run.lines().contains(line));
    }
    assert!(run.lines().contains(&167));

    // Merging nothing changes nothing.
    let len_before = run.lines().len();
    run.merge(&InputCoverage::new());
    assert_eq!(run.lines().len(), len_before);
}

#[test]
fn cov_lines_are_stripped_from_traces() {
    let buf = b"panicked at lib.rs\nCOV=109\nassertion failed\nCOV=140".to_vec();
    assert_eq!(
        remove_cov_from_trace(&buf),
        b"panicked at lib.rs\nassertion failed".to_vec()
    );

    // A buffer of beacons alone strips to nothing.
    assert_eq!(remove_cov_from_trace(&b"COV=1\nCOV=2".to_vec()), Vec::<u8>::new());

    // Non-beacon text survives unchanged, including an empty trailing line.
    assert_eq!(remove_cov_from_trace(&b"keep\n".to_vec()), b"keep\n".to_vec());
}
