use phink::instrument::{
    already_instrumented, block_has_beacon, instrument_block, ContractCovUpdater, ModelStmt,
};

#[test]
fn test_already_instrumented_true() {
    let code = String::from(
        r#"
            fn main() {
                ink::env::debug_println!("COV=123");
            }
        "#,
    );
    assert!(already_instrumented(code.as_bytes()));
}

#[test]
fn test_already_instrumented_false() {
    let code = String::from(
        r#"
            fn main() {
                println!("Hello, world!");
            }
        "#,
    );
    assert!(!already_instrumented(code.as_bytes()));
}

#[test]
fn test_already_instrumented_multiple_lines() {
    let code = String::from(
        r#"
            fn main() {
                println!("This is a test.");
                ink::env::debug_println!("COV=456");
                println!("Another line.");
            }
        "#,
    );
    assert!(already_instrumented(code.as_bytes()));
}

#[test]
fn beacon_needs_digits_and_closing() {
    // The opening alone, or a non-digit payload, is no beacon.
    assert!(!already_instrumented(br#"ink::env::debug_println!("COV="#));
    assert!(!already_instrumented(br#"ink::env::debug_println!("COV=a")"#));
    assert!(!already_instrumented(br#"ink::env::debug_println!("COV=12"#));
    assert!(already_instrumented(br#"ink::env::debug_println!("COV=7")"#));
}

#[test]
fn beacon_needs_word_boundary() {
    // A word character directly in front means another identifier.
    assert!(!already_instrumented(br#"xink::env::debug_println!("COV=7")"#));
    assert!(already_instrumented(br#" ink::env::debug_println!("COV=7")"#));
}

#[test]
fn adding_cov_insertion_works() {
    let mut block = vec![
        ModelStmt::Code { line: 10 },
        ModelStmt::Code { line: 12 },
        ModelStmt::Code { line: 15 },
    ];
    let visitor = ContractCovUpdater::new();
    visitor.visit_block_mut(&mut block);
    assert_eq!(block.len(), 6);
    assert_eq!(block[0], ModelStmt::Beacon { line: 10 });
    assert_eq!(block[1], ModelStmt::Code { line: 10 });
    assert_eq!(block[2], ModelStmt::Beacon { line: 12 });
    assert_eq!(block[3], ModelStmt::Code { line: 12 });
    assert_eq!(block[4], ModelStmt::Beacon { line: 15 });
    assert_eq!(block[5], ModelStmt::Code { line: 15 });
    assert!(block_has_beacon(&block));
}

#[test]
fn instrumenting_twice_is_refused() {
    let block = vec![ModelStmt::Code { line: 3 }, ModelStmt::Code { line: 4 }];
    let once = instrument_block(&block).expect("fresh code instruments");
    assert!(block_has_beacon(&once));
    assert!(instrument_block(&once).is_err());
}

#[test]
fn empty_block_instruments_to_empty() {
    let block: Vec<ModelStmt> = Vec::new();
    let out = instrument_block(&block).expect("empty code instruments");
    assert!(out.is_empty());
}
