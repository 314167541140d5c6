use phink::bug::BugManager;
use phink::config::Configuration;
use phink::fuzz::{Fuzzer, HarnessVerdict};
use phink::metadata::{extract_invariants, ConstructorSpec, ContractSpecs, MessageSpec};
use phink::remote::ContractBridge;
use phink::selector::Selector;

const REGISTER: [u8; 4] = [0x22, 0x9b, 0x55, 0x3f];
const SET_ADDRESS: [u8; 4] = [0xb8, 0x81, 0x3c, 0xf1];
const TRANSFER: [u8; 4] = [0x84, 0xa1, 0x5d, 0xa1];
const PAY_ME: [u8; 4] = [0x1d, 0x2f, 0x13, 0xd5];
const INV_HASH42: [u8; 4] = [0xfa, 0x01, 0x02, 0x03];
const INV_DANGEROUS: [u8; 4] = [0xfa, 0x11, 0x12, 0x13];
const INV_1337: [u8; 4] = [0xfa, 0x21, 0x22, 0x23];
const INV_THREE: [u8; 4] = [0xfa, 0x31, 0x32, 0x33];

fn dns_specs() -> ContractSpecs {
    let msg = |label: &[u8], sel: [u8; 4], payable: bool, arg_len: usize, mutates: bool| MessageSpec {
        label: label.to_vec(),
        selector: Selector::of(sel[0], sel[1], sel[2], sel[3]),
        payable,
        arg_len,
        mutates,
    };
    ContractSpecs {
        messages: vec![
            msg(b"register", REGISTER, false, 32, true),
            msg(b"set_address", SET_ADDRESS, false, 64, true),
            msg(b"transfer", TRANSFER, false, 68, true),
            msg(b"pay_me", PAY_ME, true, 0, true),
            msg(b"get_address", [0xd2, 0x59, 0xf7, 0xc3], false, 32, false),
            msg(b"get_owner", [0x07, 0xfc, 0xd0, 0xb9], false, 32, false),
            msg(b"phink_assert_three_message_calls_required_to_crash", INV_THREE, false, 0, false),
            msg(b"phink_assert_hash42_cant_be_registered", INV_HASH42, false, 0, false),
            msg(b"phink_assert_dangerous_number", INV_DANGEROUS, false, 0, false),
            msg(b"phink_assert_cannot_transfer_1337", INV_1337, false, 0, false),
        ],
        constructors: vec![ConstructorSpec {
            label: b"new".to_vec(),
            selector: Selector::of(0x9b, 0xae, 0x9d, 0x5e),
            arg_len: 0,
        }],
    }
}

fn make_fuzzer() -> (Fuzzer, BugManager) {
    let wasm = vec![0x00, 0x61, 0x73, 0x6d];
    let bridge = ContractBridge::initialize_wasm(&wasm, dns_specs(), &Configuration::default())
        .expect("deployment succeeds");
    let invariants =
        extract_invariants(&dns_specs()).expect("the sample declares invariant messages");
    let bridge_for_bugs =
        ContractBridge::initialize_wasm(&wasm, dns_specs(), &Configuration::default())
            .expect("deployment succeeds");
    let bug_manager = BugManager::from(invariants, bridge_for_bugs, Configuration::default());
    (Fuzzer::new(bridge), bug_manager)
}

const DELIM: [u8; 8] = [b'*'; 8];

fn input_of(origin: u8, fragments: &[Vec<u8>]) -> Vec<u8> {
    let mut data = vec![origin];
    for (i, f) in fragments.iter().enumerate() {
        if i > 0 {
            data.extend_from_slice(&DELIM);
        }
        data.extend_from_slice(f);
    }
    data
}

fn frag(sel: [u8; 4], parts: &[&[u8]]) -> Vec<u8> {
    let mut f = sel.to_vec();
    for p in parts {
        f.extend_from_slice(p);
    }
    f
}

#[test]
fn register_is_clean_and_covered() {
    let (fuzzer, bug_manager) = make_fuzzer();
    let input = input_of(1, &[frag(REGISTER, &[&[0x99; 32]])]);
    let outcome = Fuzzer::harness(&fuzzer, &bug_manager, &input);
    assert!(matches!(outcome.verdict, HarnessVerdict::Clean));
    assert_eq!(outcome.responses.len(), 1);
    let first = &outcome.responses[0];
    assert!(first.result.is_ok());
    assert_eq!(first.result.as_ref().unwrap().data, vec![0]);
    assert_eq!(first.debug_message, b"COV=109".to_vec());
    assert_eq!(first.events.len(), 1);
    assert!(outcome.coverage.lines().contains(&109));
}

#[test]
fn forbidden_domain_transfer_breaks_hash42_invariant() {
    // Origin 0 broadcasts to the default address, which owns every
    // unregistered name, so the unguarded transfer of the forbidden
    // domain goes through.
    let (fuzzer, bug_manager) = make_fuzzer();
    let mut forbidden = [0u8; 32];
    forbidden[31] = 1;
    let bob = [2u8; 32];
    let input = input_of(
        0,
        &[frag(TRANSFER, &[&forbidden, &bob, &42i32.to_le_bytes()])],
    );
    let outcome = Fuzzer::harness(&fuzzer, &bug_manager, &input);
    assert_eq!(outcome.responses.len(), 1);
    assert!(outcome.responses[0].result.is_ok());
    assert_eq!(outcome.responses[0].result.as_ref().unwrap().data, vec![0]);
    match outcome.verdict {
        HarnessVerdict::InvariantBroken { selector, response } => {
            assert_eq!(selector.to_bytes(), INV_HASH42.to_vec());
            assert!(response.result.is_err());
        }
        other => panic!("expected a broken invariant, got {:?}", verdict_name(&other)),
    }
}

#[test]
fn dangerous_number_invariant_breaks() {
    // 139 stores 139 mod 70 = 69 into dangerous_number.
    let (fuzzer, bug_manager) = make_fuzzer();
    let any = [7u8; 32];
    let bob = [2u8; 32];
    let input = input_of(0, &[frag(TRANSFER, &[&any, &bob, &139i32.to_le_bytes()])]);
    let outcome = Fuzzer::harness(&fuzzer, &bug_manager, &input);
    assert!(outcome.responses[0].result.is_ok());
    match outcome.verdict {
        HarnessVerdict::InvariantBroken { selector, .. } => {
            assert_eq!(selector.to_bytes(), INV_DANGEROUS.to_vec());
        }
        other => panic!("expected a broken invariant, got {:?}", verdict_name(&other)),
    }
}

#[test]
fn nested_call_bug_needs_three_messages() {
    let (fuzzer, bug_manager) = make_fuzzer();
    let any = [7u8; 32];
    let other = [9u8; 32];
    let mut forbidden = [0u8; 32];
    forbidden[31] = 1;
    let bob = [2u8; 32];
    let input = input_of(
        0,
        &[
            frag(TRANSFER, &[&any, &bob, &80i32.to_le_bytes()]),
            frag(REGISTER, &[&forbidden]),
            frag(SET_ADDRESS, &[&other, &bob]),
        ],
    );
    let outcome = Fuzzer::harness(&fuzzer, &bug_manager, &input);
    assert_eq!(outcome.responses.len(), 3);
    for r in &outcome.responses {
        assert!(r.result.is_ok());
        assert_eq!(r.result.as_ref().unwrap().data, vec![0]);
    }
    match outcome.verdict {
        HarnessVerdict::InvariantBroken { selector, .. } => {
            assert_eq!(selector.to_bytes(), INV_THREE.to_vec());
        }
        other => panic!("expected a broken invariant, got {:?}", verdict_name(&other)),
    }
}

#[test]
fn leet_payment_breaks_transfer_invariant() {
    let (fuzzer, bug_manager) = make_fuzzer();
    let input = input_of(1, &[frag(PAY_ME, &[&1377u32.to_le_bytes()])]);
    let outcome = Fuzzer::harness(&fuzzer, &bug_manager, &input);
    assert_eq!(outcome.responses.len(), 1);
    assert!(outcome.responses[0].result.is_ok());
    match outcome.verdict {
        HarnessVerdict::InvariantBroken { selector, .. } => {
            assert_eq!(selector.to_bytes(), INV_1337.to_vec());
        }
        other => panic!("expected a broken invariant, got {:?}", verdict_name(&other)),
    }
}

#[test]
fn two_byte_input_is_skipped() {
    let (fuzzer, bug_manager) = make_fuzzer();
    let outcome = Fuzzer::harness(&fuzzer, &bug_manager, &[0x00, 0x01]);
    assert!(matches!(outcome.verdict, HarnessVerdict::Skipped));
    assert!(outcome.responses.is_empty());
    assert!(outcome.decoded.messages.is_empty());
    assert!(outcome.coverage.lines().is_empty());
}

#[test]
fn iteration_isolation_holds() {
    // Running input A first must leave the responses of B exactly what
    // they are when B runs alone: the genesis never mutates.
    let (fuzzer, bug_manager) = make_fuzzer();
    let input_a = input_of(1, &[frag(PAY_ME, &[&1377u32.to_le_bytes()])]);
    let input_b = input_of(1, &[frag(REGISTER, &[&[0x99; 32]])]);

    let _ = Fuzzer::harness(&fuzzer, &bug_manager, &input_a);
    let b_after_a = Fuzzer::harness(&fuzzer, &bug_manager, &input_b);

    let (fresh_fuzzer, fresh_bug_manager) = make_fuzzer();
    let b_alone = Fuzzer::harness(&fresh_fuzzer, &fresh_bug_manager, &input_b);

    assert_eq!(b_after_a.responses.len(), b_alone.responses.len());
    for (x, y) in b_after_a.responses.iter().zip(b_alone.responses.iter()) {
        assert_eq!(x.result.is_ok(), y.result.is_ok());
        assert_eq!(
            x.result.as_ref().ok().map(|v| v.data.clone()),
            y.result.as_ref().ok().map(|v| v.data.clone())
        );
        assert_eq!(x.debug_message, y.debug_message);
    }
    assert!(matches!(b_after_a.verdict, HarnessVerdict::Clean));
    assert!(matches!(b_alone.verdict, HarnessVerdict::Clean));
}

#[test]
fn unknown_selector_traps_and_is_detected() {
    let (fuzzer, bug_manager) = make_fuzzer();
    let mut chain = fuzzer.setup.genesis.duplicate();
    let payload = vec![0xde, 0xad, 0xbe, 0xef];
    let response = fuzzer.setup.call(&mut chain, &payload, 0, 0);
    assert!(response.result.is_err());
    assert!(bug_manager.is_contract_trapped(&response));

    // A regular error response is no trap.
    let (fuzzer2, _) = make_fuzzer();
    let mut chain2 = fuzzer2.setup.genesis.duplicate();
    let mut transfer_payload = TRANSFER.to_vec();
    transfer_payload.extend_from_slice(&[7u8; 32]);
    transfer_payload.extend_from_slice(&[2u8; 32]);
    transfer_payload.extend_from_slice(&69i32.to_le_bytes());
    // Caller 0 owns the unregistered name, but 69 is refused.
    let refused = fuzzer2.setup.call(&mut chain2, &transfer_payload, 0, 0);
    assert!(refused.result.is_ok());
    assert_eq!(refused.result.as_ref().unwrap().data, vec![1, 2]);
    assert!(!bug_manager.is_contract_trapped(&refused));
}

fn verdict_name(v: &HarnessVerdict) -> &'static str {
    match v {
        HarnessVerdict::Skipped => "skipped",
        HarnessVerdict::Clean => "clean",
        HarnessVerdict::Trapped { .. } => "trapped",
        HarnessVerdict::InvariantBroken { .. } => "invariant broken",
    }
}
