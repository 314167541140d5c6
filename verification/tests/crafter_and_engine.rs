use phink::config::Configuration;
use phink::fuzz::{dict_entry, dict_header_lines};
use phink::hexutil::hex_decode;
use phink::instrument::{fork_dir_name, get_dirs_to_remove, InstrumenterEngine};
use phink::metadata::{
    extract_all, extract_invariants, fuzzable_selectors, get_constructor, ConstructorSpec,
    ContractSpecs, MessageSpec,
};
use phink::remote::{ContractBridge, InitError};
use phink::selector::Selector;

fn dns_specs() -> ContractSpecs {
    let msg = |label: &[u8], sel: [u8; 4], payable: bool, arg_len: usize, mutates: bool| MessageSpec {
        label: label.to_vec(),
        selector: Selector::of(sel[0], sel[1], sel[2], sel[3]),
        payable,
        arg_len,
        mutates,
    };
    ContractSpecs {
        messages: vec![
            msg(b"register", [0x22, 0x9b, 0x55, 0x3f], false, 32, true),
            msg(b"set_address", [0xb8, 0x81, 0x3c, 0xf1], false, 64, true),
            msg(b"transfer", [0x84, 0xa1, 0x5d, 0xa1], false, 68, true),
            msg(b"pay_me", [0x1d, 0x2f, 0x13, 0xd5], true, 0, true),
            msg(b"get_address", [0xd2, 0x59, 0xf7, 0xc3], false, 32, false),
            msg(b"get_owner", [0x07, 0xfc, 0xd0, 0xb9], false, 32, false),
            msg(b"phink_assert_hash42_cant_be_registered", [0xfa, 0x01, 0x02, 0x03], false, 0, false),
            msg(b"phink_assert_dangerous_number", [0xfa, 0x11, 0x12, 0x13], false, 0, false),
            msg(b"phink_assert_cannot_transfer_1337", [0xfa, 0x21, 0x22, 0x23], false, 0, false),
            msg(
                b"phink_assert_three_message_calls_required_to_crash",
                [0xfa, 0x31, 0x32, 0x33],
                false,
                0,
                false,
            ),
        ],
        constructors: vec![ConstructorSpec {
            label: b"new".to_vec(),
            selector: Selector::of(0x9b, 0xae, 0x9d, 0x5e),
            arg_len: 0,
        }],
    }
}

#[test]
fn all_selectors_are_extracted_in_order() {
    let specs = dns_specs();
    let all = extract_all(&specs);
    assert_eq!(all.len(), 10);
    assert_eq!(all[0].to_bytes(), vec![0x22, 0x9b, 0x55, 0x3f]);
    assert_eq!(all[9].to_bytes(), vec![0xfa, 0x31, 0x32, 0x33]);
}

#[test]
fn invariants_are_the_phink_prefixed_messages() {
    let specs = dns_specs();
    let invs = extract_invariants(&specs).expect("invariants exist");
    assert_eq!(invs.len(), 4);
    assert_eq!(invs[0].to_bytes(), vec![0xfa, 0x01, 0x02, 0x03]);
    assert_eq!(invs[3].to_bytes(), vec![0xfa, 0x31, 0x32, 0x33]);

    let none = ContractSpecs {
        messages: vec![MessageSpec {
            label: b"register".to_vec(),
            selector: Selector::of(1, 2, 3, 4),
            payable: false,
            arg_len: 32,
            mutates: true,
        }],
        constructors: vec![],
    };
    assert!(extract_invariants(&none).is_none());
}

#[test]
fn fuzzable_selectors_exclude_invariants() {
    let specs = dns_specs();
    let fuzzable = fuzzable_selectors(&specs);
    assert_eq!(fuzzable.len(), 6);
    for s in &fuzzable {
        assert_ne!(s.b0, 0xfa);
    }
}

#[test]
fn default_constructor_prefers_new() {
    let specs = dns_specs();
    let payload = get_constructor(&specs).expect("a constructor exists");
    assert_eq!(payload, vec![0x9b, 0xae, 0x9d, 0x5e]);

    // Without a constructor named new, the first declared one wins, its
    // arguments zero-filled.
    let other = ContractSpecs {
        messages: vec![],
        constructors: vec![
            ConstructorSpec {
                label: b"with_seed".to_vec(),
                selector: Selector::of(0xaa, 0xbb, 0xcc, 0xdd),
                arg_len: 3,
            },
            ConstructorSpec {
                label: b"later".to_vec(),
                selector: Selector::of(0x01, 0x02, 0x03, 0x04),
                arg_len: 0,
            },
        ],
    };
    assert_eq!(get_constructor(&other).unwrap(), vec![0xaa, 0xbb, 0xcc, 0xdd, 0, 0, 0]);

    let empty = ContractSpecs { messages: vec![], constructors: vec![] };
    assert!(get_constructor(&empty).is_none());
}

#[test]
fn hex_decoding_accepts_exactly_hex_text() {
    assert_eq!(hex_decode(&b"9bae9d5e".to_vec()).unwrap(), vec![0x9b, 0xae, 0x9d, 0x5e]);
    assert_eq!(hex_decode(&b"00FFa5".to_vec()).unwrap(), vec![0x00, 0xff, 0xa5]);
    assert!(hex_decode(&b"xyz".to_vec()).is_none());
    assert!(hex_decode(&b"abc".to_vec()).is_none());
    assert_eq!(hex_decode(&b"".to_vec()).unwrap(), Vec::<u8>::new());
}

#[test]
fn deployment_uses_configured_hex_payload() {
    let wasm = vec![0x00, 0x61, 0x73, 0x6d];

    let mut config = Configuration::default();
    config.constructor_payload = Some(b"9bae9d5e".to_vec());
    // If the hex text were handed through unchanged it could not match
    // the constructor selector bytes.
    assert!(ContractBridge::initialize_wasm(&wasm, dns_specs(), &config).is_ok());

    let mut bad_hex = Configuration::default();
    bad_hex.constructor_payload = Some(b"not-hex".to_vec());
    assert_eq!(
        ContractBridge::initialize_wasm(&wasm, dns_specs(), &bad_hex).err(),
        Some(InitError::InvalidConstructorHex)
    );

    let mut unknown = Configuration::default();
    unknown.constructor_payload = Some(b"deadbeef".to_vec());
    assert_eq!(
        ContractBridge::initialize_wasm(&wasm, dns_specs(), &unknown).err(),
        Some(InitError::IncorrectInstantiation)
    );

    let no_ctor = ContractSpecs { messages: vec![], constructors: vec![] };
    assert_eq!(
        ContractBridge::initialize_wasm(&wasm, no_ctor, &Configuration::default()).err(),
        Some(InitError::MissingConstructor)
    );
}

#[test]
fn dict_entries_render_escaped_selectors() {
    let entry = dict_entry(&Selector::of(0x22, 0x9b, 0x55, 0x3f));
    assert_eq!(entry, b"\"\\x22\\x9B\\x55\\x3F\"".to_vec());

    let header = dict_header_lines();
    assert_eq!(header.len(), 3);
    assert_eq!(header[0], b"# Dictionary file for selectors".to_vec());
    assert_eq!(header[2], b"delimiter=\"********\"".to_vec());
}

#[test]
fn fork_names_carry_the_prefix_and_a_random_suffix() {
    let a = fork_dir_name();
    assert_eq!(a.len(), 21);
    assert!(a.starts_with("/tmp/ink_fuzzed_"));
    for c in a.chars().skip(16) {
        assert!(c.is_ascii_alphanumeric());
    }
}

#[test]
fn find_picks_the_first_wasm_artifact() {
    let engine = InstrumenterEngine::new(String::from("sample/dns"));
    assert_eq!(engine.contract_dir, "sample/dns");
    let entries = vec![
        String::from("metadata.txt"),
        String::from("dns.wasm"),
        String::from("other.wasm"),
    ];
    let found = engine.find(&entries).expect("a wasm artifact exists");
    assert_eq!(found.wasm_path, "dns.wasm");
    assert_eq!(found.specs_path, "dns.json");

    let nothing = vec![String::from("metadata.json")];
    assert!(engine.find(&nothing).is_err());
}

#[test]
fn cleaner_selects_forked_directories() {
    let entries = vec![
        String::from("ink_fuzzed_Ab3xZ"),
        String::from("systemd-private"),
        String::from("ink_fuzzed_q"),
        String::from("ink_fuzze"),
    ];
    let dirs = get_dirs_to_remove(&entries);
    assert_eq!(dirs, vec![String::from("ink_fuzzed_Ab3xZ"), String::from("ink_fuzzed_q")]);
}
