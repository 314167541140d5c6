use phink::metadata::{ConstructorSpec, ContractSpecs, MessageSpec};
use phink::parser::{parse_input, MAX_MESSAGES_PER_EXEC};
use phink::selector::Selector;

fn dns_specs() -> ContractSpecs {
    let msg = |label: &[u8], sel: [u8; 4], payable: bool, arg_len: usize, mutates: bool| MessageSpec {
        label: label.to_vec(),
        selector: Selector::of(sel[0], sel[1], sel[2], sel[3]),
        payable,
        arg_len,
        mutates,
    };
    ContractSpecs {
        messages: vec![
            msg(b"register", [0x22, 0x9b, 0x55, 0x3f], false, 32, true),
            msg(b"set_address", [0xb8, 0x81, 0x3c, 0xf1], false, 64, true),
            msg(b"transfer", [0x84, 0xa1, 0x5d, 0xa1], false, 68, true),
            msg(b"pay_me", [0x1d, 0x2f, 0x13, 0xd5], true, 0, true),
            msg(b"get_address", [0xd2, 0x59, 0xf7, 0xc3], false, 32, false),
            msg(b"get_owner", [0x07, 0xfc, 0xd0, 0xb9], false, 32, false),
            msg(b"phink_assert_hash42_cant_be_registered", [0xfa, 0x01, 0x02, 0x03], false, 0, false),
            msg(b"phink_assert_dangerous_number", [0xfa, 0x11, 0x12, 0x13], false, 0, false),
            msg(b"phink_assert_cannot_transfer_1337", [0xfa, 0x21, 0x22, 0x23], false, 0, false),
            msg(
                b"phink_assert_three_message_calls_required_to_crash",
                [0xfa, 0x31, 0x32, 0x33],
                false,
                0,
                false,
            ),
        ],
        constructors: vec![ConstructorSpec {
            label: b"new".to_vec(),
            selector: Selector::of(0x9b, 0xae, 0x9d, 0x5e),
            arg_len: 0,
        }],
    }
}

const DELIM: [u8; 8] = [b'*'; 8];

fn input_of(origin: u8, fragments: &[Vec<u8>]) -> Vec<u8> {
    let mut data = vec![origin];
    for (i, f) in fragments.iter().enumerate() {
        if i > 0 {
            data.extend_from_slice(&DELIM);
        }
        data.extend_from_slice(f);
    }
    data
}

#[test]
fn test_parse_input() {
    let specs = dns_specs();
    let encoded_bytes = hex::decode(
        "229b553f9400000000000000000027272727272727272700002727272727272727272727",
    )
    .expect("Failed to decode hex string");
    assert_eq!(encoded_bytes.len(), 36);

    let data = input_of(1, &[encoded_bytes.clone()]);
    let decoded = parse_input(&data, &specs);
    assert_eq!(decoded.origin, 1);
    assert_eq!(decoded.messages.len(), 1);
    assert_eq!(decoded.messages[0].payload, encoded_bytes);
    assert!(!decoded.messages[0].is_payable);
}

#[test]
fn short_input_decodes_to_nothing() {
    let specs = dns_specs();
    for data in [vec![], vec![0x00], vec![0x00, 0x01], vec![0x00, 0x01, 0x02]] {
        let decoded = parse_input(&data, &specs);
        assert!(decoded.messages.is_empty());
        assert_eq!(decoded.origin, 0);
    }
}

#[test]
fn unknown_selector_is_dropped() {
    let specs = dns_specs();
    let data = input_of(3, &[vec![0xde, 0xad, 0xbe, 0xef, 0x01, 0x02]]);
    let decoded = parse_input(&data, &specs);
    assert!(decoded.messages.is_empty());
}

#[test]
fn invariant_selector_is_dropped() {
    let specs = dns_specs();
    // phink_assert_dangerous_number's selector never enters the corpus.
    let data = input_of(3, &[vec![0xfa, 0x11, 0x12, 0x13]]);
    let decoded = parse_input(&data, &specs);
    assert!(decoded.messages.is_empty());
}

#[test]
fn fragment_with_short_args_is_dropped() {
    let specs = dns_specs();
    // register wants 32 argument bytes; 5 are offered.
    let mut frag = vec![0x22, 0x9b, 0x55, 0x3f];
    frag.extend_from_slice(&[0u8; 5]);
    let data = input_of(2, &[frag]);
    let decoded = parse_input(&data, &specs);
    assert!(decoded.messages.is_empty());
}

#[test]
fn message_list_is_capped_at_four() {
    let specs = dns_specs();
    let mut frag = vec![0x1d, 0x2f, 0x13, 0xd5];
    frag.extend_from_slice(&[0, 0, 0, 0]);
    let frags = vec![frag.clone(), frag.clone(), frag.clone(), frag.clone(), frag.clone(), frag];
    let data = input_of(9, &frags);
    let decoded = parse_input(&data, &specs);
    assert_eq!(decoded.messages.len(), MAX_MESSAGES_PER_EXEC);
    assert_eq!(decoded.messages.len(), 4);
}

#[test]
fn decoding_is_deterministic() {
    let specs = dns_specs();
    let mut frag = vec![0x22, 0x9b, 0x55, 0x3f];
    frag.extend_from_slice(&[0x99; 32]);
    let data = input_of(7, &[frag]);
    let a = parse_input(&data, &specs);
    let b = parse_input(&data, &specs);
    assert_eq!(a.origin, b.origin);
    assert_eq!(a.messages.len(), b.messages.len());
    for (x, y) in a.messages.iter().zip(b.messages.iter()) {
        assert_eq!(x.payload, y.payload);
        assert_eq!(x.value_token, y.value_token);
        assert_eq!(x.is_payable, y.is_payable);
        assert_eq!(x.origin, y.origin);
    }
}

#[test]
fn payable_value_token_is_read_after_args() {
    let specs = dns_specs();
    // pay_me has no arguments; the four bytes after the selector carry the
    // little-endian transferred value.
    let frag = vec![0x1d, 0x2f, 0x13, 0xd5, 0x61, 0x05, 0x00, 0x00];
    let data = input_of(1, &[frag]);
    let decoded = parse_input(&data, &specs);
    assert_eq!(decoded.messages.len(), 1);
    assert!(decoded.messages[0].is_payable);
    assert_eq!(decoded.messages[0].value_token, 1377);
    // The consumed payload is the selector alone.
    assert_eq!(decoded.messages[0].payload, vec![0x1d, 0x2f, 0x13, 0xd5]);
}

#[test]
fn non_payable_value_token_is_zero() {
    let specs = dns_specs();
    let mut frag = vec![0x22, 0x9b, 0x55, 0x3f];
    frag.extend_from_slice(&[0x42; 32]);
    frag.extend_from_slice(&[0x61, 0x05, 0x00, 0x00]);
    let data = input_of(1, &[frag]);
    let decoded = parse_input(&data, &specs);
    assert_eq!(decoded.messages.len(), 1);
    assert_eq!(decoded.messages[0].value_token, 0);
}

#[test]
fn delimiter_splits_fragments() {
    let specs = dns_specs();
    let mut reg = vec![0x22, 0x9b, 0x55, 0x3f];
    reg.extend_from_slice(&[0x99; 32]);
    let pay = vec![0x1d, 0x2f, 0x13, 0xd5];
    let data = input_of(5, &[reg.clone(), pay.clone()]);
    let decoded = parse_input(&data, &specs);
    assert_eq!(decoded.messages.len(), 2);
    assert_eq!(decoded.messages[0].payload, reg);
    assert_eq!(decoded.messages[1].payload, pay);
    assert_eq!(decoded.messages[0].origin, 5);
}
