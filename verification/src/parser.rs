//! The input decoder: translates one raw fuzzer byte string into an ordered,
//! bounded sequence of contract messages sharing a single origin.
//!
//! Layout of a raw input: byte 0 is the caller origin; the remainder is split
//! on the eight-asterisk delimiter; each fragment must open with the four
//! bytes of a known non-invariant selector, followed by the scale-encoded
//! argument bytes the metadata declares for that message, optionally followed
//! by up to four little-endian bytes read as the transferred value when the
//! message is payable.

use vstd::prelude::*;

use crate::bytesutil::le_value;
use crate::bytesutil::copy_range;
use crate::bytesutil::le_bytes_value;
use crate::metadata::ContractSpecs;
use crate::metadata::MessageSpec;
use crate::metadata::distinct_selectors;
use crate::metadata::find_message;
use crate::metadata::find_message_from;
use crate::metadata::fuzzable_selectors_spec;
use crate::metadata::is_invariant_label;
use crate::metadata::lemma_find_message_from_props;
use crate::metadata::lemma_fuzzable_member;
use crate::metadata::spec_is_invariant_label;
use crate::selector::Selector;

verus! {

/// No execution runs more than this many decoded messages.
pub const MAX_MESSAGES_PER_EXEC: usize = 4;

/// A single decoded contract invocation.
pub struct Message {
    /// The selector followed by the consumed argument bytes.
    pub payload: Vec<u8>,
    /// The caller origin byte, broadcast to an account id by the runtime.
    pub origin: u8,
    /// The value transferred with the call when the message is payable.
    pub value_token: u128,
    /// Copied from the metadata of the selected message.
    pub is_payable: bool,
}

/// The mathematical model of a decoded message.
pub ghost struct MessageModel {
    pub payload: Seq<u8>,
    pub origin: u8,
    pub value_token: u128,
    pub is_payable: bool,
}

impl View for Message {
    type V = MessageModel;

    open spec fn view(&self) -> MessageModel {
        MessageModel {
            payload: self.payload@,
            origin: self.origin,
            value_token: self.value_token,
            is_payable: self.is_payable,
        }
    }
}

/// One fuzzing iteration's decoded message sequence, with a shared origin.
pub struct OneInput {
    pub messages: Vec<Message>,
    pub origin: u8,
}

/// The mathematical model of a decoded input.
pub ghost struct OneInputModel {
    pub messages: Seq<MessageModel>,
    pub origin: u8,
}

pub open spec fn msgs_view(v: Seq<Message>) -> Seq<MessageModel> {
    v.map_values(|m: Message| m@)
}

impl View for OneInput {
    type V = OneInputModel;

    open spec fn view(&self) -> OneInputModel {
        OneInputModel { messages: msgs_view(self.messages@), origin: self.origin }
    }
}

/// The eight-byte framing delimiter, `********`.
pub open spec fn delim() -> Seq<u8> {
    seq![42u8, 42u8, 42u8, 42u8, 42u8, 42u8, 42u8, 42u8]
}

/// The first position at or after `i` where the delimiter occurs in `s`.
pub open spec fn find_delim_from(s: Seq<u8>, i: int) -> Option<int>
    decreases s.len() - i,
{
    if i < 0 || i + 8 > s.len() {
        None
    } else if s.subrange(i, i + 8) == delim() {
        Some(i)
    } else {
        find_delim_from(s, i + 1)
    }
}

pub proof fn lemma_find_delim_from_bounds(s: Seq<u8>, i: int)
    ensures
        find_delim_from(s, i) matches Some(j) ==> i <= j && j + 8 <= s.len() && s.subrange(
            j,
            j + 8,
        ) == delim(),
    decreases s.len() - i,
{
    if i < 0 || i + 8 > s.len() {
    } else if s.subrange(i, i + 8) == delim() {
    } else {
        lemma_find_delim_from_bounds(s, i + 1);
    }
}

/// The fragments of `s` from position `start` on, split on the delimiter.
pub open spec fn fragments_from(s: Seq<u8>, start: int) -> Seq<Seq<u8>>
    decreases s.len() - start,
{
    if start < 0 || start > s.len() {
        Seq::empty()
    } else {
        match find_delim_from(s, start) {
            None => seq![s.subrange(start, s.len() as int)],
            Some(j) => if start <= j && j + 8 <= s.len() {
                seq![s.subrange(start, j)] + fragments_from(s, j + 8)
            } else {
                seq![s.subrange(start, s.len() as int)]
            },
        }
    }
}

/// The selector standing in the first four bytes of a payload.
pub open spec fn prefix_selector(p: Seq<u8>) -> Selector {
    Selector { b0: p[0], b1: p[1], b2: p[2], b3: p[3] }
}

/// What one fragment decodes to, if anything: the four-byte prefix must
/// name a non-invariant message, the declared argument bytes must all be
/// present, and the value bytes (when payable) follow the arguments.
pub open spec fn decode_fragment_spec(frag: Seq<u8>, msgs: Seq<MessageSpec>, origin: u8) -> Option<
    MessageModel,
> {
    if frag.len() < 4 {
        None
    } else {
        let sel = prefix_selector(frag);
        match find_message_from(msgs, sel, 0) {
            None => None,
            Some(i) => {
                let m = msgs[i];
                if spec_is_invariant_label(m.label@) {
                    None
                } else if frag.len() - 4 < m.arg_len {
                    None
                } else {
                    let vs = 4 + m.arg_len;
                    let ve = if vs + 4 <= frag.len() {
                        vs + 4 as int
                    } else {
                        frag.len() as int
                    };
                    Some(
                        MessageModel {
                            payload: frag.subrange(0, 4 + m.arg_len),
                            origin,
                            value_token: if m.payable {
                                le_value(frag.subrange(vs as int, ve)) as u128
                            } else {
                                0
                            },
                            is_payable: m.payable,
                        },
                    )
                }
            },
        }
    }
}

/// The messages a fragment list decodes to, in order, dropped fragments
/// left out.
pub open spec fn decode_fragments_spec(
    frags: Seq<Seq<u8>>,
    msgs: Seq<MessageSpec>,
    origin: u8,
) -> Seq<MessageModel>
    decreases frags.len(),
{
    if frags.len() == 0 {
        Seq::empty()
    } else {
        (match decode_fragment_spec(frags[0], msgs, origin) {
            Some(m) => seq![m],
            None => Seq::empty(),
        }) + decode_fragments_spec(frags.drop_first(), msgs, origin)
    }
}

/// What a raw input decodes to: an input shorter than four bytes decodes to
/// no messages at all; otherwise byte 0 is the origin and the remainder is
/// split, decoded and capped at `MAX_MESSAGES_PER_EXEC`.
pub open spec fn parse_input_spec(data: Seq<u8>, msgs: Seq<MessageSpec>) -> OneInputModel {
    if data.len() < 4 {
        OneInputModel { messages: Seq::empty(), origin: 0 }
    } else {
        let all = decode_fragments_spec(fragments_from(data, 1), msgs, data[0]);
        OneInputModel {
            messages: if all.len() <= MAX_MESSAGES_PER_EXEC {
                all
            } else {
                all.take(MAX_MESSAGES_PER_EXEC as int)
            },
            origin: data[0],
        }
    }
}

/// Whether the delimiter stands at position `i` of `data`.
fn is_delim_at(data: &[u8], i: usize) -> (r: bool)
    requires
        i <= data@.len(),
    ensures
        r == (i + 8 <= data@.len() && data@.subrange(i as int, i + 8) == delim()),
{
    if data.len() - i < 8 {
        return false;
    }
    let r = data[i] == 42 && data[i + 1] == 42 && data[i + 2] == 42 && data[i + 3] == 42 && data[i
        + 4] == 42 && data[i + 5] == 42 && data[i + 6] == 42 && data[i + 7] == 42;
    proof {
        let w = data@.subrange(i as int, i + 8);
        if r {
            assert(w =~= delim());
        } else {
            if w == delim() {
                assert(forall|k: int| 0 <= k < 8 ==> w[k] == 42u8);
                assert(data@[i as int] == w[0]);
                assert(data@[i + 1] == w[1]);
                assert(data@[i + 2] == w[2]);
                assert(data@[i + 3] == w[3]);
                assert(data@[i + 4] == w[4]);
                assert(data@[i + 5] == w[5]);
                assert(data@[i + 6] == w[6]);
                assert(data@[i + 7] == w[7]);
            }
        }
    }
    r
}

/// The first delimiter position at or after `from`.
fn find_delim(data: &[u8], from: usize) -> (r: Option<usize>)
    requires
        from <= data@.len(),
    ensures
        match r {
            Some(j) => find_delim_from(data@, from as int) == Some(j as int),
            None => find_delim_from(data@, from as int) is None,
        },
{
    let mut i: usize = from;
    while data.len() - i >= 8
        invariant
            from <= i <= data@.len(),
            find_delim_from(data@, from as int) == find_delim_from(data@, i as int),
        decreases data@.len() - i,
    {
        if is_delim_at(data, i) {
            return Some(i);
        }
        i = i + 1;
    }
    None
}

/// Decodes the fragment `data[from..to]`.
fn decode_fragment(data: &[u8], from: usize, to: usize, specs: &ContractSpecs, origin: u8) -> (r:
    Option<Message>)
    requires
        from <= to <= data@.len(),
    ensures
        r is Some <==> decode_fragment_spec(data@.subrange(from as int, to as int), specs.messages@, origin)
            is Some,
        r is Some ==> r->0@ == decode_fragment_spec(
            data@.subrange(from as int, to as int),
            specs.messages@,
            origin,
        )->0,
{
    let ghost frag = data@.subrange(from as int, to as int);
    if to - from < 4 {
        return None;
    }
    let sel = Selector::of(data[from], data[from + 1], data[from + 2], data[from + 3]);
    proof {
        assert(sel == prefix_selector(frag));
    }
    let idx = match find_message(specs, &sel) {
        None => {
            return None;
        },
        Some(i) => i,
    };
    let m = &specs.messages[idx];
    proof {
        lemma_find_message_from_props(specs.messages@, sel, 0);
    }
    if is_invariant_label(&m.label) {
        return None;
    }
    if to - from - 4 < m.arg_len {
        return None;
    }
    let arg_end: usize = from + 4 + m.arg_len;
    let value_end: usize = if to - arg_end >= 4 {
        arg_end + 4
    } else {
        to
    };
    let payload = copy_range(data, from, arg_end);
    let value_token: u128 = if m.payable {
        le_bytes_value(data, arg_end, value_end)
    } else {
        0
    };
    let r = Message { payload, origin, value_token, is_payable: m.payable };
    proof {
        assert(frag.subrange(0, 4 + m.arg_len as int) =~= data@.subrange(
            from as int,
            arg_end as int,
        ));
        assert(frag.subrange(4 + m.arg_len as int, (value_end - from) as int) =~= data@.subrange(
            arg_end as int,
            value_end as int,
        ));
    }
    Some(r)
}

/// Appends to `out` every message decoded from the fragments of
/// `data[start..]`.
fn collect_messages(
    data: &[u8],
    start: usize,
    specs: &ContractSpecs,
    origin: u8,
    out: &mut Vec<Message>,
)
    requires
        start <= data@.len(),
    ensures
        msgs_view(final(out)@) == msgs_view(old(out)@) + decode_fragments_spec(
            fragments_from(data@, start as int),
            specs.messages@,
            origin,
        ),
    decreases data@.len() - start,
{
    proof {
        lemma_find_delim_from_bounds(data@, start as int);
    }
    let ghost frags = fragments_from(data@, start as int);
    let ghost dec = decode_fragments_spec(frags, specs.messages@, origin);
    match find_delim(data, start) {
        None => {
            proof {
                assert(frags =~= seq![data@.subrange(start as int, data@.len() as int)]);
                assert(frags.drop_first() =~= Seq::<Seq<u8>>::empty());
            }
            let ghost head = decode_fragment_spec(frags[0], specs.messages@, origin);
            match decode_fragment(data, start, data.len(), specs, origin) {
                Some(m) => {
                    let ghost mm = m@;
                    proof {
                        reveal_with_fuel(decode_fragments_spec, 2);
                        assert(head == Some(mm));
                        assert(dec =~= seq![mm]);
                        assert(msgs_view(out@.push(m)) =~= msgs_view(out@) + dec);
                    }
                    out.push(m);
                },
                None => {
                    proof {
                        reveal_with_fuel(decode_fragments_spec, 2);
                        assert(dec =~= Seq::<MessageModel>::empty());
                        assert(msgs_view(out@) =~= msgs_view(out@) + dec);
                    }
                },
            }
        },
        Some(j) => {
            proof {
                assert(j + 8 <= data@.len());
                assert(frags == seq![data@.subrange(start as int, j as int)] + fragments_from(
                    data@,
                    j + 8,
                ));
                assert(frags[0] == data@.subrange(start as int, j as int));
                assert(frags.drop_first() =~= fragments_from(data@, j + 8));
            }
            let ghost tail = decode_fragments_spec(
                fragments_from(data@, j + 8),
                specs.messages@,
                origin,
            );
            match decode_fragment(data, start, j, specs, origin) {
                Some(m) => {
                    let ghost mm = m@;
                    let ghost before = msgs_view(out@);
                    proof {
                        assert(dec =~= seq![mm] + tail);
                        assert(msgs_view(out@.push(m)) =~= before + seq![mm]);
                    }
                    out.push(m);
                    collect_messages(data, j + 8, specs, origin, out);
                    proof {
                        assert((before + seq![mm]) + tail =~= before + dec);
                    }
                },
                None => {
                    let ghost before = msgs_view(out@);
                    proof {
                        assert(dec =~= tail);
                    }
                    collect_messages(data, j + 8, specs, origin, out);
                },
            }
        },
    }
}

/// Translates one raw fuzzer byte string into its decoded input.
pub fn parse_input(data: &[u8], specs: &ContractSpecs) -> (r: OneInput)
    ensures
        r@ == parse_input_spec(data@, specs.messages@),
{
    if data.len() < 4 {
        let r = OneInput { messages: Vec::new(), origin: 0 };
        proof {
            assert(msgs_view(Seq::<Message>::empty()) =~= Seq::<MessageModel>::empty());
        }
        return r;
    }
    let origin = data[0];
    let mut messages: Vec<Message> = Vec::new();
    collect_messages(data, 1, specs, origin, &mut messages);
    let ghost all = decode_fragments_spec(fragments_from(data@, 1), specs.messages@, origin);
    proof {
        assert(msgs_view(messages@) =~= all);
    }
    messages.truncate(MAX_MESSAGES_PER_EXEC);
    proof {
        if all.len() > MAX_MESSAGES_PER_EXEC {
            assert(msgs_view(messages@) =~= all.take(MAX_MESSAGES_PER_EXEC as int));
        } else {
            assert(msgs_view(messages@) =~= all);
        }
    }
    OneInput { messages, origin }
}

/// An input shorter than four bytes decodes to an empty message list.
pub proof fn lemma_short_input_decodes_empty(data: Seq<u8>, msgs: Seq<MessageSpec>)
    requires
        data.len() < 4,
    ensures
        parse_input_spec(data, msgs).messages.len() == 0,
{
}

/// No input decodes to more than `MAX_MESSAGES_PER_EXEC` messages.
pub proof fn lemma_decoded_count_bounded(data: Seq<u8>, msgs: Seq<MessageSpec>)
    ensures
        parse_input_spec(data, msgs).messages.len() <= MAX_MESSAGES_PER_EXEC,
{
}

/// Decoding is deterministic: equal byte strings decode to equal inputs.
pub proof fn lemma_decoding_deterministic(d1: Seq<u8>, d2: Seq<u8>, msgs: Seq<MessageSpec>)
    requires
        d1 == d2,
    ensures
        parse_input_spec(d1, msgs) == parse_input_spec(d2, msgs),
{
}

/// Every message one fragment decodes to opens with a fuzzable selector.
proof fn lemma_decode_fragment_fuzzable(frag: Seq<u8>, msgs: Seq<MessageSpec>, origin: u8)
    requires
        distinct_selectors(msgs),
        decode_fragment_spec(frag, msgs, origin) is Some,
    ensures
        decode_fragment_spec(frag, msgs, origin)->0.payload.len() >= 4,
        fuzzable_selectors_spec(msgs).contains(
            prefix_selector(decode_fragment_spec(frag, msgs, origin)->0.payload),
        ),
{
    let sel = prefix_selector(frag);
    lemma_find_message_from_props(msgs, sel, 0);
    let i = find_message_from(msgs, sel, 0)->0;
    lemma_fuzzable_member(msgs, i);
    let m = decode_fragment_spec(frag, msgs, origin)->0;
    assert(m.payload == frag.subrange(0, 4 + msgs[i].arg_len));
    assert(prefix_selector(m.payload) == sel);
}

proof fn lemma_decode_fragments_fuzzable(frags: Seq<Seq<u8>>, msgs: Seq<MessageSpec>, origin: u8)
    requires
        distinct_selectors(msgs),
    ensures
        forall|k: int|
            0 <= k < decode_fragments_spec(frags, msgs, origin).len() ==> {
                let m = #[trigger] decode_fragments_spec(frags, msgs, origin)[k];
                m.payload.len() >= 4 && fuzzable_selectors_spec(msgs).contains(
                    prefix_selector(m.payload),
                )
            },
    decreases frags.len(),
{
    if frags.len() == 0 {
    } else {
        lemma_decode_fragments_fuzzable(frags.drop_first(), msgs, origin);
        if decode_fragment_spec(frags[0], msgs, origin) is Some {
            lemma_decode_fragment_fuzzable(frags[0], msgs, origin);
        }
        let dec = decode_fragments_spec(frags, msgs, origin);
        let tail = decode_fragments_spec(frags.drop_first(), msgs, origin);
        assert forall|k: int| 0 <= k < dec.len() implies {
            let m = #[trigger] dec[k];
            m.payload.len() >= 4 && fuzzable_selectors_spec(msgs).contains(
                prefix_selector(m.payload),
            )
        } by {
            match decode_fragment_spec(frags[0], msgs, origin) {
                Some(h) => {
                    if k == 0 {
                        assert(dec[k] == h);
                    } else {
                        assert(dec[k] == tail[k - 1]);
                    }
                },
                None => {
                    assert(dec[k] == tail[k]);
                },
            }
        }
    }
}

/// Every decoded message's selector belongs to the fuzzable selectors:
/// an invariant message never stands in a decoded input.
pub proof fn lemma_decoded_selectors_fuzzable(data: Seq<u8>, msgs: Seq<MessageSpec>)
    requires
        distinct_selectors(msgs),
    ensures
        forall|k: int|
            0 <= k < parse_input_spec(data, msgs).messages.len() ==> {
                let m = #[trigger] parse_input_spec(data, msgs).messages[k];
                m.payload.len() >= 4 && fuzzable_selectors_spec(msgs).contains(
                    prefix_selector(m.payload),
                )
            },
{
    if data.len() < 4 {
    } else {
        lemma_decode_fragments_fuzzable(fragments_from(data, 1), msgs, data[0]);
    }
}

} // verus!
