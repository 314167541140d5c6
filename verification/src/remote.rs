//! The runtime harness: an in-memory model chain that deploys and executes
//! the sample domain-name-service contract behind the same facade the
//! contracts pallet offers — upload and instantiate at initialization, then
//! `call(payload, origin, value)` returning a structured response with
//! debug output, result and events.
//!
//! The genesis snapshot held by the bridge is never mutated in place: every
//! iteration runs on a fresh fork of it.

use vstd::prelude::*;

use vstd::string::StringSliceAdditionalSpecFns;
use vstd::string::is_ascii;
use vstd::string::is_ascii_spec_bytes;

use crate::bytesutil::copy_range;
use crate::bytesutil::le_bytes_value;
use crate::bytesutil::le_value;
use crate::bytesutil::push_decimal;
use crate::config::Configuration;
use crate::coverage::cov_line_bytes;
use crate::dns::AccountId;
use crate::dns::DnsView;
use crate::dns::DomainHash;
use crate::dns::DomainNameService;
use crate::dns::Error;
use crate::dns::Event;
use crate::dns::Register;
use crate::dns::SetAddress;
use crate::dns::Transfer;
use crate::dns::broadcast_account;
use crate::dns::broadcast_seq;
use crate::dns::forbidden_domain;
use crate::dns::lookup;
use crate::dns::map_get;
use crate::dns::owner_or_default;
use crate::dns::address_or_default;
use crate::dns::store;
use crate::dns::trunc_rem;
use crate::dns::zero_address;
use crate::hexutil::hex_decode;
use crate::hexutil::hex_decode_spec;
use crate::hexutil::valid_hex;
use crate::metadata::ContractSpecs;
use crate::metadata::ConstructorSpec;
use crate::metadata::ctor_choice_spec;
use crate::metadata::find_message;
use crate::metadata::find_message_from;
use crate::metadata::get_constructor;
use crate::parser::prefix_selector;
use crate::selector::Selector;

verus! {

/// Milliseconds per block: the harness pins the timestamp of block 1.
pub const SLOT_DURATION: u64 = 6000;

/// The source lines of the sample contract's messages: the beacon each
/// executed message emits into its debug buffer.
pub const LINE_REGISTER: u64 = 109;

pub const LINE_PAY_ME: u64 = 129;

pub const LINE_SET_ADDRESS: u64 = 140;

pub const LINE_TRANSFER: u64 = 167;

pub const LINE_GET_ADDRESS: u64 = 204;

pub const LINE_GET_OWNER: u64 = 210;

pub const LINE_HASH42: u64 = 239;

pub const LINE_DANGEROUS: u64 = 248;

pub const LINE_1337: u64 = 254;

pub const LINE_THREE_CALLS: u64 = 261;

/// The return data of a completed call.
#[derive(Debug)]
pub struct ExecReturnValue {
    pub data: Vec<u8>,
}

/// A runtime module error; a trapped contract carries the message
/// `ContractTrapped`.
#[derive(Debug)]
pub struct ModuleError {
    pub message: Option<Vec<u8>>,
}

/// How a call can fail at dispatch level.
#[derive(Debug)]
pub enum DispatchError {
    Module(ModuleError),
    Other,
}

/// Per-call outcome: the dispatch result plus gas-side observations the
/// fuzzer reads — the debug buffer carrying coverage beacons, and the
/// collected events.
pub struct FullContractResponse {
    pub result: Result<ExecReturnValue, DispatchError>,
    pub debug_message: Vec<u8>,
    pub events: Vec<Event>,
}

/// The model of a dispatch error.
pub ghost enum DispatchErrorModel {
    Module(Option<Seq<u8>>),
    Other,
}

/// The model of one collected event.
pub ghost enum EventModel {
    Register { name: Seq<u8>, from: Seq<u8> },
    SetAddress { name: Seq<u8>, from: Seq<u8>, old_address: Option<Seq<u8>>, new_address: Seq<u8> },
    Transfer { name: Seq<u8>, from: Seq<u8>, old_owner: Option<Seq<u8>>, new_owner: Seq<u8> },
}

/// The model of a full call response.
pub ghost struct ResponseModel {
    pub result: Result<Seq<u8>, DispatchErrorModel>,
    pub debug: Seq<u8>,
    pub events: Seq<EventModel>,
}

pub open spec fn opt_account_view(o: Option<AccountId>) -> Option<Seq<u8>> {
    match o {
        Some(a) => Some(a.bytes@),
        None => None,
    }
}

pub open spec fn event_view(e: Event) -> EventModel {
    match e {
        Event::Register(ev) => EventModel::Register { name: ev.name.bytes@, from: ev.from.bytes@ },
        Event::SetAddress(ev) => EventModel::SetAddress {
            name: ev.name.bytes@,
            from: ev.from.bytes@,
            old_address: opt_account_view(ev.old_address),
            new_address: ev.new_address.bytes@,
        },
        Event::Transfer(ev) => EventModel::Transfer {
            name: ev.name.bytes@,
            from: ev.from.bytes@,
            old_owner: opt_account_view(ev.old_owner),
            new_owner: ev.new_owner.bytes@,
        },
    }
}

pub open spec fn events_view(es: Seq<Event>) -> Seq<EventModel> {
    es.map_values(|e: Event| event_view(e))
}

pub open spec fn dispatch_error_view(e: DispatchError) -> DispatchErrorModel {
    match e {
        DispatchError::Module(me) => DispatchErrorModel::Module(
            match me.message {
                Some(v) => Some(v@),
                None => None,
            },
        ),
        DispatchError::Other => DispatchErrorModel::Other,
    }
}

impl View for FullContractResponse {
    type V = ResponseModel;

    open spec fn view(&self) -> ResponseModel {
        ResponseModel {
            result: match self.result {
                Ok(rv) => Ok(rv.data@),
                Err(e) => Err(dispatch_error_view(e)),
            },
            debug: self.debug_message@,
            events: events_view(self.events@),
        }
    }
}

/// The model of the chain the harness runs on.
pub ghost struct ChainView {
    pub contract: DnsView,
    pub timestamp: u64,
}

/// The in-memory chain: the deployed contract's storage and the block
/// timestamp.
pub struct ChainState {
    pub contract: DomainNameService,
    pub timestamp: u64,
}

impl View for ChainState {
    type V = ChainView;

    open spec fn view(&self) -> ChainView {
        ChainView { contract: self.contract@, timestamp: self.timestamp }
    }
}

impl ChainState {
    /// A fresh fork of this chain: equal storage, independent memory.
    pub fn duplicate(&self) -> (r: ChainState)
        ensures
            r@ == self@,
    {
        ChainState { contract: self.contract.duplicate(), timestamp: self.timestamp }
    }

    /// Pins the timestamp of the given block, as each iteration does for
    /// block 1 before its first call.
    pub fn set_timestamp(&mut self, block: u32)
        ensures
            final(self)@ == (ChainView {
                timestamp: (block as u64 * SLOT_DURATION) as u64,
                ..old(self)@
            }),
    {
        self.timestamp = block as u64 * SLOT_DURATION;
    }
}

/// The deployable contract handle: the genesis snapshot, the instantiated
/// contract address, and the metadata model it was deployed from. Cloning
/// the genesis is cheap; every call sequence operates on a fresh fork.
pub struct ContractBridge {
    pub genesis: ChainState,
    pub contract_address: AccountId,
    pub specs: ContractSpecs,
}


/// The message name `register`, as bytes.
pub open spec fn label_register() -> Seq<u8> {
    seq![114u8, 101u8, 103u8, 105u8, 115u8, 116u8, 101u8, 114u8]
}

proof fn lemma_label_register()
    ensures
        "register".spec_bytes() == label_register(),
{
    reveal_strlit("register");
    broadcast use is_ascii_spec_bytes;

    assert(is_ascii("register"));
    assert("register".spec_bytes() =~= label_register());
}

/// The message name `set_address`, as bytes.
pub open spec fn label_set_address() -> Seq<u8> {
    seq![115u8, 101u8, 116u8, 95u8, 97u8, 100u8, 100u8, 114u8, 101u8, 115u8, 115u8]
}

proof fn lemma_label_set_address()
    ensures
        "set_address".spec_bytes() == label_set_address(),
{
    reveal_strlit("set_address");
    broadcast use is_ascii_spec_bytes;

    assert(is_ascii("set_address"));
    assert("set_address".spec_bytes() =~= label_set_address());
}

/// The message name `transfer`, as bytes.
pub open spec fn label_transfer() -> Seq<u8> {
    seq![116u8, 114u8, 97u8, 110u8, 115u8, 102u8, 101u8, 114u8]
}

proof fn lemma_label_transfer()
    ensures
        "transfer".spec_bytes() == label_transfer(),
{
    reveal_strlit("transfer");
    broadcast use is_ascii_spec_bytes;

    assert(is_ascii("transfer"));
    assert("transfer".spec_bytes() =~= label_transfer());
}

/// The message name `pay_me`, as bytes.
pub open spec fn label_pay_me() -> Seq<u8> {
    seq![112u8, 97u8, 121u8, 95u8, 109u8, 101u8]
}

proof fn lemma_label_pay_me()
    ensures
        "pay_me".spec_bytes() == label_pay_me(),
{
    reveal_strlit("pay_me");
    broadcast use is_ascii_spec_bytes;

    assert(is_ascii("pay_me"));
    assert("pay_me".spec_bytes() =~= label_pay_me());
}

/// The message name `get_address`, as bytes.
pub open spec fn label_get_address() -> Seq<u8> {
    seq![103u8, 101u8, 116u8, 95u8, 97u8, 100u8, 100u8, 114u8, 101u8, 115u8, 115u8]
}

proof fn lemma_label_get_address()
    ensures
        "get_address".spec_bytes() == label_get_address(),
{
    reveal_strlit("get_address");
    broadcast use is_ascii_spec_bytes;

    assert(is_ascii("get_address"));
    assert("get_address".spec_bytes() =~= label_get_address());
}

/// The message name `get_owner`, as bytes.
pub open spec fn label_get_owner() -> Seq<u8> {
    seq![103u8, 101u8, 116u8, 95u8, 111u8, 119u8, 110u8, 101u8, 114u8]
}

proof fn lemma_label_get_owner()
    ensures
        "get_owner".spec_bytes() == label_get_owner(),
{
    reveal_strlit("get_owner");
    broadcast use is_ascii_spec_bytes;

    assert(is_ascii("get_owner"));
    assert("get_owner".spec_bytes() =~= label_get_owner());
}

/// The message name `phink_assert_hash42_cant_be_registered`, as bytes.
pub open spec fn label_hash42() -> Seq<u8> {
    seq![112u8, 104u8, 105u8, 110u8, 107u8, 95u8, 97u8, 115u8, 115u8, 101u8, 114u8, 116u8, 95u8, 104u8, 97u8, 115u8, 104u8, 52u8, 50u8, 95u8, 99u8, 97u8, 110u8, 116u8, 95u8, 98u8, 101u8, 95u8, 114u8, 101u8, 103u8, 105u8, 115u8, 116u8, 101u8, 114u8, 101u8, 100u8]
}

proof fn lemma_label_hash42()
    ensures
        "phink_assert_hash42_cant_be_registered".spec_bytes() == label_hash42(),
{
    reveal_strlit("phink_assert_hash42_cant_be_registered");
    broadcast use is_ascii_spec_bytes;

    assert(is_ascii("phink_assert_hash42_cant_be_registered"));
    assert("phink_assert_hash42_cant_be_registered".spec_bytes() =~= label_hash42());
}

/// The message name `phink_assert_dangerous_number`, as bytes.
pub open spec fn label_dangerous() -> Seq<u8> {
    seq![112u8, 104u8, 105u8, 110u8, 107u8, 95u8, 97u8, 115u8, 115u8, 101u8, 114u8, 116u8, 95u8, 100u8, 97u8, 110u8, 103u8, 101u8, 114u8, 111u8, 117u8, 115u8, 95u8, 110u8, 117u8, 109u8, 98u8, 101u8, 114u8]
}

proof fn lemma_label_dangerous()
    ensures
        "phink_assert_dangerous_number".spec_bytes() == label_dangerous(),
{
    reveal_strlit("phink_assert_dangerous_number");
    broadcast use is_ascii_spec_bytes;

    assert(is_ascii("phink_assert_dangerous_number"));
    assert("phink_assert_dangerous_number".spec_bytes() =~= label_dangerous());
}

/// The message name `phink_assert_cannot_transfer_1337`, as bytes.
pub open spec fn label_cannot_1337() -> Seq<u8> {
    seq![112u8, 104u8, 105u8, 110u8, 107u8, 95u8, 97u8, 115u8, 115u8, 101u8, 114u8, 116u8, 95u8, 99u8, 97u8, 110u8, 110u8, 111u8, 116u8, 95u8, 116u8, 114u8, 97u8, 110u8, 115u8, 102u8, 101u8, 114u8, 95u8, 49u8, 51u8, 51u8, 55u8]
}

proof fn lemma_label_cannot_1337()
    ensures
        "phink_assert_cannot_transfer_1337".spec_bytes() == label_cannot_1337(),
{
    reveal_strlit("phink_assert_cannot_transfer_1337");
    broadcast use is_ascii_spec_bytes;

    assert(is_ascii("phink_assert_cannot_transfer_1337"));
    assert("phink_assert_cannot_transfer_1337".spec_bytes() =~= label_cannot_1337());
}

/// The message name `phink_assert_three_message_calls_required_to_crash`, as bytes.
pub open spec fn label_three_calls() -> Seq<u8> {
    seq![112u8, 104u8, 105u8, 110u8, 107u8, 95u8, 97u8, 115u8, 115u8, 101u8, 114u8, 116u8, 95u8, 116u8, 104u8, 114u8, 101u8, 101u8, 95u8, 109u8, 101u8, 115u8, 115u8, 97u8, 103u8, 101u8, 95u8, 99u8, 97u8, 108u8, 108u8, 115u8, 95u8, 114u8, 101u8, 113u8, 117u8, 105u8, 114u8, 101u8, 100u8, 95u8, 116u8, 111u8, 95u8, 99u8, 114u8, 97u8, 115u8, 104u8]
}

proof fn lemma_label_three_calls()
    ensures
        "phink_assert_three_message_calls_required_to_crash".spec_bytes() == label_three_calls(),
{
    reveal_strlit("phink_assert_three_message_calls_required_to_crash");
    broadcast use is_ascii_spec_bytes;

    assert(is_ascii("phink_assert_three_message_calls_required_to_crash"));
    assert("phink_assert_three_message_calls_required_to_crash".spec_bytes() =~= label_three_calls());
}


/// The dispatch message of a trapped contract.
pub open spec fn trapped_message() -> Seq<u8> {
    seq![67u8, 111u8, 110u8, 116u8, 114u8, 97u8, 99u8, 116u8, 84u8, 114u8, 97u8, 112u8, 112u8, 101u8, 100u8]
}

/// How the model encodes a message's `Result<(), Error>` return value.
pub open spec fn ok_data(res: Result<(), Error>) -> Seq<u8> {
    match res {
        Ok(u) => seq![0u8],
        Err(Error::NameAlreadyExists) => seq![1u8, 0u8],
        Err(Error::CallerIsNotOwner) => seq![1u8, 1u8],
        Err(Error::ForbiddenDomain) => seq![1u8, 2u8],
    }
}

/// The response to a payload that reaches no message: the contract traps
/// before any beacon fires.
pub open spec fn unknown_trap() -> ResponseModel {
    ResponseModel {
        result: Err(DispatchErrorModel::Module(Some(trapped_message()))),
        debug: Seq::empty(),
        events: Seq::empty(),
    }
}

/// A trap raised inside a message: its beacon already sits in the debug
/// buffer, so the last executed line stays visible in the trace.
pub open spec fn trap_response(line: u64) -> ResponseModel {
    ResponseModel {
        result: Err(DispatchErrorModel::Module(Some(trapped_message()))),
        debug: cov_line_bytes(line),
        events: Seq::empty(),
    }
}

/// A completed call.
pub open spec fn ok_response(data: Seq<u8>, line: u64, events: Seq<EventModel>) -> ResponseModel {
    ResponseModel { result: Ok(data), debug: cov_line_bytes(line), events }
}

/// The signed 32-bit value whose little-endian bits are `w`.
pub open spec fn as_i32(w: nat) -> int {
    if w < 0x8000_0000 {
        w as int
    } else {
        w - 0x1_0000_0000
    }
}

/// What one message does to the chain: the transition the sample contract
/// makes for the selected message label, argument bytes, caller origin and
/// transferred value.
pub open spec fn dns_dispatch(
    pre: ChainView,
    label: Seq<u8>,
    args: Seq<u8>,
    who: u8,
    value: u128,
) -> (ChainView, ResponseModel) {
    let caller = broadcast_seq(who);
    let v = pre.contract;
    if label == label_register() {
        if args.len() < 32 {
            (pre, unknown_trap())
        } else {
            let name = args.subrange(0, 32);
            if lookup(v.name_to_owner, name) is Some {
                (
                    pre,
                    ok_response(
                        ok_data(Err(Error::NameAlreadyExists)),
                        LINE_REGISTER,
                        Seq::empty(),
                    ),
                )
            } else {
                let v2 = DnsView {
                    name_to_owner: store(v.name_to_owner, name, caller),
                    domains: v.domains.push(name),
                    dangerous_number: if v.dangerous_number == 80 && name == forbidden_domain() {
                        120
                    } else {
                        v.dangerous_number
                    },
                    ..v
                };
                (
                    ChainView { contract: v2, ..pre },
                    ok_response(
                        ok_data(Ok(())),
                        LINE_REGISTER,
                        seq![EventModel::Register { name, from: caller }],
                    ),
                )
            }
        }
    } else if label == label_set_address() {
        if args.len() < 64 {
            (pre, unknown_trap())
        } else {
            let name = args.subrange(0, 32);
            let new_address = args.subrange(32, 64);
            if caller != owner_or_default(v, name) {
                (
                    pre,
                    ok_response(
                        ok_data(Err(Error::CallerIsNotOwner)),
                        LINE_SET_ADDRESS,
                        Seq::empty(),
                    ),
                )
            } else {
                let v2 = DnsView {
                    name_to_address: store(v.name_to_address, name, new_address),
                    should_panic_after_three_calls: v.should_panic_after_three_calls
                        || v.dangerous_number == 120,
                    ..v
                };
                (
                    ChainView { contract: v2, ..pre },
                    ok_response(
                        ok_data(Ok(())),
                        LINE_SET_ADDRESS,
                        seq![
                            EventModel::SetAddress {
                                name,
                                from: caller,
                                old_address: lookup(v.name_to_address, name),
                                new_address,
                            },
                        ],
                    ),
                )
            }
        }
    } else if label == label_transfer() {
        if args.len() < 68 {
            (pre, unknown_trap())
        } else {
            let name = args.subrange(0, 32);
            let to = args.subrange(32, 64);
            let number = as_i32(le_value(args.subrange(64, 68)));
            if caller != owner_or_default(v, name) {
                (
                    pre,
                    ok_response(
                        ok_data(Err(Error::CallerIsNotOwner)),
                        LINE_TRANSFER,
                        Seq::empty(),
                    ),
                )
            } else if number == 69 {
                (
                    pre,
                    ok_response(
                        ok_data(Err(Error::ForbiddenDomain)),
                        LINE_TRANSFER,
                        Seq::empty(),
                    ),
                )
            } else {
                let v2 = DnsView {
                    name_to_owner: store(v.name_to_owner, name, to),
                    domains: v.domains.push(name),
                    dangerous_number: if number == 80 {
                        80
                    } else {
                        trunc_rem(number, 70) as i32
                    },
                    ..v
                };
                (
                    ChainView { contract: v2, ..pre },
                    ok_response(
                        ok_data(Ok(())),
                        LINE_TRANSFER,
                        seq![
                            EventModel::Transfer {
                                name,
                                from: caller,
                                old_owner: lookup(v.name_to_owner, name),
                                new_owner: to,
                            },
                        ],
                    ),
                )
            }
        }
    } else if label == label_pay_me() {
        let v2 = DnsView { leet_transfered: v.leet_transfered || value == 1377, ..v };
        (
            ChainView { contract: v2, ..pre },
            ok_response(ok_data(Ok(())), LINE_PAY_ME, Seq::empty()),
        )
    } else if label == label_get_address() {
        if args.len() < 32 {
            (pre, unknown_trap())
        } else {
            (
                pre,
                ok_response(
                    address_or_default(v, args.subrange(0, 32)),
                    LINE_GET_ADDRESS,
                    Seq::empty(),
                ),
            )
        }
    } else if label == label_get_owner() {
        if args.len() < 32 {
            (pre, unknown_trap())
        } else {
            (
                pre,
                ok_response(
                    owner_or_default(v, args.subrange(0, 32)),
                    LINE_GET_OWNER,
                    Seq::empty(),
                ),
            )
        }
    } else if label == label_hash42() {
        if forall|i: int| 0 <= i < v.domains.len() ==> #[trigger] v.domains[i]
            != forbidden_domain() {
            (pre, ok_response(ok_data(Ok(())), LINE_HASH42, Seq::empty()))
        } else {
            (pre, trap_response(LINE_HASH42))
        }
    } else if label == label_dangerous() {
        if v.dangerous_number != 69 {
            (pre, ok_response(ok_data(Ok(())), LINE_DANGEROUS, Seq::empty()))
        } else {
            (pre, trap_response(LINE_DANGEROUS))
        }
    } else if label == label_cannot_1337() {
        if !v.leet_transfered {
            (pre, ok_response(ok_data(Ok(())), LINE_1337, Seq::empty()))
        } else {
            (pre, trap_response(LINE_1337))
        }
    } else if label == label_three_calls() {
        if !v.should_panic_after_three_calls {
            (pre, ok_response(ok_data(Ok(())), LINE_THREE_CALLS, Seq::empty()))
        } else {
            (pre, trap_response(LINE_THREE_CALLS))
        }
    } else {
        (pre, unknown_trap())
    }
}

/// What one bare call does: selector resolution through the metadata, then
/// the message transition. A call is a function of the chain, the payload,
/// the origin and the value alone — the model chain is deterministic.
pub open spec fn call_spec(
    msgs: Seq<crate::metadata::MessageSpec>,
    pre: ChainView,
    payload: Seq<u8>,
    who: u8,
    value: u128,
) -> (ChainView, ResponseModel) {
    if payload.len() < 4 {
        (pre, unknown_trap())
    } else {
        match find_message_from(msgs, prefix_selector(payload), 0) {
            None => (pre, unknown_trap()),
            Some(i) => dns_dispatch(pre, msgs[i].label@, payload.skip(4), who, value),
        }
    }
}

/// Why deployment can fail.
#[derive(Clone, Copy, PartialEq, Eq, Structural, Debug)]
pub enum InitError {
    /// The configured constructor payload is not valid hex text.
    InvalidConstructorHex,
    /// The metadata declares no constructor and none was configured.
    MissingConstructor,
    /// The constructor payload names no declared constructor: the likely
    /// cause is a malformed payload in the configuration file.
    IncorrectInstantiation,
}

/// The constructor payload that deployment uses: the configured hex
/// payload when present, else the crafter's default.
pub open spec fn constructor_data(ctors: Seq<ConstructorSpec>, cp: Option<Vec<u8>>) -> Option<
    Seq<u8>,
> {
    match cp {
        Some(h) => if valid_hex(h@) {
            Some(hex_decode_spec(h@))
        } else {
            None
        },
        None => match ctor_choice_spec(ctors) {
            Some(i) => Some(crate::metadata::ctor_payload_spec(ctors[i])),
            None => None,
        },
    }
}

/// Whether the payload opens with a declared constructor's selector.
pub open spec fn matches_ctor(ctors: Seq<ConstructorSpec>, data: Seq<u8>) -> bool {
    data.len() >= 4 && exists|i: int|
        0 <= i < ctors.len() && #[trigger] ctors[i].selector == prefix_selector(data)
}

pub(crate) fn trapped_message_bytes() -> (r: Vec<u8>)
    ensures
        r@ == trapped_message(),
{
    let mut v: Vec<u8> = Vec::new();
    v.push(67);
    v.push(111);
    v.push(110);
    v.push(116);
    v.push(114);
    v.push(97);
    v.push(99);
    v.push(116);
    v.push(84);
    v.push(114);
    v.push(97);
    v.push(112);
    v.push(112);
    v.push(101);
    v.push(100);
    proof {
        assert(v@ =~= trapped_message());
    }
    v
}

/// The debug buffer one executed message leaves: its beacon line.
fn beacon_debug(line: u64) -> (r: Vec<u8>)
    ensures
        r@ == cov_line_bytes(line),
{
    let mut v: Vec<u8> = Vec::new();
    v.push(67);
    v.push(79);
    v.push(86);
    v.push(61);
    push_decimal(&mut v, line);
    proof {
        assert(v@ =~= cov_line_bytes(line));
    }
    v
}

fn unknown_trap_response() -> (r: FullContractResponse)
    ensures
        r@ == unknown_trap(),
{
    let r = FullContractResponse {
        result: Err(DispatchError::Module(ModuleError { message: Some(trapped_message_bytes()) })),
        debug_message: Vec::new(),
        events: Vec::new(),
    };
    proof {
        assert(events_view(r.events@) =~= Seq::<EventModel>::empty());
        assert(r.debug_message@ =~= Seq::<u8>::empty());
    }
    r
}

fn trap_response_exec(line: u64) -> (r: FullContractResponse)
    ensures
        r@ == trap_response(line),
{
    let r = FullContractResponse {
        result: Err(DispatchError::Module(ModuleError { message: Some(trapped_message_bytes()) })),
        debug_message: beacon_debug(line),
        events: Vec::new(),
    };
    proof {
        assert(events_view(r.events@) =~= Seq::<EventModel>::empty());
    }
    r
}

fn ok_response_exec(data: Vec<u8>, line: u64, events: Vec<Event>) -> (r: FullContractResponse)
    ensures
        r@ == ok_response(data@, line, events_view(events@)),
{
    FullContractResponse {
        result: Ok(ExecReturnValue { data }),
        debug_message: beacon_debug(line),
        events,
    }
}

fn encode_result(res: &Result<(), Error>) -> (r: Vec<u8>)
    ensures
        r@ == ok_data(*res),
{
    let mut v: Vec<u8> = Vec::new();
    match res {
        Ok(_) => {
            v.push(0);
            proof {
                assert(v@ =~= ok_data(*res));
            }
        },
        Err(e) => {
            v.push(1);
            match e {
                Error::NameAlreadyExists => v.push(0),
                Error::CallerIsNotOwner => v.push(1),
                Error::ForbiddenDomain => v.push(2),
            }
            proof {
                assert(v@ =~= ok_data(*res));
            }
        },
    }
    v
}

/// Whether a message label equals the given name.
fn label_is(l: &Vec<u8>, lit: &str) -> (r: bool)
    ensures
        r == (l@ == lit.spec_bytes()),
{
    crate::bytesutil::bytes_eq(l.as_slice(), lit.as_bytes())
}

impl ContractBridge {
    /// Executes one bare call of the deployed contract: `payload` is the
    /// selector followed by the scale-encoded arguments, `who` the caller
    /// origin byte, `transfer_value` the value handed to the call. The
    /// response and the new chain state are a function of the old chain
    /// and these arguments alone.
    pub fn call(
        &self,
        chain: &mut ChainState,
        payload: &Vec<u8>,
        who: u8,
        transfer_value: u128,
    ) -> (r: FullContractResponse)
        ensures
            final(chain)@ == call_spec(
                self.specs.messages@,
                old(chain)@,
                payload@,
                who,
                transfer_value,
            ).0,
            r@ == call_spec(self.specs.messages@, old(chain)@, payload@, who, transfer_value).1,
    {
        let ghost pr = call_spec(self.specs.messages@, old(chain)@, payload@, who, transfer_value);
        if payload.len() < 4 {
            return unknown_trap_response();
        }
        let sel = Selector::of(payload[0], payload[1], payload[2], payload[3]);
        proof {
            assert(sel == prefix_selector(payload@));
        }
        let idx = match find_message(&self.specs, &sel) {
            None => {
                return unknown_trap_response();
            },
            Some(i) => i,
        };
        let label = &self.specs.messages[idx].label;
        let ghost args = payload@.skip(4);
        let caller = broadcast_account(who);
        let ghost v = old(chain)@.contract;
        if label_is(label, "register") {
            proof {
                lemma_label_register();
            }
            if payload.len() < 36 {
                return unknown_trap_response();
            }
            let name = DomainHash { bytes: copy_range(payload.as_slice(), 4, 36) };
            proof {
                assert(name.bytes@ =~= args.subrange(0, 32));
            }
            let res = chain.contract.register(&name, &caller);
            let data = encode_result(&res);
            let mut events: Vec<Event> = Vec::new();
            if res.is_ok() {
                events.push(Event::Register(Register { name, from: caller }));
                proof {
                    assert(events_view(events@) =~= seq![
                        EventModel::Register { name: args.subrange(0, 32), from: broadcast_seq(who) },
                    ]);
                }
            } else {
                proof {
                    assert(events_view(events@) =~= Seq::<EventModel>::empty());
                }
            }
            let r = ok_response_exec(data, LINE_REGISTER, events);
            return r;
        }
        if label_is(label, "set_address") {
            proof {
                lemma_label_set_address();
            }
            if payload.len() < 68 {
                return unknown_trap_response();
            }
            let name = DomainHash { bytes: copy_range(payload.as_slice(), 4, 36) };
            let new_address = AccountId { bytes: copy_range(payload.as_slice(), 36, 68) };
            proof {
                assert(name.bytes@ =~= args.subrange(0, 32));
                assert(new_address.bytes@ =~= args.subrange(32, 64));
            }
            let old_address = map_get(&chain.contract.name_to_address, &name);
            let res = chain.contract.set_address(&name, &new_address, &caller);
            let data = encode_result(&res);
            let mut events: Vec<Event> = Vec::new();
            if res.is_ok() {
                let ghost old_view = opt_account_view(old_address);
                events.push(
                    Event::SetAddress(
                        SetAddress { name, from: caller, old_address, new_address },
                    ),
                );
                proof {
                    assert(old_view == lookup(v.name_to_address, args.subrange(0, 32)));
                    assert(events_view(events@) =~= seq![
                        EventModel::SetAddress {
                            name: args.subrange(0, 32),
                            from: broadcast_seq(who),
                            old_address: lookup(v.name_to_address, args.subrange(0, 32)),
                            new_address: args.subrange(32, 64),
                        },
                    ]);
                }
            } else {
                proof {
                    assert(events_view(events@) =~= Seq::<EventModel>::empty());
                }
            }
            let r = ok_response_exec(data, LINE_SET_ADDRESS, events);
            return r;
        }
        if label_is(label, "transfer") {
            proof {
                lemma_label_transfer();
            }
            if payload.len() < 72 {
                return unknown_trap_response();
            }
            let name = DomainHash { bytes: copy_range(payload.as_slice(), 4, 36) };
            let to = AccountId { bytes: copy_range(payload.as_slice(), 36, 68) };
            let w = le_bytes_value(payload.as_slice(), 68, 72);
            proof {
                assert(name.bytes@ =~= args.subrange(0, 32));
                assert(to.bytes@ =~= args.subrange(32, 64));
                assert(payload@.subrange(68, 72) =~= args.subrange(64, 68));
            }
            let wu: u32 = w as u32;
            let number: i32 = if wu < 0x8000_0000u32 {
                wu as i32
            } else {
                let neg: u64 = 0x1_0000_0000u64 - wu as u64;
                -(((neg - 1) as i32)) - 1
            };
            proof {
                assert(number as int == as_i32(le_value(args.subrange(64, 68))));
            }
            let old_owner = map_get(&chain.contract.name_to_owner, &name);
            let res = chain.contract.transfer(&name, &to, number, &caller);
            let data = encode_result(&res);
            let mut events: Vec<Event> = Vec::new();
            if res.is_ok() {
                let ghost old_view = opt_account_view(old_owner);
                events.push(Event::Transfer(Transfer { name, from: caller, old_owner, new_owner: to }));
                proof {
                    assert(old_view == lookup(v.name_to_owner, args.subrange(0, 32)));
                    assert(events_view(events@) =~= seq![
                        EventModel::Transfer {
                            name: args.subrange(0, 32),
                            from: broadcast_seq(who),
                            old_owner: lookup(v.name_to_owner, args.subrange(0, 32)),
                            new_owner: args.subrange(32, 64),
                        },
                    ]);
                }
            } else {
                proof {
                    assert(events_view(events@) =~= Seq::<EventModel>::empty());
                }
            }
            let r = ok_response_exec(data, LINE_TRANSFER, events);
            return r;
        }
        if label_is(label, "pay_me") {
            proof {
                lemma_label_pay_me();
            }
            let res = chain.contract.pay_me(transfer_value);
            let data = encode_result(&res);
            let events: Vec<Event> = Vec::new();
            proof {
                assert(events_view(events@) =~= Seq::<EventModel>::empty());
            }
            let r = ok_response_exec(data, LINE_PAY_ME, events);
            return r;
        }
        if label_is(label, "get_address") {
            proof {
                lemma_label_get_address();
            }
            if payload.len() < 36 {
                return unknown_trap_response();
            }
            let name = DomainHash { bytes: copy_range(payload.as_slice(), 4, 36) };
            proof {
                assert(name.bytes@ =~= args.subrange(0, 32));
            }
            let a = chain.contract.get_address(&name);
            let events: Vec<Event> = Vec::new();
            proof {
                assert(events_view(events@) =~= Seq::<EventModel>::empty());
            }
            let r = ok_response_exec(a.bytes, LINE_GET_ADDRESS, events);
            return r;
        }
        if label_is(label, "get_owner") {
            proof {
                lemma_label_get_owner();
            }
            if payload.len() < 36 {
                return unknown_trap_response();
            }
            let name = DomainHash { bytes: copy_range(payload.as_slice(), 4, 36) };
            proof {
                assert(name.bytes@ =~= args.subrange(0, 32));
            }
            let a = chain.contract.get_owner(&name);
            let events: Vec<Event> = Vec::new();
            proof {
                assert(events_view(events@) =~= Seq::<EventModel>::empty());
            }
            let r = ok_response_exec(a.bytes, LINE_GET_OWNER, events);
            return r;
        }
        if label_is(label, "phink_assert_hash42_cant_be_registered") {
            proof {
                lemma_label_hash42();
            }
            if chain.contract.phink_assert_hash42_cant_be_registered() {
                let events: Vec<Event> = Vec::new();
                proof {
                    assert(events_view(events@) =~= Seq::<EventModel>::empty());
                }
                let mut data: Vec<u8> = Vec::new();
                data.push(0);
                proof {
                    assert(data@ =~= ok_data(Ok(())));
                }
                let r = ok_response_exec(data, LINE_HASH42, events);
                return r;
            }
            return trap_response_exec(LINE_HASH42);
        }
        if label_is(label, "phink_assert_dangerous_number") {
            proof {
                lemma_label_dangerous();
            }
            if chain.contract.phink_assert_dangerous_number() {
                let events: Vec<Event> = Vec::new();
                proof {
                    assert(events_view(events@) =~= Seq::<EventModel>::empty());
                }
                let mut data: Vec<u8> = Vec::new();
                data.push(0);
                proof {
                    assert(data@ =~= ok_data(Ok(())));
                }
                let r = ok_response_exec(data, LINE_DANGEROUS, events);
                return r;
            }
            return trap_response_exec(LINE_DANGEROUS);
        }
        if label_is(label, "phink_assert_cannot_transfer_1337") {
            proof {
                lemma_label_cannot_1337();
            }
            if chain.contract.phink_assert_cannot_transfer_1337() {
                let events: Vec<Event> = Vec::new();
                proof {
                    assert(events_view(events@) =~= Seq::<EventModel>::empty());
                }
                let mut data: Vec<u8> = Vec::new();
                data.push(0);
                proof {
                    assert(data@ =~= ok_data(Ok(())));
                }
                let r = ok_response_exec(data, LINE_1337, events);
                return r;
            }
            return trap_response_exec(LINE_1337);
        }
        if label_is(label, "phink_assert_three_message_calls_required_to_crash") {
            proof {
                lemma_label_three_calls();
            }
            if chain.contract.phink_assert_three_message_calls_required_to_crash() {
                let events: Vec<Event> = Vec::new();
                proof {
                    assert(events_view(events@) =~= Seq::<EventModel>::empty());
                }
                let mut data: Vec<u8> = Vec::new();
                data.push(0);
                proof {
                    assert(data@ =~= ok_data(Ok(())));
                }
                let r = ok_response_exec(data, LINE_THREE_CALLS, events);
                return r;
            }
            return trap_response_exec(LINE_THREE_CALLS);
        }
        proof {
            lemma_label_register();
            lemma_label_set_address();
            lemma_label_transfer();
            lemma_label_pay_me();
            lemma_label_get_address();
            lemma_label_get_owner();
            lemma_label_hash42();
            lemma_label_dangerous();
            lemma_label_cannot_1337();
            lemma_label_three_calls();
        }
        unknown_trap_response()
    }

    /// Constructs a fresh chain, deploys the contract with either the
    /// configured constructor payload (hex-decoded) or the crafter's
    /// default, and captures the resulting storage as the immutable
    /// genesis. Deployment is refused when the payload is not hex, when no
    /// constructor can be chosen, or when the payload names no declared
    /// constructor.
    pub fn initialize_wasm(wasm_bytes: &Vec<u8>, specs: ContractSpecs, config: &Configuration)
        -> (r: Result<ContractBridge, InitError>)
        ensures
            r is Ok <==> (constructor_data(specs.constructors@, config.constructor_payload)
                matches Some(d) && matches_ctor(specs.constructors@, d)),
            r matches Ok(b) ==> {
                &&& b.genesis@ == (ChainView {
                    contract: crate::dns::initial_dns(),
                    timestamp: 0,
                })
                &&& b.specs == specs
                &&& b.contract_address.bytes@ == broadcast_seq(0)
            },
            (config.constructor_payload matches Some(h) && !valid_hex(h@)) ==> r == Result::<
                ContractBridge,
                InitError,
            >::Err(InitError::InvalidConstructorHex),
            (config.constructor_payload is None && ctor_choice_spec(specs.constructors@) is None)
                ==> r == Result::<ContractBridge, InitError>::Err(InitError::MissingConstructor),
            (constructor_data(specs.constructors@, config.constructor_payload) matches Some(d)
                && !matches_ctor(specs.constructors@, d)) ==> r == Result::<
                ContractBridge,
                InitError,
            >::Err(InitError::IncorrectInstantiation),
    {
        let data: Vec<u8> = match &config.constructor_payload {
            Some(h) => match hex_decode(h) {
                Some(d) => d,
                None => {
                    return Err(InitError::InvalidConstructorHex);
                },
            },
            None => match get_constructor(&specs) {
                Some(d) => d,
                None => {
                    return Err(InitError::MissingConstructor);
                },
            },
        };
        proof {
            assert(constructor_data(specs.constructors@, config.constructor_payload) == Some(
                data@,
            ));
        }
        if data.len() < 4 {
            return Err(InitError::IncorrectInstantiation);
        }
        let sel = Selector::of(data[0], data[1], data[2], data[3]);
        proof {
            assert(sel == prefix_selector(data@));
        }
        if !any_ctor_with_selector(&specs.constructors, &sel) {
            return Err(InitError::IncorrectInstantiation);
        }
        Ok(
            ContractBridge {
                genesis: ChainState { contract: DomainNameService::new(), timestamp: 0 },
                contract_address: zero_address(),
                specs,
            },
        )
    }
}

/// Whether some declared constructor carries this selector.
fn any_ctor_with_selector(ctors: &Vec<ConstructorSpec>, sel: &Selector) -> (r: bool)
    ensures
        r == exists|i: int| 0 <= i < ctors@.len() && #[trigger] ctors@[i].selector == *sel,
{
    let mut i: usize = 0;
    while i < ctors.len()
        invariant
            0 <= i <= ctors@.len(),
            forall|j: int| 0 <= j < i ==> #[trigger] ctors@[j].selector != *sel,
        decreases ctors@.len() - i,
    {
        if ctors[i].selector == *sel {
            return true;
        }
        i = i + 1;
    }
    false
}

} // verus!
