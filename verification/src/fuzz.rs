//! The fuzz orchestrator: one iteration decodes a driver byte string,
//! executes the decoded messages on a fresh fork of the genesis, collects
//! coverage from the debug buffers, and asks the bug manager for a
//! verdict. The application layer loops over driver inputs, persists
//! coverage, renders findings and aborts the process on them.

use vstd::prelude::*;

use vstd::string::StrSliceExecFns;
use vstd::string::StringSliceAdditionalSpecFns;

use crate::bug::BugManager;
use crate::bug::invariants_run;
use crate::bug::response_trapped;
use crate::config::Configuration;
use crate::coverage::InputCoverage;
use crate::coverage::cov_values;
use crate::metadata::MessageSpec;
use crate::parser::OneInput;
use crate::parser::OneInputModel;
use crate::parser::msgs_view;
use crate::parser::parse_input;
use crate::parser::parse_input_spec;
use crate::parser::prefix_selector;
use crate::remote::ChainState;
use crate::remote::ChainView;
use crate::remote::ContractBridge;
use crate::remote::FullContractResponse;
use crate::remote::ResponseModel;
use crate::remote::SLOT_DURATION;
use crate::remote::call_spec;
use crate::selector::Selector;

verus! {

/// Where the corpus seed files are written.
pub fn corpus_dir() -> (r: &'static str)
    ensures
        r@ == "./output/phink/corpus"@,
{
    "./output/phink/corpus"
}

/// Where the selector dictionary is written.
pub fn dict_file() -> (r: &'static str)
    ensures
        r@ == "./output/phink/selectors.dict"@,
{
    "./output/phink/selectors.dict"
}

/// How the fuzzer is entered: replaying one seed file, or looping under
/// the external driver.
pub enum FuzzingMode {
    ExecuteOneInput(String),
    Fuzz,
}

/// The per-process fuzzing state: the deployed bridge and the
/// configuration.
pub struct Fuzzer {
    pub setup: ContractBridge,
    pub fuzzing_config: Configuration,
}

/// The responses as their models, in order.
pub open spec fn resps_view(v: Seq<FullContractResponse>) -> Seq<ResponseModel> {
    v.map_values(|r: FullContractResponse| r@)
}

/// Whether an iteration stops before running anything: the decoded list
/// is empty, or some decoded message opens with an invariant selector.
pub open spec fn should_stop_spec(invs: Seq<Selector>, input: OneInputModel) -> bool {
    input.messages.len() == 0 || exists|k: int|
        0 <= k < input.messages.len() && (#[trigger] input.messages[k]).payload.len() >= 4
            && invs.contains(prefix_selector(input.messages[k].payload))
}

/// What executing a message list does: each message is called in order
/// with its payload and, when payable, its decoded value; every response
/// is kept.
pub open spec fn run_messages_spec(
    msgs: Seq<MessageSpec>,
    pre: ChainView,
    ms: Seq<crate::parser::MessageModel>,
    origin: u8,
) -> (ChainView, Seq<ResponseModel>)
    decreases ms.len(),
{
    if ms.len() == 0 {
        (pre, Seq::empty())
    } else {
        let tv = if ms[0].is_payable {
            ms[0].value_token
        } else {
            0
        };
        let pr = call_spec(msgs, pre, ms[0].payload, origin, tv);
        let rest = run_messages_spec(msgs, pr.0, ms.drop_first(), origin);
        (rest.0, seq![pr.1] + rest.1)
    }
}

/// The beacons all responses carry, as one set of line numbers.
pub open spec fn cov_of_responses(rs: Seq<ResponseModel>) -> Set<u64>
    decreases rs.len(),
{
    if rs.len() == 0 {
        Set::empty()
    } else {
        cov_values(rs[0].debug) + cov_of_responses(rs.drop_first())
    }
}

/// The index of the first trapped response at or after `i`.
pub open spec fn first_trap_from(rs: Seq<ResponseModel>, i: int) -> Option<int>
    decreases rs.len() - i,
{
    if i < 0 || i >= rs.len() {
        None
    } else if response_trapped(rs[i]) {
        Some(i)
    } else {
        first_trap_from(rs, i + 1)
    }
}

/// The model of an iteration's verdict.
pub ghost enum VerdictModel {
    Skipped,
    Clean,
    Trapped { index: int },
    InvariantBroken { selector: Selector, response: ResponseModel },
}

/// How one iteration ended: skipped before any call, clean, a trapped
/// message, or an invariant whose call failed after the sequence.
pub enum HarnessVerdict {
    Skipped,
    Clean,
    Trapped { index: usize },
    InvariantBroken { selector: Selector, response: FullContractResponse },
}

pub open spec fn verdict_view(v: HarnessVerdict) -> VerdictModel {
    match v {
        HarnessVerdict::Skipped => VerdictModel::Skipped,
        HarnessVerdict::Clean => VerdictModel::Clean,
        HarnessVerdict::Trapped { index } => VerdictModel::Trapped { index: index as int },
        HarnessVerdict::InvariantBroken { selector, response } => VerdictModel::InvariantBroken {
            selector,
            response: response@,
        },
    }
}

/// The model of one whole iteration.
pub ghost struct HarnessModel {
    pub decoded: OneInputModel,
    pub responses: Seq<ResponseModel>,
    pub coverage: Set<u64>,
    pub verdict: VerdictModel,
}

/// Everything one iteration produced, for the application layer to
/// persist, render or abort on.
pub struct HarnessOutcome {
    pub decoded: OneInput,
    pub responses: Vec<FullContractResponse>,
    pub coverage: InputCoverage,
    pub verdict: HarnessVerdict,
}

impl View for HarnessOutcome {
    type V = HarnessModel;

    open spec fn view(&self) -> HarnessModel {
        HarnessModel {
            decoded: self.decoded@,
            responses: resps_view(self.responses@),
            coverage: self.coverage@,
            verdict: verdict_view(self.verdict),
        }
    }
}

/// What one whole iteration does, as a function of the bridge data and
/// the raw input alone: decode, stop early, or run every message from a
/// fresh fork of the genesis with the block-1 timestamp, then judge.
pub open spec fn harness_spec(
    msgs: Seq<MessageSpec>,
    genesis: ChainView,
    inv_msgs: Seq<MessageSpec>,
    invs: Seq<Selector>,
    data: Seq<u8>,
) -> HarnessModel {
    let decoded = parse_input_spec(data, msgs);
    if should_stop_spec(invs, decoded) {
        HarnessModel {
            decoded,
            responses: Seq::empty(),
            coverage: Set::empty(),
            verdict: VerdictModel::Skipped,
        }
    } else {
        let chain0 = ChainView { contract: genesis.contract, timestamp: SLOT_DURATION };
        let run = run_messages_spec(msgs, chain0, decoded.messages, decoded.origin);
        let cov = cov_of_responses(run.1);
        match first_trap_from(run.1, 0) {
            Some(i) => HarnessModel {
                decoded,
                responses: run.1,
                coverage: cov,
                verdict: VerdictModel::Trapped { index: i },
            },
            None => {
                let inv = invariants_run(inv_msgs, run.0, invs, decoded.origin);
                match inv.1 {
                    Some(p) => HarnessModel {
                        decoded,
                        responses: run.1,
                        coverage: cov,
                        verdict: VerdictModel::InvariantBroken {
                            selector: p.0,
                            response: p.1,
                        },
                    },
                    None => HarnessModel {
                        decoded,
                        responses: run.1,
                        coverage: cov,
                        verdict: VerdictModel::Clean,
                    },
                }
            },
        }
    }
}

impl Fuzzer {
    pub fn new(setup: ContractBridge) -> (r: Fuzzer)
        ensures
            r.setup == setup,
            r.fuzzing_config.constructor_payload is None,
            r.fuzzing_config.default_gas_limit is None,
            r.fuzzing_config.storage_deposit_limit is None,
            !r.fuzzing_config.verbose,
    {
        Fuzzer { setup, fuzzing_config: Default::default() }
    }

    pub fn set_config(&mut self, config: Configuration)
        ensures
            final(self).fuzzing_config == config,
            final(self).setup == old(self).setup,
    {
        self.fuzzing_config = config;
    }

    /// Whether this decoded input is skipped: nothing decoded, or an
    /// invariant selector in the fuzzed stream, which must never run.
    pub fn should_stop_now(bug_manager: &BugManager, decoded_msgs: &OneInput) -> (r: bool)
        ensures
            r == should_stop_spec(bug_manager.invariant_selectors@, decoded_msgs@),
    {
        if decoded_msgs.messages.len() == 0 {
            return true;
        }
        let mut k: usize = 0;
        while k < decoded_msgs.messages.len()
            invariant
                0 <= k <= decoded_msgs.messages@.len(),
                forall|j: int|
                    0 <= j < k ==> !((#[trigger] decoded_msgs@.messages[j]).payload.len() >= 4
                        && bug_manager.invariant_selectors@.contains(
                        prefix_selector(decoded_msgs@.messages[j].payload),
                    )),
            decreases decoded_msgs.messages@.len() - k,
        {
            let m = &decoded_msgs.messages[k];
            if m.payload.len() >= 4 {
                let sel = Selector::of(m.payload[0], m.payload[1], m.payload[2], m.payload[3]);
                proof {
                    assert(sel == prefix_selector(decoded_msgs@.messages[k as int].payload));
                }
                if bug_manager.contains_selector(&sel) {
                    return true;
                }
            }
            k = k + 1;
        }
        false
    }

    /// Runs one fuzzing iteration on `input` and reports what happened.
    /// The outcome is a function of the bridge data and the input alone;
    /// the genesis is only read, never mutated.
    pub fn harness(client: &Fuzzer, bug_manager: &BugManager, input: &[u8]) -> (r: HarnessOutcome)
        ensures
            r@ == harness_spec(
                client.setup.specs.messages@,
                client.setup.genesis@,
                bug_manager.contract_bridge.specs.messages@,
                bug_manager.invariant_selectors@,
                input@,
            ),
    {
        let decoded = parse_input(input, &client.setup.specs);
        if Fuzzer::should_stop_now(bug_manager, &decoded) {
            let r = HarnessOutcome {
                decoded,
                responses: Vec::new(),
                coverage: InputCoverage::new(),
                verdict: HarnessVerdict::Skipped,
            };
            proof {
                assert(resps_view(r.responses@) =~= Seq::<ResponseModel>::empty());
            }
            return r;
        }
        let mut chain = client.setup.genesis.duplicate();
        chain.set_timestamp(1);
        proof {
            assert(chain@ == (ChainView {
                contract: client.setup.genesis@.contract,
                timestamp: SLOT_DURATION,
            }));
        }
        let mut coverage = InputCoverage::new();
        let all_msg_responses = execute_messages(client, &decoded, &mut chain, &mut coverage);
        proof {
            let run = run_messages_spec(
                client.setup.specs.messages@,
                ChainView { contract: client.setup.genesis@.contract, timestamp: SLOT_DURATION },
                decoded@.messages,
                decoded.origin,
            );
            assert(coverage@ =~= cov_of_responses(run.1));
        }
        let verdict = check_invariants(bug_manager, &all_msg_responses, &mut chain, decoded.origin);
        HarnessOutcome { decoded, responses: all_msg_responses, coverage, verdict }
    }
}

/// Calls every decoded message in input order on the forked chain,
/// accumulating the coverage each response's debug buffer carries.
pub fn execute_messages(
    client: &Fuzzer,
    decoded_msgs: &OneInput,
    chain: &mut ChainState,
    coverage: &mut InputCoverage,
) -> (r: Vec<FullContractResponse>)
    ensures
        ({
            let run = run_messages_spec(
                client.setup.specs.messages@,
                old(chain)@,
                decoded_msgs@.messages,
                decoded_msgs.origin,
            );
            &&& final(chain)@ == run.0
            &&& resps_view(r@) == run.1
            &&& final(coverage)@ == old(coverage)@ + cov_of_responses(run.1)
        }),
{
    let mut out: Vec<FullContractResponse> = Vec::new();
    run_msgs_from(client, decoded_msgs, 0, chain, coverage, &mut out);
    proof {
        assert(msgs_view(decoded_msgs.messages@).skip(0) =~= decoded_msgs@.messages);
        assert(resps_view(out@) =~= Seq::<ResponseModel>::empty() + resps_view(out@));
    }
    out
}

#[verifier::rlimit(60)]
fn run_msgs_from(
    client: &Fuzzer,
    decoded_msgs: &OneInput,
    idx: usize,
    chain: &mut ChainState,
    coverage: &mut InputCoverage,
    out: &mut Vec<FullContractResponse>,
)
    requires
        idx <= decoded_msgs.messages@.len(),
    ensures
        ({
            let run = run_messages_spec(
                client.setup.specs.messages@,
                old(chain)@,
                msgs_view(decoded_msgs.messages@).skip(idx as int),
                decoded_msgs.origin,
            );
            &&& final(chain)@ == run.0
            &&& resps_view(final(out)@) == resps_view(old(out)@) + run.1
            &&& final(coverage)@ == old(coverage)@ + cov_of_responses(run.1)
        }),
    decreases decoded_msgs.messages@.len() - idx,
{
    let ghost ms = msgs_view(decoded_msgs.messages@).skip(idx as int);
    if idx == decoded_msgs.messages.len() {
        proof {
            assert(ms =~= Seq::<crate::parser::MessageModel>::empty());
            assert(resps_view(out@) =~= resps_view(out@) + Seq::<ResponseModel>::empty());
            assert(coverage@ =~= coverage@ + Set::<u64>::empty());
        }
        return ;
    }
    proof {
        assert(ms[0] == msgs_view(decoded_msgs.messages@)[idx as int]);
        assert(ms.drop_first() =~= msgs_view(decoded_msgs.messages@).skip(idx + 1));
    }
    let message = &decoded_msgs.messages[idx];
    proof {
        assert(ms[0] == message@);
    }
    let transfer_value: u128 = if message.is_payable {
        message.value_token
    } else {
        0
    };
    let result = client.setup.call(chain, &message.payload, decoded_msgs.origin, transfer_value);
    coverage.add_cov(&result.debug_message);
    let ghost rm = result@;
    let ghost before = resps_view(out@);
    let ghost mid_chain = chain@;
    proof {
        assert(resps_view(out@.push(result)) =~= before.push(rm));
    }
    out.push(result);
    run_msgs_from(client, decoded_msgs, idx + 1, chain, coverage, out);
    proof {
        let tail = run_messages_spec(
            client.setup.specs.messages@,
            mid_chain,
            ms.drop_first(),
            decoded_msgs.origin,
        );
        let whole = seq![rm] + tail.1;
        assert(before.push(rm) =~= before + seq![rm]);
        assert(resps_view(out@) =~= before + whole);
        assert(whole[0] == rm);
        assert(whole.drop_first() =~= tail.1);
        assert(cov_of_responses(whole) =~= cov_values(rm.debug) + cov_of_responses(tail.1));
        assert(coverage@ =~= old(coverage)@ + cov_of_responses(whole));
    }
}

/// Scans the responses for a trapped contract, then — only when none
/// trapped — calls every invariant message from the same origin, and
/// names what failed.
pub fn check_invariants(
    bug_manager: &BugManager,
    all_msg_responses: &Vec<FullContractResponse>,
    chain: &mut ChainState,
    origin: u8,
) -> (r: HarnessVerdict)
    ensures
        ({
            let rv = resps_view(all_msg_responses@);
            match first_trap_from(rv, 0) {
                Some(i) => verdict_view(r) == (VerdictModel::Trapped { index: i }) && final(chain)@
                    == old(chain)@,
                None => {
                    let inv = invariants_run(
                        bug_manager.contract_bridge.specs.messages@,
                        old(chain)@,
                        bug_manager.invariant_selectors@,
                        origin,
                    );
                    &&& final(chain)@ == inv.0
                    &&& verdict_view(r) == match inv.1 {
                        Some(p) => VerdictModel::InvariantBroken {
                            selector: p.0,
                            response: p.1,
                        },
                        None => VerdictModel::Clean,
                    }
                },
            }
        }),
{
    let ghost rv = resps_view(all_msg_responses@);
    let mut i: usize = 0;
    while i < all_msg_responses.len()
        invariant
            0 <= i <= rv.len(),
            rv == resps_view(all_msg_responses@),
            chain@ == old(chain)@,
            first_trap_from(rv, 0) == first_trap_from(rv, i as int),
        decreases rv.len() - i,
    {
        proof {
            assert(rv[i as int] == all_msg_responses@[i as int]@);
        }
        if bug_manager.is_contract_trapped(&all_msg_responses[i]) {
            return HarnessVerdict::Trapped { index: i };
        }
        i = i + 1;
    }
    match bug_manager.are_invariants_passing(chain, origin) {
        Ok(()) => HarnessVerdict::Clean,
        Err((selector, response)) => HarnessVerdict::InvariantBroken { selector, response },
    }
}

/// Per-iteration isolation: an iteration's outcome is a function of the
/// bridge data and the raw input alone, so running any input first leaves
/// the outcome of the next input exactly what it would have been alone —
/// the harness takes the bridge by shared reference and the genesis is
/// forked, never mutated.
pub proof fn lemma_iteration_isolation(
    msgs: Seq<MessageSpec>,
    genesis: ChainView,
    inv_msgs: Seq<MessageSpec>,
    invs: Seq<Selector>,
    first: Seq<u8>,
    second: Seq<u8>,
    outcome_alone: HarnessModel,
    outcome_after_first: HarnessModel,
)
    requires
        outcome_alone == harness_spec(msgs, genesis, inv_msgs, invs, second),
        outcome_after_first == harness_spec(msgs, genesis, inv_msgs, invs, second),
    ensures
        outcome_after_first == outcome_alone,
        outcome_after_first.responses == outcome_alone.responses,
{
}

/// The quote-wrapped, escaped form of one selector for the dictionary
/// file: `"\xHH\xHH\xHH\xHH"` with upper-case digits.
pub open spec fn hex_upper_byte(n: u8) -> u8 {
    if n < 10 {
        (48 + n) as u8
    } else {
        (55 + n) as u8
    }
}

pub open spec fn esc_byte(b: u8) -> Seq<u8> {
    seq![92u8, 120u8, hex_upper_byte(b / 16), hex_upper_byte(b % 16)]
}

pub open spec fn dict_entry_spec(s: Selector) -> Seq<u8> {
    seq![34u8] + esc_byte(s.b0) + esc_byte(s.b1) + esc_byte(s.b2) + esc_byte(s.b3) + seq![34u8]
}

fn push_escaped(v: &mut Vec<u8>, b: u8)
    ensures
        final(v)@ == old(v)@ + esc_byte(b),
{
    v.push(92);
    v.push(120);
    let hi = b / 16;
    let lo = b % 16;
    if hi < 10 {
        v.push(48 + hi);
    } else {
        v.push(55 + hi);
    }
    if lo < 10 {
        v.push(48 + lo);
    } else {
        v.push(55 + lo);
    }
    proof {
        assert(v@ =~= old(v)@ + esc_byte(b));
    }
}

/// One selector dictionary line, without the newline.
pub fn dict_entry(selector: &Selector) -> (r: Vec<u8>)
    ensures
        r@ == dict_entry_spec(*selector),
{
    let mut v: Vec<u8> = Vec::new();
    v.push(34);
    push_escaped(&mut v, selector.b0);
    push_escaped(&mut v, selector.b1);
    push_escaped(&mut v, selector.b2);
    push_escaped(&mut v, selector.b3);
    v.push(34);
    proof {
        assert(v@ =~= dict_entry_spec(*selector));
    }
    v
}

/// The dictionary file's header lines: two comments, then the framing
/// delimiter declaration the external mutator honors.
pub fn dict_header_lines() -> (r: Vec<Vec<u8>>)
    ensures
        r@.len() == 3,
        r@[0]@ == "# Dictionary file for selectors".spec_bytes(),
        r@[1]@ == "# Lines starting with '#' and empty lines are ignored.".spec_bytes(),
        r@[2]@ == "delimiter=\"********\"".spec_bytes(),
{
    let mut r: Vec<Vec<u8>> = Vec::new();
    r.push("# Dictionary file for selectors".as_bytes_vec());
    r.push("# Lines starting with '#' and empty lines are ignored.".as_bytes_vec());
    r.push("delimiter=\"********\"".as_bytes_vec());
    r
}

} // verus!
