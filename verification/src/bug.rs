//! The bug manager: detects trapped contracts and runs the invariant
//! messages after each call sequence. Findings are handed back to the
//! caller; the application layer renders them and aborts the process,
//! which the external driver records as a crash.

use vstd::prelude::*;

use crate::bytesutil::bytes_eq;
use crate::config::Configuration;
use crate::remote::ChainState;
use crate::remote::ChainView;
use crate::remote::ContractBridge;
use crate::remote::DispatchError;
use crate::remote::DispatchErrorModel;
use crate::remote::FullContractResponse;
use crate::remote::ResponseModel;
use crate::remote::call_spec;
use crate::remote::trapped_message;
use crate::remote::trapped_message_bytes;
use crate::selector::Selector;
use crate::selector::selectors_contain;

verus! {

/// Whether a response reports the dispatch error of a trapped contract:
/// a module error whose message equals `ContractTrapped`.
pub open spec fn response_trapped(r: ResponseModel) -> bool {
    match r.result {
        Err(DispatchErrorModel::Module(msg)) => msg == Some(trapped_message()),
        _ => false,
    }
}

/// What running the invariant messages one after another does: the chain
/// they leave behind, and the first invariant whose call fails at dispatch
/// level, with its response.
pub open spec fn invariants_run(
    msgs: Seq<crate::metadata::MessageSpec>,
    pre: ChainView,
    sels: Seq<Selector>,
    origin: u8,
) -> (ChainView, Option<(Selector, ResponseModel)>)
    decreases sels.len(),
{
    if sels.len() == 0 {
        (pre, None)
    } else {
        let pr = call_spec(msgs, pre, sels[0]@, origin, 0);
        if pr.1.result is Err {
            (pr.0, Some((sels[0], pr.1)))
        } else {
            invariants_run(msgs, pr.0, sels.drop_first(), origin)
        }
    }
}

/// Watches executions for findings: a bridge to call invariants through,
/// and the selectors of the invariant messages.
pub struct BugManager {
    pub contract_bridge: ContractBridge,
    pub invariant_selectors: Vec<Selector>,
    pub configuration: Configuration,
}

impl BugManager {
    pub fn from(
        invariant_selectors: Vec<Selector>,
        contract_bridge: ContractBridge,
        configuration: Configuration,
    ) -> (r: BugManager)
        ensures
            r.invariant_selectors == invariant_selectors,
            r.contract_bridge == contract_bridge,
            r.configuration == configuration,
    {
        BugManager { contract_bridge, invariant_selectors, configuration }
    }

    /// Whether `selector` names an invariant message.
    pub fn contains_selector(&self, selector: &Selector) -> (r: bool)
        ensures
            r == self.invariant_selectors@.contains(*selector),
    {
        selectors_contain(&self.invariant_selectors, selector)
    }

    /// Whether the response reports a trapped contract.
    pub fn is_contract_trapped(&self, contract_response: &FullContractResponse) -> (r: bool)
        ensures
            r == response_trapped(contract_response@),
    {
        match &contract_response.result {
            Err(DispatchError::Module(me)) => match &me.message {
                Some(m) => {
                    let expected = trapped_message_bytes();
                    bytes_eq(m.as_slice(), expected.as_slice())
                },
                None => false,
            },
            _ => false,
        }
    }

    /// Calls every invariant message from `origin` with value 0, in
    /// declaration order, and reports the first whose call fails at
    /// dispatch level, together with its response.
    pub fn are_invariants_passing(&self, chain: &mut ChainState, origin: u8) -> (r: Result<
        (),
        (Selector, FullContractResponse),
    >)
        ensures
            final(chain)@ == invariants_run(
                self.contract_bridge.specs.messages@,
                old(chain)@,
                self.invariant_selectors@,
                origin,
            ).0,
            match r {
                Ok(u) => invariants_run(
                    self.contract_bridge.specs.messages@,
                    old(chain)@,
                    self.invariant_selectors@,
                    origin,
                ).1 is None,
                Err(p) => invariants_run(
                    self.contract_bridge.specs.messages@,
                    old(chain)@,
                    self.invariant_selectors@,
                    origin,
                ).1 == Some((p.0, p.1@)),
            },
    {
        let ghost msgs = self.contract_bridge.specs.messages@;
        let ghost sels = self.invariant_selectors@;
        proof {
            assert(sels.skip(0) =~= sels);
        }
        let mut i: usize = 0;
        while i < self.invariant_selectors.len()
            invariant
                0 <= i <= sels.len(),
                msgs == self.contract_bridge.specs.messages@,
                sels == self.invariant_selectors@,
                invariants_run(msgs, old(chain)@, sels, origin) == invariants_run(
                    msgs,
                    chain@,
                    sels.skip(i as int),
                    origin,
                ),
            decreases sels.len() - i,
        {
            let sel = self.invariant_selectors[i];
            let payload = sel.to_bytes();
            proof {
                assert(sels.skip(i as int)[0] == sels[i as int]);
                assert(sels.skip(i as int).drop_first() =~= sels.skip(i + 1));
            }
            let invariant_call = self.contract_bridge.call(chain, &payload, origin, 0);
            if invariant_call.result.is_err() {
                return Err((sel, invariant_call));
            }
            i = i + 1;
        }
        proof {
            assert(sels.skip(sels.len() as int) =~= Seq::<Selector>::empty());
        }
        Ok(())
    }
}

} // verus!
