//! A plain-value model of the contract metadata: the declared messages and
//! constructors, and the payload crafter that derives selectors, invariant
//! selectors and a default constructor payload from them.
//!
//! The unverified application layer parses the metadata JSON file and hands
//! the library this model; every rule on it is verified here.

use vstd::prelude::*;

use crate::selector::Selector;
use crate::selector::selectors_contain;

verus! {

/// One message declared by the contract metadata.
pub struct MessageSpec {
    /// The message identifier, as bytes of its name.
    pub label: Vec<u8>,
    pub selector: Selector,
    /// True iff the metadata declares the message as accepting value.
    pub payable: bool,
    /// The number of scale-encoded argument bytes the message consumes.
    pub arg_len: usize,
    /// True iff the metadata declares the message as mutating state.
    pub mutates: bool,
}

/// One constructor declared by the contract metadata.
pub struct ConstructorSpec {
    pub label: Vec<u8>,
    pub selector: Selector,
    pub arg_len: usize,
}

/// The slice of the contract metadata the fuzzer reads.
pub struct ContractSpecs {
    pub messages: Vec<MessageSpec>,
    pub constructors: Vec<ConstructorSpec>,
}

/// The declared prefix of invariant message names, `phink_`.
pub open spec fn invariant_prefix() -> Seq<u8> {
    seq![112u8, 104u8, 105u8, 110u8, 107u8, 95u8]
}

/// Whether a message name carries the invariant prefix.
pub open spec fn spec_is_invariant_label(l: Seq<u8>) -> bool {
    l.len() >= 6 && l.subrange(0, 6) == invariant_prefix()
}

/// Every selector declared by the messages, in declaration order.
pub open spec fn all_selectors_spec(msgs: Seq<MessageSpec>) -> Seq<Selector> {
    msgs.map_values(|m: MessageSpec| m.selector)
}

/// The selectors of the messages whose name carries the invariant prefix,
/// in declaration order.
pub open spec fn invariant_selectors_spec(msgs: Seq<MessageSpec>) -> Seq<Selector>
    decreases msgs.len(),
{
    if msgs.len() == 0 {
        Seq::empty()
    } else {
        invariant_selectors_spec(msgs.drop_last()) + if spec_is_invariant_label(
            msgs.last().label@,
        ) {
            seq![msgs.last().selector]
        } else {
            Seq::empty()
        }
    }
}

/// The members of `sel` that do not occur in `bad`, in order.
pub open spec fn filter_not_in(sel: Seq<Selector>, bad: Seq<Selector>) -> Seq<Selector>
    decreases sel.len(),
{
    if sel.len() == 0 {
        Seq::empty()
    } else {
        filter_not_in(sel.drop_last(), bad) + if bad.contains(sel.last()) {
            Seq::empty()
        } else {
            seq![sel.last()]
        }
    }
}

/// The selectors the fuzzer may synthesize: all declared selectors except
/// those of invariant messages.
pub open spec fn fuzzable_selectors_spec(msgs: Seq<MessageSpec>) -> Seq<Selector> {
    filter_not_in(all_selectors_spec(msgs), invariant_selectors_spec(msgs))
}

/// The index of the first message declaring `sel`, scanning from `i`.
pub open spec fn find_message_from(msgs: Seq<MessageSpec>, sel: Selector, i: int) -> Option<int>
    decreases msgs.len() - i,
{
    if i < 0 || i >= msgs.len() {
        None
    } else if msgs[i].selector == sel {
        Some(i)
    } else {
        find_message_from(msgs, sel, i + 1)
    }
}

/// A well-formed metadata model declares each selector at most once.
pub open spec fn distinct_selectors(msgs: Seq<MessageSpec>) -> bool {
    forall|i: int, j: int|
        0 <= i < j < msgs.len() ==> #[trigger] msgs[i].selector != #[trigger] msgs[j].selector
}

/// What a successful selector search means.
pub proof fn lemma_find_message_from_props(msgs: Seq<MessageSpec>, sel: Selector, i: int)
    ensures
        find_message_from(msgs, sel, i) matches Some(j) ==> i <= j < msgs.len() && msgs[j].selector
            == sel,
    decreases msgs.len() - i,
{
    if i < 0 || i >= msgs.len() {
    } else if msgs[i].selector == sel {
    } else {
        lemma_find_message_from_props(msgs, sel, i + 1);
    }
}

/// A selector stands in the invariant list exactly when some message with
/// the invariant prefix declares it.
pub proof fn lemma_invariant_selectors_member(msgs: Seq<MessageSpec>, sel: Selector)
    ensures
        invariant_selectors_spec(msgs).contains(sel) <==> exists|j: int|
            0 <= j < msgs.len() && #[trigger] msgs[j].selector == sel && spec_is_invariant_label(
                msgs[j].label@,
            ),
    decreases msgs.len(),
{
    if msgs.len() == 0 {
    } else {
        lemma_invariant_selectors_member(msgs.drop_last(), sel);
        let pre = invariant_selectors_spec(msgs.drop_last());
        let whole = invariant_selectors_spec(msgs);
        if invariant_selectors_spec(msgs).contains(sel) {
            if pre.contains(sel) {
                let j = choose|j: int|
                    0 <= j < msgs.drop_last().len() && #[trigger] msgs.drop_last()[j].selector
                        == sel && spec_is_invariant_label(msgs.drop_last()[j].label@);
                assert(msgs[j].selector == sel && spec_is_invariant_label(msgs[j].label@));
            } else {
                assert(spec_is_invariant_label(msgs.last().label@) && msgs.last().selector == sel);
                assert(msgs[msgs.len() - 1].selector == sel);
            }
        }
        if exists|j: int|
            0 <= j < msgs.len() && #[trigger] msgs[j].selector == sel && spec_is_invariant_label(
                msgs[j].label@,
            ) {
            let j = choose|j: int|
                0 <= j < msgs.len() && #[trigger] msgs[j].selector == sel
                    && spec_is_invariant_label(msgs[j].label@);
            if j < msgs.len() - 1 {
                assert(msgs.drop_last()[j].selector == sel && spec_is_invariant_label(
                    msgs.drop_last()[j].label@,
                ));
                assert(pre.contains(sel));
                let k = choose|k: int| 0 <= k < pre.len() && pre[k] == sel;
                assert(whole[k] == sel);
                assert(whole.contains(sel));
            } else {
                assert(whole[whole.len() - 1] == sel);
                assert(whole.contains(sel));
            }
        }
    }
}

/// A declared selector that no invariant message declares survives the
/// filtering into the fuzzable list.
pub proof fn lemma_filter_not_in_member(sel: Seq<Selector>, bad: Seq<Selector>, s: Selector)
    requires
        sel.contains(s),
        !bad.contains(s),
    ensures
        filter_not_in(sel, bad).contains(s),
    decreases sel.len(),
{
    let j = choose|j: int| 0 <= j < sel.len() && sel[j] == s;
    if j == sel.len() - 1 {
        let out = filter_not_in(sel, bad);
        assert(out[out.len() - 1] == s);
    } else {
        assert(sel.drop_last()[j] == s);
        assert(sel.drop_last().contains(s));
        lemma_filter_not_in_member(sel.drop_last(), bad, s);
        let pre = filter_not_in(sel.drop_last(), bad);
        let k = choose|k: int| 0 <= k < pre.len() && pre[k] == s;
        assert(filter_not_in(sel, bad)[k] == s);
    }
}

/// A declared message whose name lacks the invariant prefix has its
/// selector in the fuzzable list, as long as selectors are distinct.
pub proof fn lemma_fuzzable_member(msgs: Seq<MessageSpec>, i: int)
    requires
        distinct_selectors(msgs),
        0 <= i < msgs.len(),
        !spec_is_invariant_label(msgs[i].label@),
    ensures
        fuzzable_selectors_spec(msgs).contains(msgs[i].selector),
{
    let sel = msgs[i].selector;
    assert(all_selectors_spec(msgs)[i] == sel);
    assert(all_selectors_spec(msgs).contains(sel));
    lemma_invariant_selectors_member(msgs, sel);
    if invariant_selectors_spec(msgs).contains(sel) {
        let j = choose|j: int|
            0 <= j < msgs.len() && #[trigger] msgs[j].selector == sel && spec_is_invariant_label(
                msgs[j].label@,
            );
        assert(j != i);
        if i < j {
            assert(msgs[i].selector != msgs[j].selector);
        } else {
            assert(msgs[j].selector != msgs[i].selector);
        }
    }
    lemma_filter_not_in_member(all_selectors_spec(msgs), invariant_selectors_spec(msgs), sel);
}

/// Whether a message name carries the invariant prefix.
pub fn is_invariant_label(l: &Vec<u8>) -> (r: bool)
    ensures
        r == spec_is_invariant_label(l@),
{
    if l.len() < 6 {
        return false;
    }
    let r = l[0] == 112 && l[1] == 104 && l[2] == 105 && l[3] == 110 && l[4] == 107 && l[5] == 95;
    proof {
        if r {
            assert(l@.subrange(0, 6) =~= invariant_prefix());
        } else {
            if l@.subrange(0, 6) == invariant_prefix() {
                assert(l@[0] == 112 && l@[1] == 104 && l@[2] == 105 && l@[3] == 110 && l@[4] == 107
                    && l@[5] == 95) by {
                    assert(forall|k: int|
                        0 <= k < 6 ==> l@.subrange(0, 6)[k] == invariant_prefix()[k]);
                }
            }
        }
    }
    r
}

/// Every message selector declared in the metadata.
pub fn extract_all(specs: &ContractSpecs) -> (r: Vec<Selector>)
    ensures
        r@ == all_selectors_spec(specs.messages@),
{
    let mut r: Vec<Selector> = Vec::new();
    let mut i: usize = 0;
    while i < specs.messages.len()
        invariant
            0 <= i <= specs.messages@.len(),
            r@ =~= all_selectors_spec(specs.messages@.take(i as int)),
        decreases specs.messages@.len() - i,
    {
        r.push(specs.messages[i].selector);
        proof {
            assert(specs.messages@.take(i + 1).map_values(|m: MessageSpec| m.selector)
                =~= specs.messages@.take(i as int).map_values(|m: MessageSpec| m.selector).push(
                specs.messages@[i as int].selector,
            ));
        }
        i = i + 1;
    }
    proof {
        assert(specs.messages@.take(specs.messages@.len() as int) =~= specs.messages@);
    }
    r
}

/// The selectors of the invariant messages, or `None` when the metadata
/// declares none.
pub fn extract_invariants(specs: &ContractSpecs) -> (r: Option<Vec<Selector>>)
    ensures
        r is Some <==> invariant_selectors_spec(specs.messages@).len() >= 1,
        r is Some ==> r->0@ == invariant_selectors_spec(specs.messages@),
{
    let mut acc: Vec<Selector> = Vec::new();
    let mut i: usize = 0;
    while i < specs.messages.len()
        invariant
            0 <= i <= specs.messages@.len(),
            acc@ =~= invariant_selectors_spec(specs.messages@.take(i as int)),
        decreases specs.messages@.len() - i,
    {
        proof {
            assert(specs.messages@.take(i + 1).drop_last() =~= specs.messages@.take(i as int));
            assert(specs.messages@.take(i + 1).last() == specs.messages@[i as int]);
        }
        if is_invariant_label(&specs.messages[i].label) {
            acc.push(specs.messages[i].selector);
        }
        i = i + 1;
    }
    proof {
        assert(specs.messages@.take(specs.messages@.len() as int) =~= specs.messages@);
    }
    if acc.len() == 0 {
        None
    } else {
        Some(acc)
    }
}

/// The selectors the fuzzer may synthesize: all declared selectors minus
/// the invariant selectors.
pub fn fuzzable_selectors(specs: &ContractSpecs) -> (r: Vec<Selector>)
    ensures
        r@ == fuzzable_selectors_spec(specs.messages@),
{
    let all = extract_all(specs);
    let invs = match extract_invariants(specs) {
        Some(v) => v,
        None => Vec::new(),
    };
    proof {
        assert(invs@ =~= invariant_selectors_spec(specs.messages@));
    }
    let mut r: Vec<Selector> = Vec::new();
    let mut i: usize = 0;
    while i < all.len()
        invariant
            0 <= i <= all@.len(),
            invs@ == invariant_selectors_spec(specs.messages@),
            all@ == all_selectors_spec(specs.messages@),
            r@ =~= filter_not_in(all@.take(i as int), invs@),
        decreases all@.len() - i,
    {
        proof {
            assert(all@.take(i + 1).drop_last() =~= all@.take(i as int));
            assert(all@.take(i + 1).last() == all@[i as int]);
        }
        if !selectors_contain(&invs, &all[i]) {
            r.push(all[i]);
        }
        i = i + 1;
    }
    proof {
        assert(all@.take(all@.len() as int) =~= all@);
    }
    r
}

/// The index of the first message declaring `sel`, if any.
pub fn find_message(specs: &ContractSpecs, sel: &Selector) -> (r: Option<usize>)
    ensures
        r is Some ==> {
            &&& find_message_from(specs.messages@, *sel, 0) == Some(r->0 as int)
            &&& r->0 < specs.messages@.len()
            &&& specs.messages@[r->0 as int].selector == *sel
        },
        r is None ==> find_message_from(specs.messages@, *sel, 0) is None,
{
    let mut i: usize = 0;
    while i < specs.messages.len()
        invariant
            0 <= i <= specs.messages@.len(),
            find_message_from(specs.messages@, *sel, 0) == find_message_from(
                specs.messages@,
                *sel,
                i as int,
            ),
        decreases specs.messages@.len() - i,
    {
        if specs.messages[i].selector == *sel {
            return Some(i);
        }
        i = i + 1;
    }
    None
}

/// The label `new`, by which the default constructor is preferred.
pub open spec fn new_label() -> Seq<u8> {
    seq![110u8, 101u8, 119u8]
}

/// The index of the first constructor labeled `new`, scanning from `i`.
pub open spec fn find_new_ctor_from(ctors: Seq<ConstructorSpec>, i: int) -> Option<int>
    decreases ctors.len() - i,
{
    if i < 0 || i >= ctors.len() {
        None
    } else if ctors[i].label@ == new_label() {
        Some(i)
    } else {
        find_new_ctor_from(ctors, i + 1)
    }
}

/// Which constructor the crafter deploys by default: the one named `new`
/// when present, else the first declared one.
pub open spec fn ctor_choice_spec(ctors: Seq<ConstructorSpec>) -> Option<int> {
    match find_new_ctor_from(ctors, 0) {
        Some(i) => Some(i),
        None => if ctors.len() >= 1 {
            Some(0int)
        } else {
            None
        },
    }
}

/// The default payload of a constructor: its selector followed by all-zero
/// argument bytes.
pub open spec fn ctor_payload_spec(c: ConstructorSpec) -> Seq<u8> {
    c.selector@ + Seq::new(c.arg_len as nat, |i: int| 0u8)
}

fn label_is_new(l: &Vec<u8>) -> (r: bool)
    ensures
        r == (l@ == new_label()),
{
    let r = l.len() == 3 && l[0] == 110 && l[1] == 101 && l[2] == 119;
    proof {
        if r {
            assert(l@ =~= new_label());
        }
    }
    r
}

fn find_new_ctor(ctors: &Vec<ConstructorSpec>) -> (r: Option<usize>)
    ensures
        r is Some ==> {
            &&& find_new_ctor_from(ctors@, 0) == Some(r->0 as int)
            &&& r->0 < ctors@.len()
        },
        r is None ==> find_new_ctor_from(ctors@, 0) is None,
{
    let mut i: usize = 0;
    while i < ctors.len()
        invariant
            0 <= i <= ctors@.len(),
            find_new_ctor_from(ctors@, 0) == find_new_ctor_from(ctors@, i as int),
        decreases ctors@.len() - i,
    {
        if label_is_new(&ctors[i].label) {
            return Some(i);
        }
        i = i + 1;
    }
    None
}

/// The scale-encoded payload deployed when the user supplies none, or
/// `None` when the metadata declares no constructor.
pub fn get_constructor(specs: &ContractSpecs) -> (r: Option<Vec<u8>>)
    ensures
        r is Some <==> ctor_choice_spec(specs.constructors@) is Some,
        r is Some ==> r->0@ == ctor_payload_spec(
            specs.constructors@[ctor_choice_spec(specs.constructors@)->0],
        ),
{
    let chosen = find_new_ctor(&specs.constructors);
    let idx: usize = match chosen {
        Some(i) => i,
        None => {
            if specs.constructors.len() == 0 {
                return None;
            }
            0
        },
    };
    proof {
        assert(ctor_choice_spec(specs.constructors@) == Some(idx as int));
    }
    let c = &specs.constructors[idx];
    let mut payload = c.selector.to_bytes();
    let mut k: usize = 0;
    while k < c.arg_len
        invariant
            0 <= k <= c.arg_len,
            c == specs.constructors@[idx as int],
            payload@ =~= c.selector@ + Seq::new(k as nat, |i: int| 0u8),
        decreases c.arg_len - k,
    {
        payload.push(0);
        k = k + 1;
    }
    proof {
        assert(payload@ =~= ctor_payload_spec(specs.constructors@[idx as int]));
    }
    Some(payload)
}

} // verus!
