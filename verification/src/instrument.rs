//! The contract-source instrumentation pass: inserting a coverage beacon
//! before every statement, refusing to instrument twice, and the
//! decisions of the engine around it — which build artifact to pick and
//! which forked directories to clean.
//!
//! The application layer walks the real syntax tree and applies
//! `ContractCovUpdater`'s rule to every block, copies source trees and
//! runs the build; those steps are I/O and stay outside the library.

use vstd::prelude::*;

use vstd::string::StrSliceExecFns;
use vstd::string::StringExecFns;

use rand::Rng;

use crate::bytesutil::all_digits;
use crate::bytesutil::bytes_eq;
use crate::bytesutil::copy_range;
use crate::bytesutil::is_digit;

verus! {

/// Assists in instrumenting ink! smart contracts: the fuzzer adds a
/// tracing statement to every statement of the target so that executions
/// yield a coverage map, turning brute force into coverage guidance.
#[derive(Clone)]
pub struct InstrumenterEngine {
    pub contract_dir: String,
}

/// The two build artifacts the fuzzer needs: the WASM blob and the JSON
/// metadata beside it.
pub struct InkFilesPath {
    pub wasm_path: String,
    pub specs_path: String,
}

/// Building the instrumented contract through the contract toolchain.
pub trait ContractBuilder {
    fn build(&self) -> Result<InkFilesPath, String>;
}

/// Copying the contract source tree into a fresh temporary directory.
pub trait ContractForker {
    fn fork(&self) -> Result<String, String>;
}

impl InstrumenterEngine {
    pub fn new(dir: String) -> (r: InstrumenterEngine)
        ensures
            r.contract_dir == dir,
    {
        InstrumenterEngine { contract_dir: dir }
    }
}

/// One statement of the modeled source: either an original statement at
/// some source line, or an inserted coverage beacon carrying a line.
#[derive(Clone, Copy, PartialEq, Eq, Structural, Debug)]
pub enum ModelStmt {
    Beacon { line: u64 },
    Code { line: u64 },
}

/// The source line a statement sits on.
pub open spec fn line_of(s: ModelStmt) -> u64 {
    match s {
        ModelStmt::Beacon { line } => line,
        ModelStmt::Code { line } => line,
    }
}

/// Whether a block already holds an inserted beacon.
pub open spec fn has_beacon(ss: Seq<ModelStmt>) -> bool {
    exists|i: int| 0 <= i < ss.len() && (#[trigger] ss[i]) is Beacon
}

/// What instrumenting one block does: before every statement, a beacon
/// carrying that statement's source line.
pub open spec fn instrument_seq(ss: Seq<ModelStmt>) -> Seq<ModelStmt>
    decreases ss.len(),
{
    if ss.len() == 0 {
        Seq::empty()
    } else {
        instrument_seq(ss.drop_last()) + seq![
            ModelStmt::Beacon { line: line_of(ss.last()) },
            ss.last(),
        ]
    }
}

/// An instrumented block against its original: twice as long, a beacon
/// with the statement's own line immediately before each statement, and
/// nothing else.
pub open spec fn well_instrumented(orig: Seq<ModelStmt>, out: Seq<ModelStmt>) -> bool {
    &&& out.len() == 2 * orig.len()
    &&& forall|i: int|
        0 <= i < orig.len() ==> #[trigger] out[2 * i] == (ModelStmt::Beacon {
            line: line_of(orig[i]),
        })
    &&& forall|i: int| 0 <= i < orig.len() ==> #[trigger] out[2 * i + 1] == orig[i]
}

/// Every original statement is preceded by exactly one beacon statement
/// whose line literal equals that statement's source line.
pub proof fn lemma_every_statement_preceded_by_beacon(ss: Seq<ModelStmt>)
    ensures
        well_instrumented(ss, instrument_seq(ss)),
    decreases ss.len(),
{
    if ss.len() == 0 {
    } else {
        lemma_every_statement_preceded_by_beacon(ss.drop_last());
        let out = instrument_seq(ss);
        let pre = instrument_seq(ss.drop_last());
        assert forall|i: int| 0 <= i < ss.len() implies #[trigger] out[2 * i] == (ModelStmt::Beacon {
            line: line_of(ss[i]),
        }) && out[2 * i + 1] == ss[i] by {
            if i < ss.len() - 1 {
                assert(ss.drop_last()[i] == ss[i]);
                assert(out[2 * i] == pre[2 * i]);
                assert(out[2 * i + 1] == pre[2 * i + 1]);
            } else {
                assert(out[2 * i] == (ModelStmt::Beacon { line: line_of(ss.last()) }));
                assert(out[2 * i + 1] == ss.last());
            }
        }
    }
}

/// Instrumenting any nonempty block leaves a beacon in it, so a second
/// instrumentation pass detects the first and refuses.
pub proof fn lemma_instrumented_output_detected(ss: Seq<ModelStmt>)
    requires
        ss.len() > 0,
    ensures
        has_beacon(instrument_seq(ss)),
{
    let out = instrument_seq(ss);
    lemma_every_statement_preceded_by_beacon(ss);
    let j: int = 2 * (ss.len() - 1);
    assert(out[j] == (ModelStmt::Beacon { line: line_of(ss[ss.len() - 1]) }));
    assert(0 <= j < out.len());
    assert(has_beacon(out));
}

/// The statement visitor: rewrites one block by inserting a beacon before
/// every statement of it. The application layer's syntax-tree walk
/// applies it to every block, nested ones included.
pub struct ContractCovUpdater {}

impl ContractCovUpdater {
    pub fn new() -> (r: ContractCovUpdater) {
        ContractCovUpdater {  }
    }

    /// Rewrites one block in place.
    pub fn visit_block_mut(&self, block: &mut Vec<ModelStmt>)
        ensures
            final(block)@ == instrument_seq(old(block)@),
    {
        let mut acc: Vec<ModelStmt> = Vec::new();
        let mut i: usize = 0;
        while i < block.len()
            invariant
                0 <= i <= block@.len(),
                block@ == old(block)@,
                acc@ =~= instrument_seq(block@.take(i as int)),
            decreases block@.len() - i,
        {
            let s = block[i];
            proof {
                assert(block@.take(i + 1).drop_last() =~= block@.take(i as int));
                assert(block@.take(i + 1).last() == block@[i as int]);
            }
            acc.push(ModelStmt::Beacon { line: stmt_line(&s) });
            acc.push(s);
            i = i + 1;
        }
        proof {
            assert(block@.take(block@.len() as int) =~= block@);
        }
        *block = acc;
    }
}

/// The source line a statement sits on.
pub fn stmt_line(s: &ModelStmt) -> (r: u64)
    ensures
        r == line_of(*s),
{
    match s {
        ModelStmt::Beacon { line } => *line,
        ModelStmt::Code { line } => *line,
    }
}

/// Whether a block already holds a beacon.
pub fn block_has_beacon(block: &Vec<ModelStmt>) -> (r: bool)
    ensures
        r == has_beacon(block@),
{
    let mut i: usize = 0;
    while i < block.len()
        invariant
            0 <= i <= block@.len(),
            forall|j: int| 0 <= j < i ==> !((#[trigger] block@[j]) is Beacon),
        decreases block@.len() - i,
    {
        match block[i] {
            ModelStmt::Beacon { .. } => {
                return true;
            },
            ModelStmt::Code { .. } => {},
        }
        i = i + 1;
    }
    false
}

/// Instruments one block, refusing a block that already carries beacons.
pub fn instrument_block(block: &Vec<ModelStmt>) -> (r: Result<Vec<ModelStmt>, String>)
    ensures
        r is Err <==> has_beacon(block@),
        r matches Ok(out) ==> out@ == instrument_seq(block@),
{
    if block_has_beacon(block) {
        return Err(String::from_str("code already instrumented"));
    }
    let visitor = ContractCovUpdater::new();
    let mut out: Vec<ModelStmt> = Vec::new();
    let mut i: usize = 0;
    while i < block.len()
        invariant
            0 <= i <= block@.len(),
            out@ =~= block@.take(i as int),
        decreases block@.len() - i,
    {
        out.push(block[i]);
        proof {
            assert(block@.take(i + 1) =~= block@.take(i as int).push(block@[i as int]));
        }
        i = i + 1;
    }
    proof {
        assert(block@.take(block@.len() as int) =~= block@);
    }
    visitor.visit_block_mut(&mut out);
    Ok(out)
}

/// The canonical beacon literal's opening, `ink::env::debug_println!("COV=`,
/// as source bytes.
pub open spec fn beacon_prefix() -> Seq<u8> {
    seq![105u8, 110u8, 107u8, 58u8, 58u8, 101u8, 110u8, 118u8, 58u8, 58u8, 100u8, 101u8, 98u8, 117u8, 103u8, 95u8, 112u8, 114u8, 105u8, 110u8, 116u8, 108u8, 110u8, 33u8, 40u8, 34u8, 67u8, 79u8, 86u8, 61u8]
}

fn beacon_prefix_bytes() -> (r: Vec<u8>)
    ensures
        r@ == beacon_prefix(),
{
    let mut v: Vec<u8> = Vec::new();
    v.push(105);
    v.push(110);
    v.push(107);
    v.push(58);
    v.push(58);
    v.push(101);
    v.push(110);
    v.push(118);
    v.push(58);
    v.push(58);
    v.push(100);
    v.push(101);
    v.push(98);
    v.push(117);
    v.push(103);
    v.push(95);
    v.push(112);
    v.push(114);
    v.push(105);
    v.push(110);
    v.push(116);
    v.push(108);
    v.push(110);
    v.push(33);
    v.push(40);
    v.push(34);
    v.push(67);
    v.push(79);
    v.push(86);
    v.push(61);
    proof {
        assert(v@ =~= beacon_prefix());
    }
    v
}

/// A byte that extends an identifier, for the word boundary in front of
/// the beacon pattern.
pub open spec fn word_byte(b: u8) -> bool {
    (48 <= b <= 57) || (65 <= b <= 90) || (97 <= b <= 122) || b == 95
}

/// A run of at least one digit starting at `j`, closed by `")`.
pub open spec fn digits_then_close(s: Seq<u8>, j: int) -> bool {
    exists|k: int|
        1 <= k && j + k + 2 <= s.len() && all_digits(#[trigger] s.subrange(j, j + k)) && s[j + k]
            == 34 && s[j + k + 1] == 41
}

/// The full beacon pattern at position `i`: a word boundary, the opening
/// literal, one or more digits, and the closing quote and parenthesis.
pub open spec fn beacon_match_at(s: Seq<u8>, i: int) -> bool {
    &&& 0 <= i
    &&& i + 30 <= s.len()
    &&& s.subrange(i, i + 30) == beacon_prefix()
    &&& (i == 0 || !word_byte(s[i - 1]))
    &&& digits_then_close(s, i + 30)
}

/// Whether source text already carries a coverage beacon statement.
pub open spec fn spec_already_instrumented(s: Seq<u8>) -> bool {
    exists|i: int| beacon_match_at(s, i)
}

fn digits_close_at(code: &[u8], j: usize) -> (r: bool)
    requires
        j <= code@.len(),
    ensures
        r == digits_then_close(code@, j as int),
{
    let ghost s = code@;
    let mut k: usize = j;
    while k < code.len() && code[k] >= 48 && code[k] <= 57
        invariant
            j <= k <= s.len(),
            s == code@,
            forall|p: int| j <= p < k ==> is_digit(#[trigger] s[p]),
        decreases s.len() - k,
    {
        k = k + 1;
    }
    let r = k > j && k < code.len() && code.len() - k >= 2 && code[k] == 34 && code[k + 1] == 41;
    proof {
        if r {
            let kk = k - j;
            assert(all_digits(s.subrange(j as int, j + kk))) by {
                assert(forall|p: int|
                    0 <= p < kk ==> is_digit(#[trigger] s.subrange(j as int, j + kk)[p]));
            }
            assert(s[j + kk] == 34 && s[j + kk + 1] == 41);
            assert(digits_then_close(s, j as int));
        } else {
            if digits_then_close(s, j as int) {
                let kk = choose|kk: int|
                    1 <= kk && j + kk + 2 <= s.len() && all_digits(
                        #[trigger] s.subrange(j as int, j + kk),
                    ) && s[j + kk] == 34 && s[j + kk + 1] == 41;
                if j + kk < k {
                    assert(is_digit(s[j + kk]));
                    assert(false);
                } else if j + kk > k {
                    assert(k < s.len());
                    assert(!(code[k as int] >= 48 && code[k as int] <= 57));
                    assert(s.subrange(j as int, j + kk)[k - j] == s[k as int]);
                    assert(is_digit(s[k as int]));
                    assert(false);
                } else {
                    assert(k > j && k < s.len() && s[k as int] == 34 && s[k + 1] == 41);
                    assert(false);
                }
            }
        }
    }
    r
}

fn beacon_match_at_exec(code: &[u8], i: usize) -> (r: bool)
    requires
        i <= code@.len(),
    ensures
        r == beacon_match_at(code@, i as int),
{
    if code.len() - i < 30 {
        return false;
    }
    let pre = beacon_prefix_bytes();
    let window = copy_range(code, i, i + 30);
    if !bytes_eq(window.as_slice(), pre.as_slice()) {
        return false;
    }
    if i > 0 {
        let b = code[i - 1];
        if (48 <= b && b <= 57) || (65 <= b && b <= 90) || (97 <= b && b <= 122) || b == 95 {
            return false;
        }
    }
    digits_close_at(code, i + 30)
}

/// Checks whether the given source text is already instrumented: it looks
/// for `ink::env::debug_println!("COV=<digits>")`; when the pattern is
/// found, the code is instrumented and must not be instrumented again.
pub fn already_instrumented(code: &[u8]) -> (r: bool)
    ensures
        r == spec_already_instrumented(code@),
{
    let ghost s = code@;
    let mut i: usize = 0;
    while i < code.len()
        invariant
            0 <= i <= s.len(),
            s == code@,
            forall|p: int| 0 <= p < i ==> !beacon_match_at(s, p),
        decreases s.len() - i,
    {
        if beacon_match_at_exec(code, i) {
            return true;
        }
        i = i + 1;
    }
    proof {
        if spec_already_instrumented(s) {
            let p = choose|p: int| beacon_match_at(s, p);
            assert(p + 30 <= s.len());
            assert(0 <= p < s.len());
            assert(false);
        }
    }
    false
}

/// The suffix `.wasm` as characters.
pub open spec fn wasm_suffix() -> Seq<char> {
    seq!['.', 'w', 'a', 's', 'm']
}

/// The suffix `.json` as characters.
pub open spec fn json_suffix() -> Seq<char> {
    seq!['.', 'j', 's', 'o', 'n']
}

/// Whether a file name names a WASM artifact.
pub open spec fn is_wasm_name(s: Seq<char>) -> bool {
    s.len() >= 5 && s.subrange(s.len() - 5, s.len() as int) == wasm_suffix()
}

/// The first entry naming a WASM artifact, scanning from `i`.
pub open spec fn find_wasm_from(es: Seq<String>, i: int) -> Option<int>
    decreases es.len() - i,
{
    if i < 0 || i >= es.len() {
        None
    } else if is_wasm_name(es[i]@) {
        Some(i)
    } else {
        find_wasm_from(es, i + 1)
    }
}

fn is_wasm_entry(e: &String) -> (r: bool)
    ensures
        r == is_wasm_name(e@),
{
    let n = e.as_str().unicode_len();
    if n < 5 {
        return false;
    }
    let r = e.as_str().get_char(n - 5) == '.' && e.as_str().get_char(n - 4) == 'w' && e.as_str()
        .get_char(n - 3) == 'a' && e.as_str().get_char(n - 2) == 's' && e.as_str().get_char(n - 1)
        == 'm';
    proof {
        let s = e@;
        if r {
            assert(s.subrange(s.len() - 5, s.len() as int) =~= wasm_suffix());
        } else {
            if s.subrange(s.len() - 5, s.len() as int) == wasm_suffix() {
                assert(forall|k: int|
                    0 <= k < 5 ==> s.subrange(s.len() - 5, s.len() as int)[k] == wasm_suffix()[k]);
            }
        }
    }
    r
}

impl InstrumenterEngine {
    /// Picks the built artifacts among the file names found under the
    /// contract's `target/ink` directory: the first `.wasm` entry, and
    /// the metadata path derived from it by swapping the suffix for
    /// `.json`. Fails exactly when no entry names a WASM artifact.
    pub fn find(&self, entries: &Vec<String>) -> (r: Result<InkFilesPath, String>)
        ensures
            match find_wasm_from(entries@, 0) {
                Some(i) => r matches Ok(p) && p.wasm_path@ == entries@[i]@ && p.specs_path@
                    == entries@[i]@.subrange(0, entries@[i]@.len() - 5) + json_suffix(),
                None => r is Err,
            },
    {
        let mut i: usize = 0;
        while i < entries.len()
            invariant
                0 <= i <= entries@.len(),
                find_wasm_from(entries@, 0) == find_wasm_from(entries@, i as int),
            decreases entries@.len() - i,
        {
            if is_wasm_entry(&entries[i]) {
                let e = &entries[i];
                let n = e.as_str().unicode_len();
                let stem = e.as_str().substring_char(0, n - 5);
                let mut specs_path = String::from_str(stem);
                specs_path.append(".json");
                proof {
                    reveal_strlit(".json");
                    assert(".json"@ =~= json_suffix());
                }
                let wasm_path = String::from_str(e.as_str());
                return Ok(InkFilesPath { wasm_path, specs_path });
            }
            i = i + 1;
        }
        Err(String::from_str("no WASM artifact found; compile the contract into target/ink first"))
    }
}

/// The directory-name prefix of forked instrumented contracts.
pub open spec fn ink_fuzzed_prefix() -> Seq<char> {
    seq!['i', 'n', 'k', '_', 'f', 'u', 'z', 'z', 'e', 'd', '_']
}

/// Whether a directory name was produced by forking.
pub open spec fn is_instrumented_dir_name(s: Seq<char>) -> bool {
    s.len() >= 11 && s.subrange(0, 11) == ink_fuzzed_prefix()
}

/// The entry names that the cleaner removes, in order.
pub open spec fn dirs_to_remove_spec(es: Seq<String>) -> Seq<Seq<char>>
    decreases es.len(),
{
    if es.len() == 0 {
        Seq::empty()
    } else {
        dirs_to_remove_spec(es.drop_last()) + if is_instrumented_dir_name(es.last()@) {
            seq![es.last()@]
        } else {
            Seq::empty()
        }
    }
}

/// The names as character sequences.
pub open spec fn strings_view(es: Seq<String>) -> Seq<Seq<char>> {
    es.map_values(|e: String| e@)
}

fn is_instrumented_dir(e: &String) -> (r: bool)
    ensures
        r == is_instrumented_dir_name(e@),
{
    let n = e.as_str().unicode_len();
    if n < 11 {
        return false;
    }
    let a = e.as_str();
    let r = a.get_char(0) == 'i' && a.get_char(1) == 'n' && a.get_char(2) == 'k' && a.get_char(3)
        == '_' && a.get_char(4) == 'f' && a.get_char(5) == 'u' && a.get_char(6) == 'z'
        && a.get_char(7) == 'z' && a.get_char(8) == 'e' && a.get_char(9) == 'd' && a.get_char(10)
        == '_';
    proof {
        let s = e@;
        if r {
            assert(s.subrange(0, 11) =~= ink_fuzzed_prefix());
        } else {
            if s.subrange(0, 11) == ink_fuzzed_prefix() {
                assert(forall|k: int|
                    0 <= k < 11 ==> s.subrange(0, 11)[k] == ink_fuzzed_prefix()[k]);
            }
        }
    }
    r
}

/// Selects, among the entries of the temporary root, the forked
/// instrumented contract directories that `clean` removes.
pub fn get_dirs_to_remove(entries: &Vec<String>) -> (r: Vec<String>)
    ensures
        strings_view(r@) == dirs_to_remove_spec(entries@),
{
    let mut r: Vec<String> = Vec::new();
    let mut i: usize = 0;
    while i < entries.len()
        invariant
            0 <= i <= entries@.len(),
            strings_view(r@) =~= dirs_to_remove_spec(entries@.take(i as int)),
        decreases entries@.len() - i,
    {
        proof {
            assert(entries@.take(i + 1).drop_last() =~= entries@.take(i as int));
            assert(entries@.take(i + 1).last() == entries@[i as int]);
        }
        if is_instrumented_dir(&entries[i]) {
            let e = String::from_str(entries[i].as_str());
            proof {
                assert(strings_view(r@.push(e)) =~= strings_view(r@).push(e@));
            }
            r.push(e);
        }
        i = i + 1;
    }
    proof {
        assert(entries@.take(entries@.len() as int) =~= entries@);
    }
    r
}

/// A character the fork suffix may hold.
pub open spec fn is_alnum_char(c: char) -> bool {
    (48 <= c as u32 <= 57) || (65 <= c as u32 <= 90) || (97 <= c as u32 <= 122)
}

/// Relies on rand's `Alphanumeric` distribution sampled through
/// `thread_rng`: every sampled character is one of `0-9`, `A-Z`, `a-z`;
/// taking five yields exactly five. Nothing else can be promised of a
/// random value.
#[verifier::external_body]
fn alphanumeric_suffix() -> (s: String)
    ensures
        s@.len() == 5,
        forall|i: int| 0 <= i < 5 ==> is_alnum_char(#[trigger] s@[i]),
{
    rand::thread_rng().sample_iter(&rand::distributions::Alphanumeric).take(5).map(
        char::from,
    ).collect()
}

/// A fresh directory name for one fork of the contract source tree: the
/// fixed prefix under the temporary root, then five unpredictable
/// alphanumeric characters.
pub fn fork_dir_name() -> (r: String)
    ensures
        r@.len() == 21,
        r@.subrange(0, 16) == "/tmp/ink_fuzzed_"@,
        forall|i: int| 16 <= i < 21 ==> is_alnum_char(#[trigger] r@[i]),
{
    let suffix = alphanumeric_suffix();
    let mut r = String::from_str("/tmp/ink_fuzzed_");
    r.append(suffix.as_str());
    proof {
        reveal_strlit("/tmp/ink_fuzzed_");
        assert(r@.subrange(0, 16) =~= "/tmp/ink_fuzzed_"@);
    }
    r
}

} // verus!
