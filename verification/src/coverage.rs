//! The coverage tracker: beacon extraction from debug buffers, the growing
//! run-wide coverage set, and the stripping of beacons from human-readable
//! traces.
//!
//! A beacon is one debug line of the exact form `COV=<n>`, where `n` is the
//! source line that fired.

use vstd::prelude::*;

use crate::bytesutil::dec_digits;
use crate::bytesutil::parse_all_digits;
use crate::bytesutil::parse_digits_spec;

verus! {

/// The ASCII prefix `COV=`.
pub open spec fn cov_prefix() -> Seq<u8> {
    seq![67u8, 79u8, 86u8, 61u8]
}

/// The line number a single debug line carries, if it is a beacon line.
pub open spec fn cov_line_value(line: Seq<u8>) -> Option<u64> {
    if line.len() >= 4 && line.subrange(0, 4) == cov_prefix() {
        parse_digits_spec(line.skip(4))
    } else {
        None
    }
}

/// The bytes of one beacon line, without the terminating newline.
pub open spec fn cov_line_bytes(n: u64) -> Seq<u8> {
    cov_prefix() + dec_digits(n as nat)
}

/// Emitting then parsing round-trips: the beacon line written for `n`
/// reads back as exactly `n`, so the coverage the tracker reports is the
/// coverage the contract emitted.
pub proof fn lemma_beacon_round_trip(n: u64)
    ensures
        cov_line_value(cov_line_bytes(n)) == Some(n),
{
    let line = cov_line_bytes(n);
    crate::bytesutil::lemma_dec_digits_are_digits(n as nat);
    crate::bytesutil::lemma_dec_digits_value(n as nat);
    assert(line.subrange(0, 4) =~= cov_prefix());
    assert(line.skip(4) =~= dec_digits(n as nat));
}

/// The newline-separated lines of a debug buffer, split from `start` on.
pub open spec fn lines_from(s: Seq<u8>, start: int) -> Seq<Seq<u8>>
    decreases s.len() - start,
{
    if start < 0 || start > s.len() {
        Seq::empty()
    } else {
        match find_byte_from(s, 10u8, start) {
            None => seq![s.subrange(start, s.len() as int)],
            Some(j) => if start <= j && j < s.len() {
                seq![s.subrange(start, j)] + lines_from(s, j + 1)
            } else {
                seq![s.subrange(start, s.len() as int)]
            },
        }
    }
}

/// The first position at or after `i` where byte `b` occurs in `s`.
pub open spec fn find_byte_from(s: Seq<u8>, b: u8, i: int) -> Option<int>
    decreases s.len() - i,
{
    if i < 0 || i >= s.len() {
        None
    } else if s[i] == b {
        Some(i)
    } else {
        find_byte_from(s, b, i + 1)
    }
}

pub proof fn lemma_find_byte_from_bounds(s: Seq<u8>, b: u8, i: int)
    ensures
        find_byte_from(s, b, i) matches Some(j) ==> i <= j && j < s.len() && s[j] == b,
    decreases s.len() - i,
{
    if i < 0 || i >= s.len() {
    } else if s[i] == b {
    } else {
        lemma_find_byte_from_bounds(s, b, i + 1);
    }
}

/// The set of line numbers whose beacons stand in a list of lines.
pub open spec fn cov_values_of_lines(ls: Seq<Seq<u8>>) -> Set<u64>
    decreases ls.len(),
{
    if ls.len() == 0 {
        Set::empty()
    } else {
        (match cov_line_value(ls[0]) {
            Some(n) => set![n],
            None => Set::empty(),
        }) + cov_values_of_lines(ls.drop_first())
    }
}

/// The set of line numbers whose beacons stand in a debug buffer.
pub open spec fn cov_values(buf: Seq<u8>) -> Set<u64> {
    cov_values_of_lines(lines_from(buf, 0))
}

/// The set a duplicate-free vector holds.
pub open spec fn set_of(v: Seq<u64>) -> Set<u64> {
    v.to_set()
}

proof fn lemma_to_set_push(s: Seq<u64>, x: u64)
    ensures
        s.push(x).to_set() == s.to_set().insert(x),
{
    let p = s.push(x);
    assert forall|a: u64| p.to_set().contains(a) implies s.to_set().insert(x).contains(a) by {
        let i = choose|i: int| 0 <= i < p.len() && p[i] == a;
        if i < s.len() {
            assert(s[i] == a);
            assert(s.contains(a));
        }
    }
    assert forall|a: u64| s.to_set().insert(x).contains(a) implies p.to_set().contains(a) by {
        if a == x {
            assert(p[s.len() as int] == a);
            assert(p.contains(a));
        } else {
            let i = choose|i: int| 0 <= i < s.len() && s[i] == a;
            assert(p[i] == a);
            assert(p.contains(a));
        }
    }
    assert(p.to_set() =~= s.to_set().insert(x));
}

/// The per-input coverage accumulator: the line numbers seen so far, each
/// held once.
pub struct InputCoverage {
    seen: Vec<u64>,
}

/// The run-wide coverage set, growing monotonically across executions.
pub struct Coverage {
    seen: Vec<u64>,
}

fn vec_contains_u64(v: &Vec<u64>, x: u64) -> (r: bool)
    ensures
        r == v@.contains(x),
{
    let mut i: usize = 0;
    while i < v.len()
        invariant
            0 <= i <= v@.len(),
            forall|j: int| 0 <= j < i ==> v@[j] != x,
        decreases v@.len() - i,
    {
        if v[i] == x {
            return true;
        }
        i = i + 1;
    }
    false
}

impl InputCoverage {
    /// The line numbers this accumulator has seen.
    pub closed spec fn view(&self) -> Set<u64> {
        set_of(self.seen@)
    }

    pub fn new() -> (r: InputCoverage)
        ensures
            r@ == Set::<u64>::empty(),
    {
        let r = InputCoverage { seen: Vec::new() };
        proof {
            assert(r.seen@.to_set() =~= Set::<u64>::empty());
        }
        r
    }

    /// The seen line numbers, one entry each, for reporting.
    pub fn lines(&self) -> (r: &Vec<u64>)
        ensures
            set_of(r@) == self@,
    {
        &self.seen
    }

    fn insert(&mut self, n: u64)
        ensures
            final(self)@ == old(self)@.insert(n),
    {
        if !vec_contains_u64(&self.seen, n) {
            self.seen.push(n);
            proof {
                assert(self.seen@ =~= old(self).seen@.push(n));
                lemma_to_set_push(old(self).seen@, n);
            }
        } else {
            proof {
                assert(old(self).seen@.contains(n));
                assert(old(self).seen@.to_set().contains(n));
                assert(self.seen@.to_set() =~= old(self).seen@.to_set().insert(n));
            }
        }
    }

    /// Parses a debug buffer and merges every beacon line number it holds
    /// into the accumulator.
    pub fn add_cov(&mut self, debug_message: &Vec<u8>)
        ensures
            final(self)@ == old(self)@ + cov_values(debug_message@),
    {
        let ghost ls = lines_from(debug_message@, 0);
        self.add_cov_from(debug_message, 0);
        proof {
            assert(old(self)@ + cov_values_of_lines(ls) == old(self)@ + cov_values(
                debug_message@,
            ));
        }
    }

    fn add_cov_from(&mut self, debug_message: &Vec<u8>, start: usize)
        requires
            start <= debug_message@.len(),
        ensures
            final(self)@ == old(self)@ + cov_values_of_lines(
                lines_from(debug_message@, start as int),
            ),
        decreases debug_message@.len() - start,
    {
        proof {
            lemma_find_byte_from_bounds(debug_message@, 10u8, start as int);
        }
        let ghost ls = lines_from(debug_message@, start as int);
        let ghost vals = cov_values_of_lines(ls);
        match find_newline(debug_message, start) {
            None => {
                proof {
                    reveal_with_fuel(cov_values_of_lines, 2);
                    assert(ls =~= seq![
                        debug_message@.subrange(start as int, debug_message@.len() as int),
                    ]);
                    assert(ls.drop_first() =~= Seq::<Seq<u8>>::empty());
                }
                match parse_cov_line(debug_message, start, debug_message.len()) {
                    Some(n) => {
                        self.insert(n);
                        proof {
                            assert(vals =~= set![n]);
                            assert(old(self)@.insert(n) =~= old(self)@ + vals);
                        }
                    },
                    None => {
                        proof {
                            assert(vals =~= Set::<u64>::empty());
                            assert(self@ =~= old(self)@ + vals);
                        }
                    },
                }
            },
            Some(j) => {
                let dlen = debug_message.len();
                proof {
                    assert(j < dlen);
                    assert(ls == seq![debug_message@.subrange(start as int, j as int)]
                        + lines_from(debug_message@, j + 1));
                    assert(ls[0] == debug_message@.subrange(start as int, j as int));
                    assert(ls.drop_first() =~= lines_from(debug_message@, j + 1));
                }
                let ghost tail = cov_values_of_lines(lines_from(debug_message@, j + 1));
                match parse_cov_line(debug_message, start, j) {
                    Some(n) => {
                        self.insert(n);
                        self.add_cov_from(debug_message, j + 1);
                        proof {
                            assert(vals =~= set![n] + tail);
                            assert((old(self)@.insert(n)) + tail =~= old(self)@ + vals);
                        }
                    },
                    None => {
                        self.add_cov_from(debug_message, j + 1);
                        proof {
                            assert(vals =~= tail);
                        }
                    },
                }
            },
        }
    }
}

/// The first newline at or after `from`.
fn find_newline(buf: &Vec<u8>, from: usize) -> (r: Option<usize>)
    requires
        from <= buf@.len(),
    ensures
        match r {
            Some(j) => find_byte_from(buf@, 10u8, from as int) == Some(j as int),
            None => find_byte_from(buf@, 10u8, from as int) is None,
        },
{
    let mut i: usize = from;
    while i < buf.len()
        invariant
            from <= i <= buf@.len(),
            find_byte_from(buf@, 10u8, from as int) == find_byte_from(buf@, 10u8, i as int),
        decreases buf@.len() - i,
    {
        if buf[i] == 10 {
            return Some(i);
        }
        i = i + 1;
    }
    None
}

/// Reads the line `buf[from..to]` as a beacon line, if it is one.
fn parse_cov_line(buf: &Vec<u8>, from: usize, to: usize) -> (r: Option<u64>)
    requires
        from <= to <= buf@.len(),
    ensures
        r == cov_line_value(buf@.subrange(from as int, to as int)),
{
    let ghost line = buf@.subrange(from as int, to as int);
    if to - from < 4 {
        return None;
    }
    let is_cov = buf[from] == 67 && buf[from + 1] == 79 && buf[from + 2] == 86 && buf[from + 3]
        == 61;
    proof {
        if is_cov {
            assert(line.subrange(0, 4) =~= cov_prefix());
        } else {
            if line.subrange(0, 4) == cov_prefix() {
                assert(forall|k: int| 0 <= k < 4 ==> line.subrange(0, 4)[k] == cov_prefix()[k]);
            }
        }
    }
    if !is_cov {
        return None;
    }
    let digits = crate::bytesutil::copy_range(buf.as_slice(), from + 4, to);
    let r = parse_all_digits(digits.as_slice(), 0);
    proof {
        assert(digits@.skip(0) =~= digits@);
        assert(digits@ =~= line.skip(4));
    }
    r
}

impl Coverage {
    /// The line numbers the whole run has seen so far.
    pub closed spec fn view(&self) -> Set<u64> {
        set_of(self.seen@)
    }

    pub fn new() -> (r: Coverage)
        ensures
            r@ == Set::<u64>::empty(),
    {
        let r = Coverage { seen: Vec::new() };
        proof {
            assert(r.seen@.to_set() =~= Set::<u64>::empty());
        }
        r
    }

    /// The seen line numbers, one entry each, in first-seen order: what is
    /// appended to the coverage file and re-emitted to the driver.
    pub fn lines(&self) -> (r: &Vec<u64>)
        ensures
            set_of(r@) == self@,
    {
        &self.seen
    }

    /// Merges one input's coverage into the run-wide set. The set only
    /// grows: afterwards it holds every line it held before, and exactly
    /// the new input's lines besides.
    pub fn merge(&mut self, input: &InputCoverage)
        ensures
            final(self)@ == old(self)@ + input@,
            old(self)@.subset_of(final(self)@),
    {
        let lines = input.lines();
        let mut i: usize = 0;
        while i < lines.len()
            invariant
                0 <= i <= lines@.len(),
                set_of(lines@) == input@,
                set_of(self.seen@) == old(self)@ + set_of(lines@.take(i as int)),
            decreases lines@.len() - i,
        {
            let n = lines[i];
            let ghost pre = self.seen@;
            proof {
                assert(lines@.take(i + 1) =~= lines@.take(i as int).push(lines@[i as int]));
                lemma_to_set_push(lines@.take(i as int), n);
            }
            if !vec_contains_u64(&self.seen, n) {
                self.seen.push(n);
                proof {
                    lemma_to_set_push(pre, n);
                    assert(pre.to_set().insert(n) =~= old(self)@ + set_of(lines@.take(i + 1)));
                }
            } else {
                proof {
                    assert(pre.contains(n));
                    assert(pre.to_set().contains(n));
                    assert(pre.to_set() =~= old(self)@ + set_of(lines@.take(i + 1)));
                }
            }
            i = i + 1;
        }
        proof {
            assert(lines@.take(lines@.len() as int) =~= lines@);
            assert(old(self)@ + input@ =~= old(self)@ + input@);
        }
    }
}

/// What stripping beacons leaves of a line list: the lines that are not
/// beacon lines.
pub open spec fn non_cov_lines(ls: Seq<Seq<u8>>) -> Seq<Seq<u8>>
    decreases ls.len(),
{
    if ls.len() == 0 {
        Seq::empty()
    } else {
        (match cov_line_value(ls[0]) {
            Some(n) => Seq::empty(),
            None => seq![ls[0]],
        }) + non_cov_lines(ls.drop_first())
    }
}

/// The lines joined back with newlines.
pub open spec fn join_lines(ls: Seq<Seq<u8>>) -> Seq<u8>
    decreases ls.len(),
{
    if ls.len() == 0 {
        Seq::empty()
    } else if ls.len() == 1 {
        ls[0]
    } else {
        ls[0] + seq![10u8] + join_lines(ls.drop_first())
    }
}

/// Strips every beacon line from a debug buffer, leaving the
/// human-readable trace.
pub fn remove_cov_from_trace(buf: &Vec<u8>) -> (r: Vec<u8>)
    ensures
        r@ == join_lines(non_cov_lines(lines_from(buf@, 0))),
{
    let mut kept: Vec<Vec<u8>> = Vec::new();
    collect_non_cov(buf, 0, &mut kept);
    proof {
        assert(kept@.map_values(|l: Vec<u8>| l@) =~= non_cov_lines(lines_from(buf@, 0)));
    }
    let mut out: Vec<u8> = Vec::new();
    let mut i: usize = 0;
    let ghost lines = kept@.map_values(|l: Vec<u8>| l@);
    while i < kept.len()
        invariant
            0 <= i <= kept@.len(),
            lines == kept@.map_values(|l: Vec<u8>| l@),
            i == 0 ==> out@ =~= Seq::<u8>::empty(),
            i > 0 ==> out@ =~= join_lines(lines.take(i as int)),
        decreases kept@.len() - i,
    {
        if i > 0 {
            out.push(10);
        }
        let mut k: usize = 0;
        let line = &kept[i];
        let ghost mid = out@;
        while k < line.len()
            invariant
                0 <= k <= line@.len(),
                out@ =~= mid + line@.take(k as int),
            decreases line@.len() - k,
        {
            out.push(line[k]);
            proof {
                assert(line@.take(k + 1) =~= line@.take(k as int).push(line@[k as int]));
            }
            k = k + 1;
        }
        proof {
            assert(line@.take(line@.len() as int) =~= line@);
            lemma_join_lines_take(lines, i as int);
        }
        i = i + 1;
    }
    proof {
        assert(lines.take(lines.len() as int) =~= lines);
        if kept@.len() == 0 {
            assert(out@ =~= join_lines(lines));
        }
    }
    out
}

/// Appending one more line to a join adds a newline and the line, except
/// for the first.
proof fn lemma_join_lines_take(ls: Seq<Seq<u8>>, i: int)
    requires
        0 <= i < ls.len(),
    ensures
        i == 0 ==> join_lines(ls.take(1)) == ls[0],
        i > 0 ==> join_lines(ls.take(i + 1)) == join_lines(ls.take(i)) + seq![10u8] + ls[i],
    decreases i,
{
    if i == 0 {
        assert(join_lines(ls.take(1)) == ls.take(1)[0]);
    } else {
        lemma_join_lines_take(ls.drop_first(), i - 1);
        let t1 = ls.take(i + 1);
        let t0 = ls.take(i);
        assert(t1.drop_first() =~= ls.drop_first().take(i));
        assert(t0.drop_first() =~= ls.drop_first().take(i - 1));
        assert(t1[0] == ls[0]);
        assert(t0[0] == ls[0]);
        if i == 1 {
            assert(join_lines(t1) == t1[0] + seq![10u8] + join_lines(t1.drop_first()));
            assert(join_lines(ls.drop_first().take(1)) == ls.drop_first()[0]);
            assert(join_lines(t0) == t0[0]);
            assert(ls.drop_first()[0] == ls[1]);
            assert(join_lines(t1) =~= join_lines(t0) + seq![10u8] + ls[1]);
        } else {
            assert(join_lines(t1) == t1[0] + seq![10u8] + join_lines(t1.drop_first()));
            assert(join_lines(t0) == t0[0] + seq![10u8] + join_lines(t0.drop_first()));
            assert(ls.drop_first()[i - 1] == ls[i]);
            assert(join_lines(t1) =~= join_lines(t0) + seq![10u8] + ls[i]);
        }
    }
}

/// Appends to `kept` every non-beacon line of `buf[start..]`.
fn collect_non_cov(buf: &Vec<u8>, start: usize, kept: &mut Vec<Vec<u8>>)
    requires
        start <= buf@.len(),
    ensures
        final(kept)@.map_values(|l: Vec<u8>| l@) == old(kept)@.map_values(|l: Vec<u8>| l@)
            + non_cov_lines(lines_from(buf@, start as int)),
    decreases buf@.len() - start,
{
    proof {
        lemma_find_byte_from_bounds(buf@, 10u8, start as int);
    }
    let ghost ls = lines_from(buf@, start as int);
    let ghost want = non_cov_lines(ls);
    match find_newline(buf, start) {
        None => {
            proof {
                reveal_with_fuel(non_cov_lines, 2);
                assert(ls =~= seq![buf@.subrange(start as int, buf@.len() as int)]);
                assert(ls.drop_first() =~= Seq::<Seq<u8>>::empty());
            }
            match parse_cov_line(buf, start, buf.len()) {
                Some(_) => {
                    proof {
                        assert(want =~= Seq::<Seq<u8>>::empty());
                        assert(kept@.map_values(|l: Vec<u8>| l@) =~= kept@.map_values(
                            |l: Vec<u8>| l@,
                        ) + want);
                    }
                },
                None => {
                    let line = crate::bytesutil::copy_range(buf.as_slice(), start, buf.len());
                    proof {
                        assert(want =~= seq![ls[0]]);
                        assert(kept@.push(line).map_values(|l: Vec<u8>| l@) =~= kept@.map_values(
                            |l: Vec<u8>| l@,
                        ) + want);
                    }
                    kept.push(line);
                },
            }
        },
        Some(j) => {
            let blen = buf.len();
            proof {
                assert(j < blen);
                assert(ls == seq![buf@.subrange(start as int, j as int)] + lines_from(
                    buf@,
                    j + 1,
                ));
                assert(ls[0] == buf@.subrange(start as int, j as int));
                assert(ls.drop_first() =~= lines_from(buf@, j + 1));
            }
            let ghost tail = non_cov_lines(lines_from(buf@, j + 1));
            match parse_cov_line(buf, start, j) {
                Some(_) => {
                    proof {
                        assert(want =~= tail);
                    }
                    collect_non_cov(buf, j + 1, kept);
                },
                None => {
                    let line = crate::bytesutil::copy_range(buf.as_slice(), start, j);
                    let ghost before = kept@.map_values(|l: Vec<u8>| l@);
                    proof {
                        assert(want =~= seq![ls[0]] + tail);
                        assert(kept@.push(line).map_values(|l: Vec<u8>| l@) =~= before
                            + seq![ls[0]]);
                    }
                    kept.push(line);
                    collect_non_cov(buf, j + 1, kept);
                    proof {
                        assert((before + seq![ls[0]]) + tail =~= before + want);
                    }
                },
            }
        },
    }
}

} // verus!
