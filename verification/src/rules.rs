//! The pattern matcher: five fixed extraction rules over lines of bytes.
//!
//! Each rule plays the role of a small regular expression with one capture
//! group. A rule is matched at the leftmost position of a line where it
//! fits, and the capture is the sub-run of bytes that holds the value of
//! interest. The spec functions here pin down the exact capture for every
//! input; the executable scanner is proved against them.

use vstd::prelude::*;
use vstd::slice::slice_subrange;
use vstd::slice::slice_to_vec;

verus! {

/// The five process-wide extraction rules.
#[derive(Clone, Copy, PartialEq, Eq, Structural)]
pub enum Rule {
    /// `cpu MHz<spaces>:<spaces><digits>.<digit>` — captures the digits
    /// before the decimal point.
    CpuMhz,
    /// `MemTotal:<spaces><digits>` — captures the digits.
    MemTotal,
    /// `MemAvailable:<spaces><digits>` — captures the digits.
    MemAvailable,
    /// `<spaces><digits>` — captures the first run of digits in the line.
    LeadingNumber,
    /// Three space-separated runs of digits and dots — captures all three
    /// as one token.
    LoadAverage,
}

/// Byte classes the rules are built from.
#[derive(Clone, Copy, PartialEq, Eq, Structural)]
pub enum Class {
    /// ASCII whitespace: space, tab, line feed, vertical tab, form feed,
    /// carriage return.
    Space,
    /// ASCII decimal digit.
    Digit,
    /// ASCII decimal digit or a dot.
    NumDot,
}

pub open spec fn in_class(c: Class, b: u8) -> bool {
    match c {
        Class::Space => b == 32 || (9 <= b && b <= 13),
        Class::Digit => 48 <= b && b <= 57,
        Class::NumDot => (48 <= b && b <= 57) || b == 46,
    }
}

/// End of the maximal run of bytes of class `c` that starts at `i`.
pub open spec fn run_end(s: Seq<u8>, i: int, c: Class) -> int
    decreases s.len() - i
    when 0 <= i <= s.len()
{
    if i < s.len() && in_class(c, s[i]) {
        run_end(s, i + 1, c)
    } else {
        i
    }
}

pub proof fn lemma_run_end(s: Seq<u8>, i: int, c: Class)
    requires
        0 <= i <= s.len(),
    ensures
        i <= run_end(s, i, c) <= s.len(),
        forall|j: int| i <= j < run_end(s, i, c) ==> in_class(c, s[j]),
        run_end(s, i, c) < s.len() ==> !in_class(c, s[run_end(s, i, c)]),
    decreases s.len() - i,
{
    if i < s.len() && in_class(c, s[i]) {
        lemma_run_end(s, i + 1, c);
    }
}

fn is_in_class(c: Class, b: u8) -> (r: bool)
    ensures
        r == in_class(c, b),
{
    match c {
        Class::Space => b == 32 || (9 <= b && b <= 13),
        Class::Digit => 48 <= b && b <= 57,
        Class::NumDot => (48 <= b && b <= 57) || b == 46,
    }
}

/// Scan forward from `i` over bytes of class `c`; returns the end of the
/// maximal run.
pub fn scan_run(s: &[u8], i: usize, c: Class) -> (r: usize)
    requires
        i <= s@.len(),
    ensures
        r == run_end(s@, i as int, c),
        i <= r <= s@.len(),
{
    proof {
        lemma_run_end(s@, i as int, c);
    }
    let mut j: usize = i;
    loop
        invariant
            i <= j <= s@.len(),
            run_end(s@, i as int, c) == run_end(s@, j as int, c),
        decreases s@.len() - j,
    {
        if j < s.len() && is_in_class(c, s[j]) {
            j = j + 1;
        } else {
            proof {
                lemma_run_end(s@, j as int, c);
            }
            return j;
        }
    }
}

/// The fixed byte text `cpu MHz`.
pub open spec fn cpu_mhz_lit() -> Seq<u8> {
    seq![99u8, 112u8, 117u8, 32u8, 77u8, 72u8, 122u8]
}

/// The fixed byte text `MemTotal:`.
pub open spec fn mem_total_lit() -> Seq<u8> {
    seq![77u8, 101u8, 109u8, 84u8, 111u8, 116u8, 97u8, 108u8, 58u8]
}

/// The fixed byte text `MemAvailable:`.
pub open spec fn mem_available_lit() -> Seq<u8> {
    seq![77u8, 101u8, 109u8, 65u8, 118u8, 97u8, 105u8, 108u8, 97u8, 98u8, 108u8, 101u8, 58u8]
}

/// The literal `lit` occurs in `s` starting at position `i`.
pub open spec fn lit_at(s: Seq<u8>, i: int, lit: Seq<u8>) -> bool {
    &&& 0 <= i
    &&& i + lit.len() <= s.len()
    &&& forall|k: int| 0 <= k < lit.len() ==> s[i + k] == lit[k]
}

fn cpu_mhz_lit_vec() -> (r: Vec<u8>)
    ensures
        r@ == cpu_mhz_lit(),
{
    let mut v: Vec<u8> = Vec::new();
    v.push(99u8);
    v.push(112u8);
    v.push(117u8);
    v.push(32u8);
    v.push(77u8);
    v.push(72u8);
    v.push(122u8);
    proof {
        assert(v@ =~= cpu_mhz_lit());
    }
    v
}

fn mem_total_lit_vec() -> (r: Vec<u8>)
    ensures
        r@ == mem_total_lit(),
{
    let mut v: Vec<u8> = Vec::new();
    v.push(77u8);
    v.push(101u8);
    v.push(109u8);
    v.push(84u8);
    v.push(111u8);
    v.push(116u8);
    v.push(97u8);
    v.push(108u8);
    v.push(58u8);
    proof {
        assert(v@ =~= mem_total_lit());
    }
    v
}

fn mem_available_lit_vec() -> (r: Vec<u8>)
    ensures
        r@ == mem_available_lit(),
{
    let mut v: Vec<u8> = Vec::new();
    v.push(77u8);
    v.push(101u8);
    v.push(109u8);
    v.push(65u8);
    v.push(118u8);
    v.push(97u8);
    v.push(105u8);
    v.push(108u8);
    v.push(97u8);
    v.push(98u8);
    v.push(108u8);
    v.push(101u8);
    v.push(58u8);
    proof {
        assert(v@ =~= mem_available_lit());
    }
    v
}

/// A match of `rule` starting exactly at position `i` of `s`: `None` if no
/// match starts there, otherwise the half-open byte range of the capture.
///
/// Every quantifier in the five rules is greedy over a byte class that its
/// follow-set excludes, so a match is this single deterministic scan.
pub open spec fn match_at(rule: Rule, s: Seq<u8>, i: int) -> Option<(int, int)>
    recommends
        0 <= i <= s.len(),
{
    match rule {
        Rule::CpuMhz => {
            if !lit_at(s, i, cpu_mhz_lit()) {
                None
            } else {
                let j = run_end(s, i + 7, Class::Space);
                if !(j > i + 7 && j < s.len() && s[j] == 58) {
                    None
                } else {
                    let k = run_end(s, j + 1, Class::Space);
                    if !(k > j + 1) {
                        None
                    } else {
                        let d = run_end(s, k, Class::Digit);
                        if d > k && d < s.len() && s[d] == 46 && d + 1 < s.len()
                            && in_class(Class::Digit, s[d + 1]) {
                            Some((k, d))
                        } else {
                            None
                        }
                    }
                }
            }
        },
        Rule::MemTotal => {
            if !lit_at(s, i, mem_total_lit()) {
                None
            } else {
                let j = run_end(s, i + 9, Class::Space);
                if !(j > i + 9) {
                    None
                } else {
                    let d = run_end(s, j, Class::Digit);
                    if d > j {
                        Some((j, d))
                    } else {
                        None
                    }
                }
            }
        },
        Rule::MemAvailable => {
            if !lit_at(s, i, mem_available_lit()) {
                None
            } else {
                let j = run_end(s, i + 13, Class::Space);
                if !(j > i + 13) {
                    None
                } else {
                    let d = run_end(s, j, Class::Digit);
                    if d > j {
                        Some((j, d))
                    } else {
                        None
                    }
                }
            }
        },
        Rule::LeadingNumber => {
            let j = run_end(s, i, Class::Space);
            let d = run_end(s, j, Class::Digit);
            if d > j {
                Some((j, d))
            } else {
                None
            }
        },
        Rule::LoadAverage => {
            let a = run_end(s, i, Class::NumDot);
            if !(a > i && a < s.len() && s[a] == 32) {
                None
            } else {
                let b = run_end(s, a + 1, Class::NumDot);
                if !(b > a + 1 && b < s.len() && s[b] == 32) {
                    None
                } else {
                    let c = run_end(s, b + 1, Class::NumDot);
                    if c > b + 1 {
                        Some((i, c))
                    } else {
                        None
                    }
                }
            }
        },
    }
}

/// A capture of any rule is a well-formed, non-empty range of `s`.
pub proof fn lemma_match_at_bounds(rule: Rule, s: Seq<u8>, i: int)
    requires
        0 <= i <= s.len(),
        match_at(rule, s, i) is Some,
    ensures
        i <= match_at(rule, s, i)->Some_0.0 < match_at(rule, s, i)->Some_0.1 <= s.len(),
{
    match rule {
        Rule::CpuMhz => {
            let j = run_end(s, i + 7, Class::Space);
            lemma_run_end(s, i + 7, Class::Space);
            lemma_run_end(s, j + 1, Class::Space);
            let k = run_end(s, j + 1, Class::Space);
            lemma_run_end(s, k, Class::Digit);
        },
        Rule::MemTotal => {
            lemma_run_end(s, i + 9, Class::Space);
            let j = run_end(s, i + 9, Class::Space);
            lemma_run_end(s, j, Class::Digit);
        },
        Rule::MemAvailable => {
            lemma_run_end(s, i + 13, Class::Space);
            let j = run_end(s, i + 13, Class::Space);
            lemma_run_end(s, j, Class::Digit);
        },
        Rule::LeadingNumber => {
            lemma_run_end(s, i, Class::Space);
            let j = run_end(s, i, Class::Space);
            lemma_run_end(s, j, Class::Digit);
        },
        Rule::LoadAverage => {
            lemma_run_end(s, i, Class::NumDot);
            let a = run_end(s, i, Class::NumDot);
            lemma_run_end(s, a + 1, Class::NumDot);
            let b = run_end(s, a + 1, Class::NumDot);
            lemma_run_end(s, b + 1, Class::NumDot);
        },
    }
}

/// The leftmost match of `rule` in `s` at or after position `i`.
pub open spec fn search_from(rule: Rule, s: Seq<u8>, i: int) -> Option<(int, int)>
    decreases s.len() - i
    when 0 <= i <= s.len()
{
    if i >= s.len() {
        None
    } else {
        match match_at(rule, s, i) {
            Some(m) => Some(m),
            None => search_from(rule, s, i + 1),
        }
    }
}

/// What the pattern matcher yields on `s`: the capture of the leftmost
/// match of `rule`, if any.
pub open spec fn spec_capture(rule: Rule, s: Seq<u8>) -> Option<Seq<u8>> {
    match search_from(rule, s, 0) {
        Some(m) => Some(s.subrange(m.0, m.1)),
        None => None,
    }
}

/// If no match starts before `i`, the search from the start of `s` and the
/// search from `i` agree.
pub proof fn lemma_search_skip(rule: Rule, s: Seq<u8>, i: int)
    requires
        0 <= i <= s.len(),
        forall|k: int| 0 <= k < i ==> match_at(rule, s, k) is None,
    ensures
        search_from(rule, s, 0) == search_from(rule, s, i),
    decreases i,
{
    if i > 0 {
        lemma_search_skip(rule, s, i - 1);
    }
}

/// Does `lit` occur in `s` at position `i`?
fn match_lit(s: &[u8], i: usize, lit: &[u8]) -> (r: bool)
    requires
        i <= s@.len(),
    ensures
        r == lit_at(s@, i as int, lit@),
{
    let n: usize = s.len();
    if n - i < lit.len() {
        return false;
    }
    let mut k: usize = 0;
    while k < lit.len()
        invariant
            0 <= k <= lit@.len(),
            i + lit@.len() <= s@.len(),
            s@.len() == n,
            forall|m: int| 0 <= m < k ==> s@[i + m] == lit@[m],
        decreases lit@.len() - k,
    {
        if s[i + k] != lit[k] {
            return false;
        }
        k = k + 1;
    }
    true
}

/// Try to match `rule` at position `i` of `s`; on success returns the
/// capture's byte range.
fn try_match_at(rule: Rule, s: &[u8], i: usize) -> (r: Option<(usize, usize)>)
    requires
        i <= s@.len(),
    ensures
        match r {
            Some(m) => match_at(rule, s@, i as int) == Some((m.0 as int, m.1 as int)),
            None => match_at(rule, s@, i as int) is None,
        },
{
    let n: usize = s.len();
    match rule {
        Rule::CpuMhz => {
            let lit = cpu_mhz_lit_vec();
            proof {
                assert(cpu_mhz_lit().len() == 7);
            }
            if !match_lit(s, i, lit.as_slice()) {
                return None;
            }
            let j = scan_run(s, i + 7, Class::Space);
            if !(j > i + 7 && j < s.len() && s[j] == 58) {
                return None;
            }
            let k = scan_run(s, j + 1, Class::Space);
            if !(k > j + 1) {
                return None;
            }
            let d = scan_run(s, k, Class::Digit);
            if d > k && d < s.len() && s[d] == 46 && d + 1 < s.len()
                && is_in_class(Class::Digit, s[d + 1]) {
                Some((k, d))
            } else {
                None
            }
        },
        Rule::MemTotal => {
            let lit = mem_total_lit_vec();
            proof {
                assert(mem_total_lit().len() == 9);
            }
            if !match_lit(s, i, lit.as_slice()) {
                return None;
            }
            let j = scan_run(s, i + 9, Class::Space);
            if !(j > i + 9) {
                return None;
            }
            let d = scan_run(s, j, Class::Digit);
            if d > j {
                Some((j, d))
            } else {
                None
            }
        },
        Rule::MemAvailable => {
            let lit = mem_available_lit_vec();
            proof {
                assert(mem_available_lit().len() == 13);
            }
            if !match_lit(s, i, lit.as_slice()) {
                return None;
            }
            let j = scan_run(s, i + 13, Class::Space);
            if !(j > i + 13) {
                return None;
            }
            let d = scan_run(s, j, Class::Digit);
            if d > j {
                Some((j, d))
            } else {
                None
            }
        },
        Rule::LeadingNumber => {
            let j = scan_run(s, i, Class::Space);
            let d = scan_run(s, j, Class::Digit);
            if d > j {
                Some((j, d))
            } else {
                None
            }
        },
        Rule::LoadAverage => {
            let a = scan_run(s, i, Class::NumDot);
            if !(a > i && a < s.len() && s[a] == 32) {
                return None;
            }
            let b = scan_run(s, a + 1, Class::NumDot);
            if !(b > a + 1 && b < s.len() && s[b] == 32) {
                return None;
            }
            let c = scan_run(s, b + 1, Class::NumDot);
            if c > b + 1 {
                Some((i, c))
            } else {
                None
            }
        },
    }
}

/// The pattern matcher: the capture of the leftmost match of `rule` in
/// `text`, or `None` when the rule matches nowhere. A non-match is a skip
/// signal for the caller, not a failure.
pub fn capture(rule: Rule, text: &[u8]) -> (r: Option<Vec<u8>>)
    ensures
        match r {
            Some(v) => spec_capture(rule, text@) == Some(v@),
            None => spec_capture(rule, text@) is None,
        },
{
    let n: usize = text.len();
    let mut i: usize = 0;
    while i < n
        invariant
            0 <= i <= n,
            n == text@.len(),
            forall|k: int| 0 <= k < i ==> match_at(rule, text@, k) is None,
        decreases n - i,
    {
        match try_match_at(rule, text, i) {
            Some(m) => {
                proof {
                    lemma_search_skip(rule, text@, i as int);
                    lemma_match_at_bounds(rule, text@, i as int);
                }
                let piece: &[u8] = slice_subrange(text, m.0, m.1);
                return Some(slice_to_vec(piece));
            },
            None => {
                i = i + 1;
            },
        }
    }
    proof {
        lemma_search_skip(rule, text@, n as int);
    }
    None
}

} // verus!
