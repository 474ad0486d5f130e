//! The averaging extractor.
//!
//! A text blob is split into lines; the pattern matcher is applied to each
//! line; every capture that parses as a number joins a running sum; the
//! result is the arithmetic mean of the parsed values. When no line
//! yields a value the extractor reports "no data" (`None`) instead of an
//! undefined division-by-zero artifact.

use vstd::prelude::*;
use vstd::slice::slice_subrange;
use vstd::slice::slice_to_vec;
use crate::rules::Rule;
use crate::rules::capture;
use crate::rules::spec_capture;

verus! {

/// First position at or after `i` where byte `b` occurs in `s`, or the
/// length of `s` when it does not occur.
pub open spec fn find_byte(s: Seq<u8>, i: int, b: u8) -> int
    decreases s.len() - i
    when 0 <= i <= s.len()
{
    if i < s.len() && s[i] != b {
        find_byte(s, i + 1, b)
    } else {
        i
    }
}

pub proof fn lemma_find_byte(s: Seq<u8>, i: int, b: u8)
    requires
        0 <= i <= s.len(),
    ensures
        i <= find_byte(s, i, b) <= s.len(),
        forall|j: int| i <= j < find_byte(s, i, b) ==> s[j] != b,
        find_byte(s, i, b) < s.len() ==> s[find_byte(s, i, b)] == b,
    decreases s.len() - i,
{
    if i < s.len() && s[i] != b {
        lemma_find_byte(s, i + 1, b);
    }
}

/// Scan forward from `i` to the next occurrence of `b`.
pub fn scan_to_byte(s: &[u8], i: usize, b: u8) -> (r: usize)
    requires
        i <= s@.len(),
    ensures
        r == find_byte(s@, i as int, b),
        i <= r <= s@.len(),
{
    proof {
        lemma_find_byte(s@, i as int, b);
    }
    let mut j: usize = i;
    loop
        invariant
            i <= j <= s@.len(),
            find_byte(s@, i as int, b) == find_byte(s@, j as int, b),
        decreases s@.len() - j,
    {
        if j < s.len() && s[j] != b {
            j = j + 1;
        } else {
            proof {
                lemma_find_byte(s@, j as int, b);
            }
            return j;
        }
    }
}

/// A line with a trailing carriage return loses it, as Rust's line
/// iterator drops one before handing the line out.
pub open spec fn strip_cr(p: Seq<u8>) -> Seq<u8> {
    if p.len() > 0 && p[p.len() - 1] == 13 {
        p.drop_last()
    } else {
        p
    }
}

/// The lines of `s` from position `i` on: pieces separated by line feeds,
/// each with a trailing carriage return removed, and no final empty piece
/// after a trailing line feed.
pub open spec fn lines_from(s: Seq<u8>, i: int) -> Seq<Seq<u8>>
    decreases s.len() - i
    when 0 <= i <= s.len()
    via lines_from_decreases
{
    if i >= s.len() {
        Seq::empty()
    } else {
        let e = find_byte(s, i, 10);
        if e >= s.len() {
            seq![strip_cr(s.subrange(i, s.len() as int))]
        } else {
            seq![strip_cr(s.subrange(i, e))] + lines_from(s, e + 1)
        }
    }
}

#[via_fn]
proof fn lines_from_decreases(s: Seq<u8>, i: int) {
    lemma_find_byte(s, i, 10);
}

/// How a text blob divides into lines.
pub open spec fn spec_lines(s: Seq<u8>) -> Seq<Seq<u8>> {
    lines_from(s, 0)
}

/// Split a blob of bytes into its lines.
pub fn split_lines(s: &[u8]) -> (r: Vec<Vec<u8>>)
    ensures
        r.deep_view() == spec_lines(s@),
{
    let n: usize = s.len();
    let mut r: Vec<Vec<u8>> = Vec::new();
    let mut pos: usize = 0;
    proof {
        assert(r.deep_view() + lines_from(s@, 0) =~~= lines_from(s@, 0));
    }
    while pos < n
        invariant
            0 <= pos <= n,
            n == s@.len(),
            spec_lines(s@) == r.deep_view() + lines_from(s@, pos as int),
        decreases n - pos,
    {
        let e = scan_to_byte(s, pos, 10);
        let end: usize = if e > pos && s[e - 1] == 13 {
            e - 1
        } else {
            e
        };
        let piece = slice_to_vec(slice_subrange(s, pos, end));
        proof {
            let whole = if e == n {
                s@.subrange(pos as int, n as int)
            } else {
                s@.subrange(pos as int, e as int)
            };
            if e > pos && s@[e - 1] == 13 {
                assert(whole.drop_last() =~= s@.subrange(pos as int, end as int));
            }
            assert(piece@ == strip_cr(whole));
        }
        let ghost r_before = r.deep_view();
        let ghost piece_view = piece@;
        r.push(piece);
        if e == n {
            pos = n;
        } else {
            pos = e + 1;
        }
        proof {
            assert(r.deep_view() =~~= r_before.push(piece_view));
            assert(spec_lines(s@) =~~= r.deep_view() + lines_from(s@, pos as int));
        }
    }
    proof {
        assert(lines_from(s@, n as int) =~= Seq::<Seq<u8>>::empty());
        assert(r.deep_view() + lines_from(s@, n as int) =~~= r.deep_view());
    }
    r
}

/// The comma-separated fields of `s` from position `i` on. Every comma
/// separates, so empty fields are kept, and a text without commas is one
/// single field (possibly empty).
pub open spec fn fields_from(s: Seq<u8>, i: int) -> Seq<Seq<u8>>
    decreases s.len() - i
    when 0 <= i <= s.len()
    via fields_from_decreases
{
    let e = find_byte(s, i, 44);
    if e >= s.len() {
        seq![s.subrange(i, s.len() as int)]
    } else {
        seq![s.subrange(i, e)] + fields_from(s, e + 1)
    }
}

#[via_fn]
proof fn fields_from_decreases(s: Seq<u8>, i: int) {
    lemma_find_byte(s, i, 44);
}

/// How a data row divides into comma-separated fields.
pub open spec fn spec_fields(s: Seq<u8>) -> Seq<Seq<u8>> {
    fields_from(s, 0)
}

/// Split a line of bytes on every comma.
pub fn split_commas(s: &[u8]) -> (r: Vec<Vec<u8>>)
    ensures
        r.deep_view() == spec_fields(s@),
{
    let n: usize = s.len();
    let mut r: Vec<Vec<u8>> = Vec::new();
    let mut pos: usize = 0;
    proof {
        assert(r.deep_view() + fields_from(s@, 0) =~~= fields_from(s@, 0));
    }
    loop
        invariant
            0 <= pos <= n,
            n == s@.len(),
            spec_fields(s@) == r.deep_view() + fields_from(s@, pos as int),
        decreases n - pos,
    {
        let e = scan_to_byte(s, pos, 44);
        let piece = slice_to_vec(slice_subrange(s, pos, e));
        let ghost r_before = r.deep_view();
        let ghost piece_view = piece@;
        r.push(piece);
        proof {
            assert(r.deep_view() =~~= r_before.push(piece_view));
        }
        if e == n {
            proof {
                assert(spec_fields(s@) =~~= r.deep_view());
            }
            return r;
        } else {
            pos = e + 1;
            proof {
                assert(spec_fields(s@) =~~= r.deep_view() + fields_from(s@, pos as int));
            }
        }
    }
}

/// Every byte of `s` is an ASCII decimal digit.
pub open spec fn all_digits(s: Seq<u8>) -> bool {
    forall|i: int| 0 <= i < s.len() ==> 48 <= #[trigger] s[i] <= 57
}

/// The decimal value of a run of digit bytes.
pub open spec fn digits_val(s: Seq<u8>) -> int
    decreases s.len(),
{
    if s.len() == 0 {
        0
    } else {
        digits_val(s.drop_last()) * 10 + (s.last() - 48)
    }
}

pub proof fn lemma_digits_val_nonneg(s: Seq<u8>)
    requires
        all_digits(s),
    ensures
        digits_val(s) >= 0,
    decreases s.len(),
{
    if s.len() > 0 {
        assert(all_digits(s.drop_last()));
        lemma_digits_val_nonneg(s.drop_last());
    }
}

/// Extending a run of digits never lowers its value.
pub proof fn lemma_digits_val_prefix(s: Seq<u8>, i: int, j: int)
    requires
        all_digits(s),
        0 <= i <= j <= s.len(),
    ensures
        digits_val(s.subrange(0, j)) >= digits_val(s.subrange(0, i)),
    decreases j - i,
{
    if i < j {
        lemma_digits_val_prefix(s, i, j - 1);
        let p = s.subrange(0, j);
        assert(all_digits(p.drop_last())) by {
            assert(forall|k: int|
                0 <= k < p.drop_last().len() ==> #[trigger] p.drop_last()[k] == s[k]);
        }
        lemma_digits_val_nonneg(p.drop_last());
        assert(p.drop_last() =~= s.subrange(0, j - 1));
    }
}

/// What a capture means as a number: defined exactly when the capture is a
/// non-empty run of digits whose value fits the 32-bit range.
pub open spec fn spec_parse(s: Seq<u8>) -> Option<int> {
    if s.len() > 0 && all_digits(s) && digits_val(s) <= u32::MAX {
        Some(digits_val(s))
    } else {
        None
    }
}

/// Parse a run of digit bytes as a number. A capture that is empty, holds
/// a non-digit byte, or does not fit the 32-bit range parses to `None`.
pub fn parse_number(s: &[u8]) -> (r: Option<u32>)
    ensures
        match r {
            Some(v) => spec_parse(s@) == Some(v as int),
            None => spec_parse(s@) is None,
        },
{
    let n: usize = s.len();
    if n == 0 {
        return None;
    }
    let mut val: u64 = 0;
    let mut i: usize = 0;
    while i < n
        invariant
            0 <= i <= n,
            n == s@.len(),
            forall|k: int| 0 <= k < i ==> 48 <= #[trigger] s@[k] <= 57,
            val == digits_val(s@.subrange(0, i as int)),
            0 <= val <= u32::MAX,
        decreases n - i,
    {
        let b = s[i];
        if b < 48 || b > 57 {
            return None;
        }
        proof {
            assert(s@.subrange(0, i + 1).drop_last() =~= s@.subrange(0, i as int));
        }
        val = val * 10 + ((b - 48) as u64);
        i = i + 1;
        if val > 0xffff_ffff {
            proof {
                if all_digits(s@) {
                    lemma_digits_val_prefix(s@, i as int, n as int);
                    assert(s@.subrange(0, n as int) =~= s@);
                }
            }
            return None;
        }
    }
    proof {
        assert(s@.subrange(0, n as int) =~= s@);
    }
    Some(val as u32)
}

/// The value a single line contributes: the parse of its capture, if the
/// rule matches the line and the capture parses.
pub open spec fn spec_line_value(rule: Rule, line: Seq<u8>) -> Option<int> {
    match spec_capture(rule, line) {
        Some(c) => spec_parse(c),
        None => None,
    }
}

/// The values contributed by a sequence of lines, in line order.
pub open spec fn matched_values(rule: Rule, lines: Seq<Seq<u8>>) -> Seq<int>
    decreases lines.len(),
{
    if lines.len() == 0 {
        Seq::empty()
    } else {
        let init = matched_values(rule, lines.drop_last());
        match spec_line_value(rule, lines.last()) {
            Some(v) => init.push(v),
            None => init,
        }
    }
}

pub open spec fn seq_sum(vs: Seq<int>) -> int
    decreases vs.len(),
{
    if vs.len() == 0 {
        0
    } else {
        seq_sum(vs.drop_last()) + vs.last()
    }
}

/// The mean the averaging extractor owes on a blob: the floor of the sum
/// of the contributed values over their count, or `None` when no line
/// contributes one.
pub open spec fn avg_value(rule: Rule, text: Seq<u8>) -> Option<int> {
    let vs = matched_values(rule, spec_lines(text));
    if vs.len() > 0 {
        Some(seq_sum(vs) / (vs.len() as int))
    } else {
        None
    }
}

/// Apply `rule` to every line of `contents` and return the arithmetic
/// mean (rounded toward zero) of all captured values, or `None` when no
/// line yields a value — never a division-by-zero artifact.
pub fn average_matching_line(contents: &[u8], rule: Rule) -> (r: Option<u32>)
    ensures
        match r {
            Some(v) => avg_value(rule, contents@) == Some(v as int),
            None => avg_value(rule, contents@) is None,
        },
        r is Some <==> matched_values(rule, spec_lines(contents@)).len() > 0,
{
    let lines = split_lines(contents);
    let ghost lseq = spec_lines(contents@);
    let n: usize = lines.len();
    let mut sum: u128 = 0;
    let mut count: usize = 0;
    proof {
        assert(lseq.subrange(0, 0) =~= Seq::<Seq<u8>>::empty());
    }
    let mut i: usize = 0;
    while i < n
        invariant
            0 <= i <= n,
            n == lines@.len(),
            lines.deep_view() == lseq,
            count == matched_values(rule, lseq.subrange(0, i as int)).len(),
            sum == seq_sum(matched_values(rule, lseq.subrange(0, i as int))),
            count <= i,
            0 <= sum <= count * (u32::MAX as int),
        decreases n - i,
    {
        let ghost prefix = lseq.subrange(0, i as int);
        let ghost line_view = lseq[i as int];
        proof {
            assert(lines@[i as int]@ =~= lines.deep_view()[i as int]);
            assert(lseq.subrange(0, i + 1) =~= prefix.push(line_view));
            assert(prefix.push(line_view).drop_last() =~= prefix);
            assert(prefix.push(line_view).last() == line_view);
        }
        let line: &Vec<u8> = &lines[i];
        match capture(rule, line.as_slice()) {
            Some(c) => {
                match parse_number(c.as_slice()) {
                    Some(v) => {
                        proof {
                            assert(spec_line_value(rule, line_view) == Some(v as int));
                            let mv = matched_values(rule, prefix);
                            assert(matched_values(rule, prefix.push(line_view)) == mv.push(
                                v as int,
                            ));
                            assert(mv.push(v as int).drop_last() =~= mv);
                            assert(seq_sum(mv.push(v as int)) == seq_sum(mv) + v);
                            assert((count + 1) * (u32::MAX as int) == count * (u32::MAX as int)
                                + u32::MAX) by (nonlinear_arith);
                        }
                        sum = sum + (v as u128);
                        count = count + 1;
                    },
                    None => {
                        proof {
                            assert(spec_line_value(rule, line_view) is None);
                            assert(matched_values(rule, prefix.push(line_view)) == matched_values(
                                rule,
                                prefix,
                            ));
                        }
                    },
                }
            },
            None => {
                proof {
                    assert(spec_line_value(rule, line_view) is None);
                    assert(matched_values(rule, prefix.push(line_view)) == matched_values(
                        rule,
                        prefix,
                    ));
                }
            },
        }
        i = i + 1;
    }
    proof {
        assert(lseq.subrange(0, n as int) =~= lseq);
    }
    if count == 0 {
        None
    } else {
        let q: u128 = sum / (count as u128);
        proof {
            let vs = matched_values(rule, lseq);
            let c = vs.len() as int;
            assert(sum <= c * (u32::MAX as int));
            vstd::arithmetic::div_mod::lemma_div_is_ordered(
                sum as int,
                c * (u32::MAX as int),
                c,
            );
            vstd::arithmetic::div_mod::lemma_div_multiples_vanish(u32::MAX as int, c);
            vstd::arithmetic::div_mod::lemma_div_pos_is_pos(sum as int, c);
        }
        Some(q as u32)
    }
}

} // verus!
