//! The table renderer: column widths, the configured sort order applied as a
//! total order over the results, and the text of the comparison table.

use vstd::prelude::*;
use vstd::arithmetic::div_mod::lemma_mod_bound;
use vstd::arithmetic::div_mod::lemma_multiply_divide_lt;
use vstd::seq_lib::group_to_multiset_ensures;
use vstd::string::StrSliceExecFns;
use vstd::string::StringExecFns;
use crate::SortType;
use crate::stats::BenchmarkResult;
use crate::stats::Mean;
use crate::stats::lemma_mean_le_trans;
use crate::stats::mean_le;
use crate::stats::mean_wf;
use crate::stats::result_wf;
use crate::stats::spec_mean_le;
use crate::text::dec_digits;
use crate::text::dec_string;
use crate::text::digit_char;
use crate::text::pad_right;
use crate::text::padded;
use crate::text::repeat_char;
use crate::text::spaces;
use crate::text::dashes;

verus! {

/// The mean rounded to hundredths: the numerator of the rendered
/// two-decimal value. Rounding is half-up on the fractional part.
pub open spec fn mean_hundredths(m: Mean) -> int
    recommends
        mean_wf(m),
{
    m.whole * 100 + (m.num * 200 + m.den) / (2 * m.den)
}

/// The decimal text of a mean, with exactly two digits after the point.
pub open spec fn mean_dec(m: Mean) -> Seq<char>
    recommends
        mean_wf(m),
{
    let h = mean_hundredths(m);
    dec_digits((h / 100) as nat) + seq!['.'] + seq![
        digit_char(((h / 10) % 10) as nat),
        digit_char((h % 10) as nat),
    ]
}

/// Renders the mean with two digits after the decimal point, the fraction
/// rounded half-up.
pub fn format_mean(m: &Mean) -> (s: String)
    requires
        mean_wf(*m),
    ensures
        s@ == mean_dec(*m),
        4 <= s@.len() <= 43,
{
    proof {
        assert((m.num as int * 200 + m.den) < (2 * m.den as int) * 101) by (nonlinear_arith)
            requires
                m.num < m.den,
                1 <= m.den,
        ;
        lemma_multiply_divide_lt(m.num as int * 200 + m.den, 2 * m.den as int, 101);
        assert((m.num as int * 200 + m.den) / (2 * m.den as int) >= 0) by (nonlinear_arith)
            requires
                1 <= m.den,
                0 <= m.num,
        ;
        assert((m.whole as int * 100 + 100) <= u128::MAX) by (nonlinear_arith)
            requires
                m.whole <= u64::MAX,
        ;
        assert((m.num as int * 200 + m.den) <= u128::MAX) by (nonlinear_arith)
            requires
                m.num <= u64::MAX,
                m.den <= u64::MAX,
        ;
    }
    let frac = (m.num as u128 * 200 + m.den as u128) / (2 * m.den as u128);
    let h = m.whole as u128 * 100 + frac;
    let whole_part = h / 100;
    let tens = (h / 10) % 10;
    let ones = h % 10;
    proof {
        assert(h == mean_hundredths(*m));
        lemma_mod_bound(h as int / 10, 10);
        lemma_mod_bound(h as int, 10);
    }
    let mut s = dec_string(whole_part);
    s.append(".");
    let t = crate::text::digit_string(tens);
    s.append(t);
    let o = crate::text::digit_string(ones);
    s.append(o);
    proof {
        reveal_strlit(".");
        assert(s@ =~= mean_dec(*m));
    }
    s
}

/// An endpoint with its trailing port suffix (three characters) removed.
pub open spec fn stripped(ip: Seq<char>) -> Seq<char>
    recommends
        3 <= ip.len(),
{
    ip.subrange(0, ip.len() - 3)
}

/// Removes the three-character `:53` port suffix from an endpoint for
/// display.
pub fn strip_port_number(ip: &str) -> (r: &str)
    requires
        3 <= ip@.len(),
    ensures
        r@ == stripped(ip@),
{
    let n = ip.unicode_len();
    ip.substring_char(0, n - 3)
}

/// Display widths of the five columns, in characters.
#[derive(Clone, Copy, Debug, PartialEq, Eq, Structural)]
pub struct ColumnWidths {
    pub name: usize,
    pub ip: usize,
    pub avg: usize,
    pub min: usize,
    pub max: usize,
}

/// The larger of two integers.
pub open spec fn max_int(a: int, b: int) -> int {
    if a >= b {
        a
    } else {
        b
    }
}

/// Width of the provider column: the header width (with two trailing
/// spaces) or the longest name plus one space, whichever is larger.
pub open spec fn name_width(rs: Seq<BenchmarkResult>) -> int
    decreases rs.len(),
{
    if rs.len() == 0 {
        10
    } else {
        max_int(name_width(rs.drop_last()), rs.last().dns@.name.len() as int + 1)
    }
}

/// The longest endpoint of one server plus one space, or zero for none.
pub open spec fn ips_max(ips: Seq<Seq<char>>) -> int
    decreases ips.len(),
{
    if ips.len() == 0 {
        0
    } else {
        max_int(ips_max(ips.drop_last()), ips.last().len() as int + 1)
    }
}

/// Width of the IP column: the placeholder width or the longest endpoint of
/// any server plus one space.
pub open spec fn ip_width(rs: Seq<BenchmarkResult>) -> int
    decreases rs.len(),
{
    if rs.len() == 0 {
        8
    } else {
        max_int(ip_width(rs.drop_last()), ips_max(rs.last().dns@.ips))
    }
}

/// Width of the average column.
pub open spec fn avg_width(rs: Seq<BenchmarkResult>) -> int
    decreases rs.len(),
{
    if rs.len() == 0 {
        10
    } else {
        max_int(avg_width(rs.drop_last()), mean_dec(rs.last().avg).len() as int + 1)
    }
}

/// Width of the minimum column.
pub open spec fn min_width(rs: Seq<BenchmarkResult>) -> int
    decreases rs.len(),
{
    if rs.len() == 0 {
        5
    } else {
        max_int(min_width(rs.drop_last()), dec_digits(rs.last().min as nat).len() as int + 1)
    }
}

/// Width of the maximum column: the last column gets no trailing space.
pub open spec fn max_width(rs: Seq<BenchmarkResult>) -> int
    decreases rs.len(),
{
    if rs.len() == 0 {
        3
    } else {
        max_int(max_width(rs.drop_last()), dec_digits(rs.last().max as nat).len() as int)
    }
}

/// The widths `w` are exactly the ones the renderer computes for `rs`.
pub open spec fn widths_ok(w: ColumnWidths, rs: Seq<BenchmarkResult>) -> bool {
    &&& w.name == name_width(rs)
    &&& w.ip == ip_width(rs)
    &&& w.avg == avg_width(rs)
    &&& w.min == min_width(rs)
    &&& w.max == max_width(rs)
}

/// Computes each column's width as the maximum of the header width and
/// every cell's content width (the name column at least one wider than the
/// longest server name).
pub fn compute_widths(results: &Vec<BenchmarkResult>) -> (w: ColumnWidths)
    requires
        forall|i: int| 0 <= i < results@.len() ==> result_wf(#[trigger] results@[i]),
        forall|i: int|
            0 <= i < results@.len() ==> (#[trigger] results@[i].dns@.name.len()) + 1 <= usize::MAX,
        forall|i: int, j: int|
            0 <= i < results@.len() && 0 <= j < results@[i].dns@.ips.len() ==> (
            #[trigger] results@[i].dns@.ips[j].len()) + 1 <= usize::MAX,
    ensures
        widths_ok(w, results@),
        w.name >= 10 && w.ip >= 8 && w.avg >= 10 && w.min >= 5 && w.max >= 3,
        forall|i: int|
            0 <= i < results@.len() ==> (#[trigger] results@[i].dns@.name.len()) + 1 <= w.name,
        forall|i: int, j: int|
            0 <= i < results@.len() && 0 <= j < results@[i].dns@.ips.len() ==> (
            #[trigger] results@[i].dns@.ips[j].len()) + 1 <= w.ip,
        forall|i: int|
            0 <= i < results@.len() ==> mean_dec(#[trigger] results@[i].avg).len() + 1 <= w.avg,
        forall|i: int|
            0 <= i < results@.len() ==> dec_digits((#[trigger] results@[i].min) as nat).len() + 1
                <= w.min,
        forall|i: int|
            0 <= i < results@.len() ==> dec_digits((#[trigger] results@[i].max) as nat).len()
                <= w.max,
{
    let mut w = ColumnWidths { name: 10, ip: 8, avg: 10, min: 5, max: 3 };
    let n = results.len();
    let mut i: usize = 0;
    while i < n
        invariant
            n == results@.len(),
            i <= n,
            forall|k: int| 0 <= k < n ==> result_wf(#[trigger] results@[k]),
            forall|k: int|
                0 <= k < n ==> (#[trigger] results@[k].dns@.name.len()) + 1 <= usize::MAX,
            forall|k: int, j: int|
                0 <= k < n && 0 <= j < results@[k].dns@.ips.len() ==> (
                #[trigger] results@[k].dns@.ips[j].len()) + 1 <= usize::MAX,
            w.name == name_width(results@.subrange(0, i as int)),
            w.ip == ip_width(results@.subrange(0, i as int)),
            w.avg == avg_width(results@.subrange(0, i as int)),
            w.min == min_width(results@.subrange(0, i as int)),
            w.max == max_width(results@.subrange(0, i as int)),
            w.name >= 10 && w.ip >= 8 && w.avg >= 10 && w.min >= 5 && w.max >= 3,
            forall|k: int| 0 <= k < i ==> (#[trigger] results@[k].dns@.name.len()) + 1 <= w.name,
            forall|k: int, j: int|
                0 <= k < i && 0 <= j < results@[k].dns@.ips.len() ==> (
                #[trigger] results@[k].dns@.ips[j].len()) + 1 <= w.ip,
            forall|k: int| 0 <= k < i ==> mean_dec(#[trigger] results@[k].avg).len() + 1 <= w.avg,
            forall|k: int|
                0 <= k < i ==> dec_digits((#[trigger] results@[k].min) as nat).len() + 1 <= w.min,
            forall|k: int|
                0 <= k < i ==> dec_digits((#[trigger] results@[k].max) as nat).len() <= w.max,
        decreases n - i,
    {
        let r = &results[i];
        proof {
            assert(results@[i as int].dns@.name.len() + 1 <= usize::MAX);
        }
        let name_len = r.dns.name.as_str().unicode_len();
        if name_len + 1 > w.name {
            w.name = name_len + 1;
        }
        let avg_text = format_mean(&r.avg);
        let avg_len = avg_text.as_str().unicode_len();
        if avg_len + 1 > w.avg {
            w.avg = avg_len + 1;
        }
        let min_text = dec_string(r.min as u128);
        let min_len = min_text.as_str().unicode_len();
        if min_len + 1 > w.min {
            w.min = min_len + 1;
        }
        let max_text = dec_string(r.max as u128);
        let max_len = max_text.as_str().unicode_len();
        if max_len > w.max {
            w.max = max_len;
        }
        let m = r.dns.ips.len();
        let mut j: usize = 0;
        let ghost w_snap = w;
        proof {
            assert(ips_max(r.dns@.ips.subrange(0, 0)) == 0);
        }
        while j < m
            invariant
                m == r.dns.ips@.len(),
                j <= m,
                r.dns@.ips.len() == m,
                forall|l: int|
                    0 <= l < m ==> (#[trigger] r.dns@.ips[l].len()) + 1 <= usize::MAX,
                w.name == w_snap.name && w.avg == w_snap.avg && w.min == w_snap.min && w.max
                    == w_snap.max,
                w.ip == max_int(w_snap.ip as int, ips_max(r.dns@.ips.subrange(0, j as int))),
                w.ip >= w_snap.ip,
                forall|l: int| 0 <= l < j ==> (#[trigger] r.dns@.ips[l].len()) + 1 <= w.ip,
            decreases m - j,
        {
            let ip_len = r.dns.ips[j].as_str().unicode_len();
            proof {
                assert(r.dns@.ips[j as int] == r.dns.ips@[j as int]@);
                assert(r.dns@.ips.subrange(0, (j + 1) as int).drop_last() =~= r.dns@.ips.subrange(
                    0,
                    j as int,
                ));
            }
            if ip_len + 1 > w.ip {
                w.ip = ip_len + 1;
            }
            j = j + 1;
        }
        proof {
            assert(r.dns@.ips.subrange(0, m as int) =~= r.dns@.ips);
            assert(results@.subrange(0, (i + 1) as int).drop_last() =~= results@.subrange(
                0,
                i as int,
            ));
            assert(results@.subrange(0, (i + 1) as int).last() == results@[i as int]);
        }
        i = i + 1;
    }
    proof {
        assert(results@.subrange(0, n as int) =~= results@);
    }
    w
}

/// Order of two results in the configured sort field: ascending by the
/// exact average, the minimum, or the maximum.
pub open spec fn spec_key_le(a: BenchmarkResult, b: BenchmarkResult, sort: SortType) -> bool {
    match sort {
        SortType::Average => spec_mean_le(a.avg, b.avg),
        SortType::Minimum => a.min <= b.min,
        SortType::Maximum => a.max <= b.max,
    }
}

/// The rows are monotonic nondecreasing in the sorted field.
pub open spec fn row_sorted(rs: Seq<BenchmarkResult>, sort: SortType) -> bool {
    forall|i: int, j: int| 0 <= i < j < rs.len() ==> spec_key_le(#[trigger] rs[i], #[trigger] rs[j], sort)
}

/// The sort order is transitive on valid results.
pub proof fn lemma_key_le_trans(a: BenchmarkResult, b: BenchmarkResult, c: BenchmarkResult, sort: SortType)
    requires
        result_wf(a),
        result_wf(b),
        result_wf(c),
        spec_key_le(a, b, sort),
        spec_key_le(b, c, sort),
    ensures
        spec_key_le(a, c, sort),
{
    match sort {
        SortType::Average => lemma_mean_le_trans(a.avg, b.avg, c.avg),
        SortType::Minimum => {},
        SortType::Maximum => {},
    }
}

/// Compares two results in the configured sort field.
pub fn key_le(a: &BenchmarkResult, b: &BenchmarkResult, sort: SortType) -> (r: bool)
    requires
        result_wf(*a),
        result_wf(*b),
    ensures
        r == spec_key_le(*a, *b, sort),
{
    match sort {
        SortType::Average => mean_le(&a.avg, &b.avg),
        SortType::Minimum => a.min <= b.min,
        SortType::Maximum => a.max <= b.max,
    }
}

/// Inserting an element anywhere in a sequence inserts it into the
/// sequence's multiset.
proof fn lemma_to_multiset_insert<A>(s: Seq<A>, i: int, v: A)
    requires
        0 <= i <= s.len(),
    ensures
        s.insert(i, v).to_multiset() =~= s.to_multiset().insert(v),
{
    broadcast use group_to_multiset_ensures;

    let t = s.insert(i, v);
    assert(t.remove(i) =~= s);
    assert(t[i] == v);
    assert(t.to_multiset().remove(v) =~= s.to_multiset());
    assert(t.contains(v));
    assert(t.to_multiset().count(v) > 0);
    assert forall|x: A| t.to_multiset().count(x) == s.to_multiset().insert(v).count(
        x,
    ) by {
        if x == v {
            assert(t.to_multiset().remove(v).count(v) == t.to_multiset().count(v) - 1);
        } else {
            assert(t.to_multiset().remove(v).count(x) == t.to_multiset().count(x));
        }
    }
}

/// `x` inserted into the sorted sequence `s`, after every element that
/// orders at or below it — so elements whose sort fields tie with `x` keep
/// their earlier place.
pub open spec fn spec_insert_sorted(
    s: Seq<BenchmarkResult>,
    x: BenchmarkResult,
    sort: SortType,
) -> Seq<BenchmarkResult>
    decreases s.len(),
{
    if s.len() == 0 {
        seq![x]
    } else if spec_key_le(s[0], x, sort) {
        seq![s[0]] + spec_insert_sorted(s.drop_first(), x, sort)
    } else {
        seq![x] + s
    }
}

/// The stable sort of the first `k` results: each taken in input order and
/// inserted after everything at or below it.
pub open spec fn spec_stable_sort(
    s: Seq<BenchmarkResult>,
    k: int,
    sort: SortType,
) -> Seq<BenchmarkResult>
    decreases k,
{
    if k <= 0 || k > s.len() {
        Seq::empty()
    } else {
        spec_insert_sorted(spec_stable_sort(s, k - 1, sort), s[k - 1], sort)
    }
}

/// Inserting at the first position whose element does not order at or below
/// `x` is exactly `spec_insert_sorted`.
proof fn lemma_insert_at_first_above(
    s: Seq<BenchmarkResult>,
    x: BenchmarkResult,
    sort: SortType,
    pos: int,
)
    requires
        0 <= pos <= s.len(),
        forall|k: int| 0 <= k < pos ==> spec_key_le(#[trigger] s[k], x, sort),
        pos < s.len() ==> !spec_key_le(s[pos], x, sort),
    ensures
        s.insert(pos, x) == spec_insert_sorted(s, x, sort),
    decreases s.len(),
{
    if pos == 0 {
        if s.len() == 0 {
            assert(s.insert(0, x) =~= seq![x]);
        } else {
            assert(!spec_key_le(s[0], x, sort));
            assert(s.insert(0, x) =~= seq![x] + s);
        }
    } else {
        assert(spec_key_le(s[0], x, sort));
        let t = s.drop_first();
        lemma_insert_at_first_above(t, x, sort, pos - 1);
        assert(s.insert(pos, x) =~= seq![s[0]] + t.insert(pos - 1, x));
    }
}

/// Position in the sorted prefix at which `x` belongs: everything before it
/// is at most `x`, everything from it on is at least `x`, and the element at
/// the position itself (if any) is strictly above `x`.
fn insert_pos(out: &Vec<BenchmarkResult>, x: &BenchmarkResult, sort: SortType) -> (pos: usize)
    requires
        forall|k: int| 0 <= k < out@.len() ==> result_wf(#[trigger] out@[k]),
        result_wf(*x),
        row_sorted(out@, sort),
    ensures
        pos <= out@.len(),
        forall|k: int| 0 <= k < pos ==> spec_key_le(#[trigger] out@[k], *x, sort),
        forall|k: int| pos <= k < out@.len() ==> spec_key_le(*x, #[trigger] out@[k], sort),
        pos < out@.len() ==> !spec_key_le(out@[pos as int], *x, sort),
{
    let n = out.len();
    let mut pos: usize = 0;
    while pos < n && key_le(&out[pos], x, sort)
        invariant
            n == out@.len(),
            pos <= n,
            forall|k: int| 0 <= k < out@.len() ==> result_wf(#[trigger] out@[k]),
            result_wf(*x),
            row_sorted(out@, sort),
            forall|k: int| 0 <= k < pos ==> spec_key_le(#[trigger] out@[k], *x, sort),
        decreases n - pos,
    {
        pos = pos + 1;
    }
    proof {
        if pos < out@.len() {
            assert(!spec_key_le(out@[pos as int], *x, sort));
            assert(spec_key_le(*x, out@[pos as int], sort));
            assert forall|k: int| pos <= k < out@.len() implies spec_key_le(
                *x,
                #[trigger] out@[k],
                sort,
            ) by {
                if k > pos {
                    assert(spec_key_le(out@[pos as int], out@[k], sort));
                    lemma_key_le_trans(*x, out@[pos as int], out@[k], sort);
                }
            }
        }
    }
    pos
}

/// Sorts the results ascending in the configured field: the output is a
/// permutation of the input whose rows are monotonic nondecreasing in that
/// field. Each result is inserted after every earlier one it does not order
/// strictly below, so rows whose sort fields tie keep their input order.
pub fn sort_results(results: Vec<BenchmarkResult>, sort: SortType) -> (sorted: Vec<
    BenchmarkResult,
>)
    requires
        forall|i: int| 0 <= i < results@.len() ==> result_wf(#[trigger] results@[i]),
    ensures
        sorted@ == spec_stable_sort(results@, results@.len() as int, sort),
        sorted@.to_multiset() == results@.to_multiset(),
        sorted@.len() == results@.len(),
        row_sorted(sorted@, sort),
        forall|i: int| 0 <= i < sorted@.len() ==> result_wf(#[trigger] sorted@[i]),
{
    broadcast use group_to_multiset_ensures;

    let mut rest = results;
    let mut out: Vec<BenchmarkResult> = Vec::new();
    proof {
        assert(out@.to_multiset().add(rest@.to_multiset()) =~= results@.to_multiset());
        assert(rest@ =~= results@.subrange(0, results@.len() as int));
    }
    while rest.len() > 0
        invariant
            out@.to_multiset().add(rest@.to_multiset()) == results@.to_multiset(),
            out@.len() + rest@.len() == results@.len(),
            out@ == spec_stable_sort(results@, out@.len() as int, sort),
            rest@ == results@.subrange(out@.len() as int, results@.len() as int),
            row_sorted(out@, sort),
            forall|k: int| 0 <= k < out@.len() ==> result_wf(#[trigger] out@[k]),
            forall|k: int| 0 <= k < rest@.len() ==> result_wf(#[trigger] rest@[k]),
        decreases rest@.len(),
    {
        let ghost rest_before = rest@;
        let ghost done = out@.len() as int;
        let x = rest.remove(0);
        proof {
            broadcast use group_to_multiset_ensures;

            assert(x == rest_before[0]);
            assert(x == results@[done]);
            assert(rest_before.contains(x));
            assert(rest_before.to_multiset().count(x) > 0);
            assert(rest@.to_multiset() == rest_before.remove(0).to_multiset());
            assert(rest_before.remove(0).to_multiset() == rest_before.to_multiset().remove(x));
            assert(rest@ =~= results@.subrange(done + 1, results@.len() as int));
        }
        let pos = insert_pos(&out, &x, sort);
        let ghost out_before = out@;
        out.insert(pos, x);
        proof {
            broadcast use group_to_multiset_ensures;

            lemma_to_multiset_insert(out_before, pos as int, x);
            assert(out@.to_multiset().add(rest@.to_multiset()) =~= results@.to_multiset());
            lemma_insert_at_first_above(out_before, x, sort, pos as int);
            assert(out@ == spec_insert_sorted(out_before, x, sort));
            assert(out@ == spec_stable_sort(results@, done + 1, sort));
            assert forall|i: int, j: int| 0 <= i < j < out@.len() implies spec_key_le(
                #[trigger] out@[i],
                #[trigger] out@[j],
                sort,
            ) by {
                if j < pos {
                    assert(out@[i] == out_before[i] && out@[j] == out_before[j]);
                } else if i > pos {
                    assert(out@[i] == out_before[i - 1] && out@[j] == out_before[j - 1]);
                } else if i == pos && j > pos {
                    assert(out@[i] == x && out@[j] == out_before[j - 1]);
                } else if j == pos && i < pos {
                    assert(out@[i] == out_before[i] && out@[j] == x);
                } else if i < pos && j > pos {
                    assert(out@[i] == out_before[i] && out@[j] == out_before[j - 1]);
                    lemma_key_le_trans(out_before[i], x, out_before[j - 1], sort);
                }
            }
            assert forall|k: int| 0 <= k < out@.len() implies result_wf(#[trigger] out@[k]) by {
                if k < pos {
                    assert(out@[k] == out_before[k]);
                } else if k > pos {
                    assert(out@[k] == out_before[k - 1]);
                } else {
                    assert(out@[k] == x);
                }
            }
        }
    }
    proof {
        assert(rest@.to_multiset().len() == 0);
        assert(out@.to_multiset().add(rest@.to_multiset()) =~= out@.to_multiset());
    }
    out
}

/// The header row of the table.
pub open spec fn header_text(w: ColumnWidths) -> Seq<char> {
    padded("Provider"@, w.name as int) + padded("IP"@, w.ip as int) + padded(
        "Avg (µs)"@,
        w.avg as int,
    ) + padded("Min"@, w.min as int) + "Max\n"@
}

/// The separator row: dashes spanning the full table width.
pub open spec fn separator_text(w: ColumnWidths) -> Seq<char> {
    repeat_char('-', (w.name + w.ip + w.avg + w.min + w.max) as nat) + "\n"@
}

/// The continuation lines of one row, for the server's endpoints past the
/// first: each on a line of its own, indented under the name column, with
/// the statistics columns not repeated.
pub open spec fn extra_ip_text(ips: Seq<Seq<char>>, k: int, name_w: int) -> Seq<char>
    decreases k,
{
    if k <= 1 || k > ips.len() {
        Seq::empty()
    } else {
        extra_ip_text(ips, k - 1, name_w) + seq!['\n'] + repeat_char(' ', name_w as nat)
            + stripped(ips[k - 1])
    }
}

/// One server's row: name, first endpoint without its port, average with
/// two decimals, minimum and maximum, then the continuation lines.
pub open spec fn row_text(r: BenchmarkResult, w: ColumnWidths) -> Seq<char> {
    padded(r.dns@.name, w.name as int) + padded(stripped(r.dns@.ips[0]), w.ip as int) + padded(
        mean_dec(r.avg),
        w.avg as int,
    ) + padded(dec_digits(r.min as nat), w.min as int) + dec_digits(r.max as nat) + extra_ip_text(
        r.dns@.ips,
        r.dns@.ips.len() as int,
        w.name as int,
    ) + seq!['\n']
}

/// The first `k` rows of the table body.
pub open spec fn rows_text(rs: Seq<BenchmarkResult>, k: int, w: ColumnWidths) -> Seq<char>
    decreases k,
{
    if k <= 0 || k > rs.len() {
        Seq::empty()
    } else {
        rows_text(rs, k - 1, w) + row_text(rs[k - 1], w)
    }
}

/// The whole table: header, separator, and one row per result.
pub open spec fn table_text(rs: Seq<BenchmarkResult>, w: ColumnWidths) -> Seq<char> {
    header_text(w) + separator_text(w) + rows_text(rs, rs.len() as int, w)
}

/// Renders the header row.
pub fn render_header(w: &ColumnWidths) -> (s: String)
    requires
        w.name >= 10,
        w.ip >= 8,
        w.avg >= 10,
        w.min >= 5,
    ensures
        s@ == header_text(*w),
{
    proof {
        reveal_strlit("Provider");
        reveal_strlit("IP");
        reveal_strlit("Avg (µs)");
        reveal_strlit("Min");
        reveal_strlit("Max\n");
    }
    let mut s = pad_right("Provider", w.name);
    let t = pad_right("IP", w.ip);
    s.append(t.as_str());
    let t = pad_right("Avg (µs)", w.avg);
    s.append(t.as_str());
    let t = pad_right("Min", w.min);
    s.append(t.as_str());
    s.append("Max\n");
    proof {
        assert(s@ =~= header_text(*w));
    }
    s
}

/// Renders the separator row.
pub fn render_separator(w: &ColumnWidths) -> (s: String)
    ensures
        s@ == separator_text(*w),
{
    let mut s = dashes(w.name);
    let t = dashes(w.ip);
    s.append(t.as_str());
    let t = dashes(w.avg);
    s.append(t.as_str());
    let t = dashes(w.min);
    s.append(t.as_str());
    let t = dashes(w.max);
    s.append(t.as_str());
    s.append("\n");
    proof {
        reveal_strlit("\n");
        assert(s@ =~= separator_text(*w));
    }
    s
}

/// Renders one server's row, continuation lines for extra endpoints
/// included.
pub fn render_results_line(r: &BenchmarkResult, w: &ColumnWidths) -> (s: String)
    requires
        result_wf(*r),
        1 <= r.dns@.ips.len(),
        forall|j: int| 0 <= j < r.dns@.ips.len() ==> 3 <= (#[trigger] r.dns@.ips[j]).len(),
        r.dns@.name.len() <= w.name,
        r.dns@.ips[0].len() <= w.ip + 3,
        mean_dec(r.avg).len() <= w.avg,
        dec_digits(r.min as nat).len() <= w.min,
    ensures
        s@ == row_text(*r, *w),
{
    proof {
        assert(r.dns@.ips[0] == r.dns.ips@[0]@);
    }
    let mut s = pad_right(r.dns.name.as_str(), w.name);
    let ip0 = strip_port_number(r.dns.ips[0].as_str());
    let t = pad_right(ip0, w.ip);
    s.append(t.as_str());
    let avg_text = format_mean(&r.avg);
    let t = pad_right(avg_text.as_str(), w.avg);
    s.append(t.as_str());
    let min_text = dec_string(r.min as u128);
    let t = pad_right(min_text.as_str(), w.min);
    s.append(t.as_str());
    let max_text = dec_string(r.max as u128);
    s.append(max_text.as_str());
    let ghost main = s@;
    let m = r.dns.ips.len();
    let mut k: usize = 1;
    while k < m
        invariant
            m == r.dns.ips@.len(),
            1 <= k <= m || (m == 0 && k == 1),
            r.dns@.ips.len() == m,
            forall|j: int| 0 <= j < m ==> 3 <= (#[trigger] r.dns@.ips[j]).len(),
            s@ == main + extra_ip_text(r.dns@.ips, k as int, w.name as int),
        decreases m - k,
    {
        s.append("\n");
        let sp = spaces(w.name);
        s.append(sp.as_str());
        proof {
            assert(r.dns@.ips[k as int] == r.dns.ips@[k as int]@);
        }
        let ipk = strip_port_number(r.dns.ips[k].as_str());
        s.append(ipk);
        proof {
            reveal_strlit("\n");
            assert("\n"@ =~= seq!['\n']);
            assert(s@ =~= main + extra_ip_text(r.dns@.ips, (k + 1) as int, w.name as int));
        }
        k = k + 1;
    }
    s.append("\n");
    proof {
        reveal_strlit("\n");
        assert("\n"@ =~= seq!['\n']);
        assert(s@ =~= row_text(*r, *w));
    }
    s
}

/// The column widths of a result set, as one value.
pub open spec fn widths_of(rs: Seq<BenchmarkResult>) -> ColumnWidths {
    ColumnWidths {
        name: name_width(rs) as usize,
        ip: ip_width(rs) as usize,
        avg: avg_width(rs) as usize,
        min: min_width(rs) as usize,
        max: max_width(rs) as usize,
    }
}

/// Renders the full comparison table: the stable sort of the rows, ascending
/// in the configured field, under the header and separator, with column
/// widths computed from the rows themselves.
pub fn render_table(results: Vec<BenchmarkResult>, sort: SortType) -> (s: String)
    requires
        forall|i: int| 0 <= i < results@.len() ==> result_wf(#[trigger] results@[i]),
        forall|i: int| 0 <= i < results@.len() ==> 1 <= (#[trigger] results@[i].dns@.ips.len()),
        forall|i: int, j: int|
            0 <= i < results@.len() && 0 <= j < results@[i].dns@.ips.len() ==> 3 <= (
            #[trigger] results@[i].dns@.ips[j]).len(),
        forall|i: int|
            0 <= i < results@.len() ==> (#[trigger] results@[i].dns@.name.len()) + 1 <= usize::MAX,
        forall|i: int, j: int|
            0 <= i < results@.len() && 0 <= j < results@[i].dns@.ips.len() ==> (
            #[trigger] results@[i].dns@.ips[j].len()) + 1 <= usize::MAX,
    ensures
        s@ == table_text(
            spec_stable_sort(results@, results@.len() as int, sort),
            widths_of(spec_stable_sort(results@, results@.len() as int, sort)),
        ),
{
    let ghost orig = results@;
    let sorted = sort_results(results, sort);
    proof {
        assert forall|i: int| 0 <= i < sorted@.len() implies (1 <= (
        #[trigger] sorted@[i]).dns@.ips.len() && (forall|j: int|
            0 <= j < sorted@[i].dns@.ips.len() ==> 3 <= (#[trigger] sorted@[i].dns@.ips[j]).len())
            && sorted@[i].dns@.name.len() + 1 <= usize::MAX && (forall|j: int|
            0 <= j < sorted@[i].dns@.ips.len() ==> (#[trigger] sorted@[i].dns@.ips[j].len()) + 1
                <= usize::MAX)) by {
            broadcast use group_to_multiset_ensures;

            let x = sorted@[i];
            assert(sorted@.contains(x));
            assert(sorted@.to_multiset().count(x) > 0);
            assert(orig.to_multiset().count(x) > 0);
            assert(orig.contains(x));
            let j = choose|j: int| 0 <= j < orig.len() && orig[j] == x;
            assert(1 <= orig[j].dns@.ips.len());
            assert(orig[j].dns@.name.len() + 1 <= usize::MAX);
        }
    }
    let w = compute_widths(&sorted);
    let mut s = render_header(&w);
    let sep = render_separator(&w);
    s.append(sep.as_str());
    let ghost hs = s@;
    let n = sorted.len();
    let mut i: usize = 0;
    while i < n
        invariant
            n == sorted@.len(),
            i <= n,
            forall|k: int| 0 <= k < n ==> result_wf(#[trigger] sorted@[k]),
            forall|k: int| 0 <= k < n ==> 1 <= (#[trigger] sorted@[k].dns@.ips.len()),
            forall|k: int, j: int|
                0 <= k < n && 0 <= j < sorted@[k].dns@.ips.len() ==> 3 <= (
                #[trigger] sorted@[k].dns@.ips[j]).len(),
            forall|k: int|
                0 <= k < n ==> (#[trigger] sorted@[k].dns@.name.len()) + 1 <= w.name,
            forall|k: int, j: int|
                0 <= k < n && 0 <= j < sorted@[k].dns@.ips.len() ==> (
                #[trigger] sorted@[k].dns@.ips[j].len()) + 1 <= w.ip,
            forall|k: int| 0 <= k < n ==> mean_dec(#[trigger] sorted@[k].avg).len() + 1 <= w.avg,
            forall|k: int|
                0 <= k < n ==> dec_digits((#[trigger] sorted@[k].min) as nat).len() + 1 <= w.min,
            s@ == hs + rows_text(sorted@, i as int, w),
        decreases n - i,
    {
        let line = render_results_line(&sorted[i], &w);
        s.append(line.as_str());
        proof {
            assert(s@ =~= hs + rows_text(sorted@, (i + 1) as int, w));
        }
        i = i + 1;
    }
    proof {
        assert(sorted@ == spec_stable_sort(orig, orig.len() as int, sort));
        assert(w == widths_of(sorted@));
        assert(s@ =~= table_text(sorted@, w));
    }
    s
}

} // verus!
