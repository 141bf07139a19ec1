//! The progress reporter: a fixed-width textual progress indicator, rendered
//! as one line that the caller prints over the previous one. Purely
//! observational; it has no effect on the benchmark outcome.

use vstd::prelude::*;
use vstd::arithmetic::div_mod::lemma_div_is_ordered;
use vstd::arithmetic::div_mod::lemma_div_multiples_vanish;
use vstd::string::StringExecFns;
use crate::text::dec_digits;
use crate::text::dec_string;
use crate::text::repeat_char;

verus! {

/// Width of the progress bar, in characters.
pub const BAR_WIDTH: usize = 20;

/// The progress line for `done` of `total` servers: a carriage return, a
/// 20-character bar whose filled part is proportional to `done / total`,
/// and the percentage completed.
pub open spec fn progress_text(done: int, total: int) -> Seq<char>
    recommends
        1 <= total,
        0 <= done <= total,
{
    let filled = 20 * done / total;
    let pct = 100 * done / total;
    "\r["@ + repeat_char('=', filled as nat) + repeat_char(' ', (20 - filled) as nat) + "] "@
        + dec_digits(pct as nat) + "% Complete"@
}

/// Renders the progress line for `done` completed servers out of `total`.
pub fn progress_line(done: usize, total: usize) -> (s: String)
    requires
        1 <= total,
        done <= total,
    ensures
        s@ == progress_text(done as int, total as int),
{
    proof {
        assert(20 * done as int <= 20 * total as int) by (nonlinear_arith)
            requires
                done <= total,
        ;
        assert(100 * done as int <= 100 * total as int) by (nonlinear_arith)
            requires
                done <= total,
        ;
        assert((100 * total as int) < u128::MAX) by (nonlinear_arith)
            requires
                total <= u64::MAX,
        ;
        lemma_div_is_ordered(20 * done as int, 20 * total as int, total as int);
        lemma_div_is_ordered(100 * done as int, 100 * total as int, total as int);
        lemma_div_multiples_vanish(20, total as int);
        lemma_div_multiples_vanish(100, total as int);
        assert(20 * total as int == total as int * 20) by (nonlinear_arith);
        assert(100 * total as int == total as int * 100) by (nonlinear_arith);
        assert(20 * done as int / total as int <= 20);
        assert(100 * done as int / total as int <= 100);
    }
    let filled = ((20 as u128 * done as u128) / (total as u128)) as usize;
    let pct = (100 as u128 * done as u128) / (total as u128);
    let mut s = "\r[".to_owned();
    let mut i: usize = 0;
    while i < filled
        invariant
            i <= filled,
            s@ == "\r["@ + repeat_char('=', i as nat),
        decreases filled - i,
    {
        s.append("=");
        proof {
            reveal_strlit("=");
            assert(s@ =~= "\r["@ + repeat_char('=', (i + 1) as nat));
        }
        i = i + 1;
    }
    let blanks = BAR_WIDTH - filled;
    let mut j: usize = 0;
    while j < blanks
        invariant
            j <= blanks,
            s@ == "\r["@ + repeat_char('=', filled as nat) + repeat_char(' ', j as nat),
        decreases blanks - j,
    {
        s.append(" ");
        proof {
            reveal_strlit(" ");
            assert(s@ =~= "\r["@ + repeat_char('=', filled as nat) + repeat_char(
                ' ',
                (j + 1) as nat,
            ));
        }
        j = j + 1;
    }
    s.append("] ");
    let p = dec_string(pct);
    s.append(p.as_str());
    s.append("% Complete");
    proof {
        assert(s@ =~= progress_text(done as int, total as int));
    }
    s
}

} // verus!
