//! Percent rounding for the rendered summaries.
use vstd::prelude::*;
use vstd::arithmetic::div_mod::lemma_div_is_ordered;
use crate::binary64::Binary64;
use crate::text::string_from_chars;

verus! {

/// `100 * part / total` rounded to the nearest integer, halves rounded up.
pub open spec fn rounded_percent(part: nat, total: nat) -> nat {
    if total == 0 {
        0
    } else {
        ((200 * part + total) / (2 * total)) as nat
    }
}

/// The percentage that a report shows for `part` out of `total`: the rounded
/// value, except that a nonzero part below one percent shows as 1 and a part
/// above 99 percent that is not the whole shows as 99.
pub open spec fn shown_percent(part: nat, total: nat) -> nat {
    if part != 0 && 100 * part < total {
        1
    } else if 100 * part > 99 * total && part != total {
        99
    } else {
        rounded_percent(part, total)
    }
}

/// Rounds `num_part` out of `num_all` to a whole percentage for display.
/// Never rounds a nonzero part to 0, nor a part short of the whole to 100.
pub fn to_percent(num_part: usize, num_all: usize) -> (r: usize)
    ensures
        r == shown_percent(num_part as nat, num_all as nat),
{
    let part = num_part as u128;
    let all = num_all as u128;
    if part != 0 && 100 * part < all {
        1
    } else if 100 * part > 99 * all && part != all {
        99
    } else if all == 0 {
        0
    } else {
        assert(part <= all) by (nonlinear_arith)
            requires
                100 * part <= 99 * all || part == all,
        ;
        assert((200 * part + all) / (2 * all) <= 100) by (nonlinear_arith)
            requires
                part <= all,
                all > 0,
        ;
        ((200 * part + all) / (2 * all)) as usize
    }
}

proof fn lemma_rounded_facts(part: nat, total: nat)
    requires
        part <= total,
        total > 0,
    ensures
        rounded_percent(part, total) <= 100,
        100 * part >= total ==> rounded_percent(part, total) >= 1,
        100 * part < total ==> rounded_percent(part, total) <= 1,
        100 * part <= 99 * total ==> rounded_percent(part, total) <= 99,
        100 * part > 99 * total ==> rounded_percent(part, total) >= 99,
        part == total ==> rounded_percent(part, total) == 100,
{
    assert((200 * part + total) / (2 * total) <= 100) by (nonlinear_arith)
        requires
            part <= total,
            total > 0,
    ;
    if 100 * part >= total {
        assert((200 * part + total) / (2 * total) >= 1) by (nonlinear_arith)
            requires
                100 * part >= total,
                total > 0,
        ;
    }
    if 100 * part < total {
        assert((200 * part + total) / (2 * total) <= 1) by (nonlinear_arith)
            requires
                100 * part < total,
                total > 0,
        ;
    }
    if 100 * part <= 99 * total {
        assert((200 * part + total) / (2 * total) <= 99) by (nonlinear_arith)
            requires
                100 * part <= 99 * total,
                total > 0,
        ;
    }
    if 100 * part > 99 * total {
        assert((200 * part + total) / (2 * total) >= 99) by (nonlinear_arith)
            requires
                100 * part > 99 * total,
                total > 0,
        ;
    }
    if part == total {
        assert((200 * part + total) / (2 * total) == 100) by (nonlinear_arith)
            requires
                part == total,
                total > 0,
        ;
    }
}

/// "-" for negative zero and for a NaN with its sign bit set, else nothing.
pub open spec fn sign_prefix(x: Binary64) -> Seq<char> {
    if (x.is_zero_spec() || x.is_nan_spec()) && x.is_sign_negative_spec() {
        seq!['-']
    } else {
        Seq::<char>::empty()
    }
}

/// The sign prefix that a report writes before a value: "-" for negative
/// zero and for a NaN with its sign bit set, so that the sign of those
/// shows whatever the formatting of the value does; nothing for any other
/// value.
pub fn help_sign(x: Binary64) -> (r: String)
    ensures
        r@ == sign_prefix(x),
{
    let mut chars: Vec<char> = Vec::new();
    if (x.is_zero() || x.is_nan()) && x.is_sign_negative() {
        chars.push('-');
    }
    assert(chars@ =~= sign_prefix(x));
    string_from_chars(chars)
}

/// A shown percentage is never 0 for a nonzero part, never 100 for a part
/// that is not the whole, and never decreases as the part grows towards the
/// whole.
pub proof fn lemma_to_percent_bounds(part: nat, part2: nat, total: nat)
    requires
        part <= part2 <= total,
    ensures
        part > 0 ==> shown_percent(part, total) > 0,
        part != total ==> shown_percent(part, total) != 100,
        shown_percent(part, total) <= shown_percent(part2, total),
        shown_percent(part2, total) <= 100,
{
    if total > 0 {
        lemma_div_is_ordered((200 * part + total) as int, (200 * part2 + total) as int, (2 * total) as int);
        lemma_rounded_facts(part, total);
        lemma_rounded_facts(part2, total);
        if 100 * part > 99 * total {
            assert(100 * part2 > 99 * total) by (nonlinear_arith)
                requires
                    100 * part > 99 * total,
                    part <= part2,
            ;
        }
        if 100 * part2 < total {
            assert(100 * part < total) by (nonlinear_arith)
                requires
                    100 * part2 < total,
                    part <= part2,
            ;
        }
    }
}

} // verus!
