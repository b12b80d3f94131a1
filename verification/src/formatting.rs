//! Number and duration formatting for overlays and the explorer.
//!
//! Every numeric display string is built here. The `european` switch swaps the
//! roles of `.` and `,` (decimal mark and digit-group separator).

use vstd::prelude::*;
use vstd::string::*;
use crate::text::{
    all_digits, digit_char, int_digits, is_digit, lemma_digit_char, lemma_nat_digits,
    lemma_nat_digits_thousands, nat_digits, pad2, pad3, push_char, push_decimal, push_pad2, push_pad3,
    push_signed, push_signed_pad2, push_str, signed_pad2,
};

verus! {

// ─── Specifications ──────────────────────────────────────────────────────────

/// `.` and `,` trade places; every other character stays.
pub open spec fn swap_separator(c: char) -> char {
    if c == '.' {
        ','
    } else if c == ',' {
        '.'
    } else {
        c
    }
}

/// A string with every `.` turned into `,` and every `,` into `.`.
pub open spec fn europeanized(s: Seq<char>) -> Seq<char> {
    s.map_values(|c: char| swap_separator(c))
}

/// The string as displayed under the chosen number format.
pub open spec fn in_number_format(s: Seq<char>, european: bool) -> Seq<char> {
    if european {
        europeanized(s)
    } else {
        s
    }
}

/// A string with every `,` turned into `.`.
pub open spec fn commas_to_dots(s: Seq<char>) -> Seq<char> {
    s.map_values(|c: char| if c == ',' { '.' } else { c })
}

/// `whole.hh` followed by `unit`, where `hh` are the two leading digits of a
/// fraction below 1.
pub open spec fn scaled_text(whole: nat, hundredths: nat, unit: char) -> Seq<char> {
    nat_digits(whole) + seq!['.'] + pad2(hundredths) + seq![unit]
}

/// The compact rendering of `n` in the standard format: millions as `X.XXM`,
/// thousands as `X.XXK`, both cut (not rounded) to two decimals, smaller
/// values as plain integers.
pub open spec fn compact_text(n: int) -> Seq<char> {
    if n >= 1_000_000 {
        scaled_text((n / 1_000_000) as nat, ((n % 1_000_000) / 10_000) as nat, 'M')
    } else if n >= 1_000 {
        scaled_text((n / 1_000) as nat, ((n % 1_000) / 10) as nat, 'K')
    } else {
        int_digits(n)
    }
}

/// The digits of `n` with a `,` between each group of three, counted from
/// the right.
pub open spec fn grouped_digits(n: nat) -> Seq<char>
    decreases n,
{
    if n < 1000 {
        nat_digits(n)
    } else {
        grouped_digits(n / 1000) + seq![','] + pad3(n % 1000)
    }
}

/// The combat-log rendering of a raw value: empty for zero, otherwise the
/// sign and the digit groups.
pub open spec fn thousands_text(n: int) -> Seq<char> {
    if n == 0 {
        Seq::empty()
    } else if n < 0 {
        seq!['-'] + grouped_digits((-n) as nat)
    } else {
        grouped_digits(n as nat)
    }
}

/// Integer division rounding towards zero, as Rust's `/` on signed values.
pub open spec fn quot_toward_zero(a: int, b: nat) -> int {
    if a >= 0 {
        a / (b as int)
    } else {
        -((-a) / (b as int))
    }
}

/// The remainder that goes with `quot_toward_zero`, as Rust's `%`; it has the
/// sign of `a`.
pub open spec fn rem_toward_zero(a: int, b: nat) -> int {
    a - (b as int) * quot_toward_zero(a, b)
}

/// `M:SS` for a signed number of seconds, minutes and seconds taken with
/// Rust's `/` and `%`.
pub open spec fn duration_text(secs: int) -> Seq<char> {
    int_digits(quot_toward_zero(secs, 60)) + seq![':'] + signed_pad2(rem_toward_zero(secs, 60))
}

/// `M:SS` for an unsigned number of seconds.
pub open spec fn duration_nat_text(secs: nat) -> Seq<char> {
    nat_digits(secs / 60) + seq![':'] + pad2(secs % 60)
}

/// `M:SS.mmm` for a number of milliseconds.
pub open spec fn duration_millis_text(ms: nat) -> Seq<char> {
    nat_digits(ms / 60_000) + seq![':'] + pad2((ms % 60_000) / 1000) + seq!['.'] + pad3(ms % 1000)
}

// ─── Functions ───────────────────────────────────────────────────────────────

/// Apply European number format by swapping `.` and `,` in a formatted string.
pub fn europeanize(s: &str) -> (r: String)
    ensures
        r@ == europeanized(s@),
{
    let n = s.unicode_len();
    let mut r = String::new();
    let mut i: usize = 0;
    while i < n
        invariant
            n == s@.len(),
            i <= n,
            r@ =~= europeanized(s@.take(i as int)),
        decreases n - i,
    {
        let c = s.get_char(i);
        let d = if c == '.' {
            ','
        } else if c == ',' {
            '.'
        } else {
            c
        };
        push_char(&mut r, d);
        assert(s@.take(i + 1) =~= s@.take(i as int).push(c));
        i = i + 1;
    }
    assert(s@.take(n as int) =~= s@);
    r
}

/// Apply European formatting conditionally.
pub fn maybe_eu(s: String, european: bool) -> (r: String)
    ensures
        r@ == in_number_format(s@, european),
{
    if european {
        europeanize(s.as_str())
    } else {
        s
    }
}

/// Format a large number with K/M suffix for compact display.
///
/// - Values >= 1,000,000 are formatted as `X.XXM`
/// - Values >= 1,000 are formatted as `X.XXK`
/// - Values below 1,000 are formatted as-is
///
/// The two decimals are the leading ones, cut rather than rounded
/// (`9_999` gives `9.99K`).
pub fn format_compact(n: i64, european: bool) -> (r: String)
    ensures
        r@ == in_number_format(compact_text(n as int), european),
{
    let mut s = String::new();
    if n >= 1_000_000 {
        let m = n as u64;
        push_decimal(&mut s, m / 1_000_000);
        push_char(&mut s, '.');
        push_pad2(&mut s, (m % 1_000_000) / 10_000);
        push_char(&mut s, 'M');
    } else if n >= 1_000 {
        let m = n as u64;
        push_decimal(&mut s, m / 1_000);
        push_char(&mut s, '.');
        push_pad2(&mut s, (m % 1_000) / 10);
        push_char(&mut s, 'K');
    } else {
        push_signed(&mut s, n);
    }
    assert(s@ =~= compact_text(n as int));
    maybe_eu(s, european)
}

/// Appends the digits of `n` grouped by thousands.
fn push_grouped(s: &mut String, n: u64)
    ensures
        final(s)@ == old(s)@ + grouped_digits(n as nat),
    decreases n,
{
    if n < 1000 {
        push_decimal(s, n);
    } else {
        push_grouped(s, n / 1000);
        push_char(s, ',');
        push_pad3(s, n % 1000);
        assert(s@ =~= old(s)@ + grouped_digits(n as nat));
    }
}

/// Format a number with thousands separators (for combat log raw values).
///
/// Returns empty string for zero (matching combat log behavior).
///
/// - Standard: `1,234,567`
/// - European: `1.234.567` (see [`format_thousands_eu`])
pub fn format_thousands(n: i32) -> (r: String)
    requires
        n > i32::MIN,
    ensures
        r@ == thousands_text(n as int),
{
    let mut s = String::new();
    if n == 0 {
        return s;
    }
    if n < 0 {
        push_char(&mut s, '-');
        push_grouped(&mut s, (-n) as u64);
    } else {
        push_grouped(&mut s, n as u64);
    }
    assert(s@ =~= thousands_text(n as int));
    s
}

/// Apply European formatting to a thousands-separated string.
///
/// This swaps `,` separators to `.` separators.
pub fn format_thousands_eu(s: &str, european: bool) -> (r: String)
    ensures
        r@ == (if european { commas_to_dots(s@) } else { s@ }),
{
    if european {
        let n = s.unicode_len();
        let mut r = String::new();
        let mut i: usize = 0;
        while i < n
            invariant
                n == s@.len(),
                i <= n,
                r@ =~= commas_to_dots(s@.take(i as int)),
            decreases n - i,
        {
            let c = s.get_char(i);
            let d = if c == ',' {
                '.'
            } else {
                c
            };
            push_char(&mut r, d);
            assert(s@.take(i + 1) =~= s@.take(i as int).push(c));
            i = i + 1;
        }
        assert(s@.take(n as int) =~= s@);
        r
    } else {
        let mut r = String::new();
        push_str(&mut r, s);
        assert(r@ =~= s@);
        r
    }
}

/// Format a duration as `M:SS`.
///
/// Minutes and seconds are taken with Rust's `/` and `%`, so a negative
/// duration keeps its sign in both parts (`-125` gives `-2:-5`).
pub fn format_duration(secs: i64) -> (r: String)
    ensures
        r@ == duration_text(secs as int),
{
    let mut s = String::new();
    if secs >= 0 {
        push_signed(&mut s, secs / 60);
        push_char(&mut s, ':');
        push_signed_pad2(&mut s, secs % 60);
    } else {
        let m: u64 = ((-(secs + 1)) as u64) + 1;
        assert(m == -(secs as int));
        let q: i64 = -((m / 60) as i64);
        let r: i64 = -((m % 60) as i64);
        push_signed(&mut s, q);
        push_char(&mut s, ':');
        push_signed_pad2(&mut s, r);
    }
    assert(s@ =~= duration_text(secs as int));
    s
}

/// Format a duration as `M:SS` from u64 seconds.
pub fn format_duration_u64(secs: u64) -> (r: String)
    ensures
        r@ == duration_nat_text(secs as nat),
{
    let mut s = String::new();
    push_decimal(&mut s, secs / 60);
    push_char(&mut s, ':');
    push_pad2(&mut s, secs % 60);
    assert(s@ =~= duration_nat_text(secs as nat));
    s
}

/// Format a whole number of milliseconds as `M:SS.mmm`.
///
/// This is the integer half of formatting a duration with millisecond
/// precision: the caller rounds its seconds to milliseconds first.
pub fn format_duration_millis(total_ms: u64) -> (r: String)
    ensures
        r@ == duration_millis_text(total_ms as nat),
{
    let mut s = String::new();
    push_decimal(&mut s, total_ms / 60_000);
    push_char(&mut s, ':');
    push_pad2(&mut s, (total_ms % 60_000) / 1000);
    push_char(&mut s, '.');
    push_pad3(&mut s, total_ms % 1000);
    assert(s@ =~= duration_millis_text(total_ms as nat));
    s
}

// ─── Laws ────────────────────────────────────────────────────────────────────

/// `s` without its `,` characters.
pub open spec fn without_commas(s: Seq<char>) -> Seq<char>
    decreases s.len(),
{
    if s.len() == 0 {
        s
    } else if s.last() == ',' {
        without_commas(s.drop_last())
    } else {
        without_commas(s.drop_last()).push(s.last())
    }
}

/// Every character of `s` is a digit or a `,`.
pub open spec fn digits_and_commas(s: Seq<char>) -> bool {
    forall|i: int| 0 <= i < s.len() ==> is_digit(#[trigger] s[i]) || s[i] == ','
}

proof fn lemma_without_commas_concat(a: Seq<char>, b: Seq<char>)
    ensures
        without_commas(a + b) == without_commas(a) + without_commas(b),
    decreases b.len(),
{
    if b.len() == 0 {
        assert(a + b =~= a);
        assert(without_commas(a) + without_commas(b) =~= without_commas(a));
    } else {
        assert((a + b).drop_last() =~= a + b.drop_last());
        assert((a + b).last() == b.last());
        lemma_without_commas_concat(a, b.drop_last());
        if b.last() == ',' {
        } else {
            assert(without_commas(a) + without_commas(b.drop_last()).push(b.last()) =~= (
            without_commas(a) + without_commas(b.drop_last())).push(b.last()));
        }
    }
}

proof fn lemma_without_commas_digits(s: Seq<char>)
    requires
        all_digits(s),
    ensures
        without_commas(s) == s,
    decreases s.len(),
{
    if s.len() > 0 {
        assert(is_digit(s[s.len() - 1]));
        assert(all_digits(s.drop_last())) by {
            assert forall|i: int| 0 <= i < s.drop_last().len() implies is_digit(
                #[trigger] s.drop_last()[i],
            ) by {
                assert(s.drop_last()[i] == s[i]);
            }
        }
        lemma_without_commas_digits(s.drop_last());
        assert(s.drop_last().push(s.last()) =~= s);
    }
}

proof fn lemma_pad3_digits(n: nat)
    requires
        n < 1000,
    ensures
        all_digits(pad3(n)),
        nat_digits(n).len() < 3 ==> pad3(n) =~= (if n < 10 { seq!['0', '0'] } else { seq!['0'] }) + nat_digits(n),
{
    lemma_nat_digits(n);
    lemma_digit_char(n % 10);
    if n < 10 {
        assert(nat_digits(n) =~= seq![digit_char(n)]);
    }
}

proof fn lemma_grouped_digits_chars(n: nat)
    ensures
        digits_and_commas(grouped_digits(n)),
    decreases n,
{
    if n < 1000 {
        lemma_nat_digits(n);
    } else {
        lemma_grouped_digits_chars(n / 1000);
        lemma_pad3_digits(n % 1000);
        let a = grouped_digits(n / 1000);
        let b = pad3(n % 1000);
        let s = a + seq![','] + b;
        assert forall|i: int| 0 <= i < s.len() implies is_digit(#[trigger] s[i]) || s[i] == ',' by {
            if i < a.len() {
                assert(s[i] == a[i]);
            } else if i > a.len() {
                assert(s[i] == b[i - a.len() - 1]);
            }
        }
    }
}

/// Digit grouping only inserts separators: taking the `,` out of the grouped
/// rendering of `n` gives back its plain decimal digits.
pub proof fn law_grouping_only_adds_separators(n: nat)
    ensures
        without_commas(grouped_digits(n)) == nat_digits(n),
    decreases n,
{
    lemma_nat_digits(n);
    if n < 1000 {
        lemma_without_commas_digits(nat_digits(n));
    } else {
        law_grouping_only_adds_separators(n / 1000);
        lemma_pad3_digits(n % 1000);
        lemma_nat_digits_thousands(n);
        let a = grouped_digits(n / 1000);
        let b = pad3(n % 1000);
        lemma_without_commas_concat(a + seq![','], b);
        lemma_without_commas_concat(a, seq![',']);
        let comma: Seq<char> = seq![','];
        assert(comma.drop_last() =~= Seq::<char>::empty());
        assert(comma.last() == ',');
        assert(without_commas(Seq::<char>::empty()) =~= Seq::<char>::empty());
        assert(without_commas(comma) =~= Seq::<char>::empty());
        lemma_without_commas_digits(b);
    }
}

/// Swapping separators twice gives back the string it started from.
pub proof fn law_europeanize_twice_is_identity(s: Seq<char>)
    ensures
        europeanized(europeanized(s)) == s,
{
    assert(europeanized(europeanized(s)) =~= s);
}

/// A thousands-separated string holds no `.`, so turning its `,` into `.`
/// is the same as the full European swap.
pub proof fn law_thousands_eu_is_europeanize(n: int)
    ensures
        commas_to_dots(thousands_text(n)) == europeanized(thousands_text(n)),
{
    let m: nat = if n < 0 { (-n) as nat } else { n as nat };
    lemma_grouped_digits_chars(m);
    let t = thousands_text(n);
    assert forall|i: int| 0 <= i < t.len() implies t[i] != '.' by {
        let g = grouped_digits(m);
        if n < 0 {
            if i > 0 {
                assert(t[i] == g[i - 1]);
            }
        } else {
            assert(t[i] == g[i]);
        }
    }
    assert(commas_to_dots(t) =~= europeanized(t));
}

/// Values below one thousand are written as plain integers, the same in both
/// number formats.
pub proof fn law_small_compact_values_are_plain(n: int, european: bool)
    requires
        n < 1000,
    ensures
        in_number_format(compact_text(n), european) == int_digits(n),
{
    let m: nat = if n < 0 { (-n) as nat } else { n as nat };
    lemma_nat_digits(m);
    let t = int_digits(n);
    assert forall|i: int| 0 <= i < t.len() implies t[i] != '.' && t[i] != ',' by {
        if n < 0 {
            if i > 0 {
                assert(t[i] == nat_digits(m)[i - 1]);
            }
        } else {
            assert(t[i] == nat_digits(m)[i]);
        }
    }
    assert(europeanized(t) =~= t);
}

/// The unsigned and the signed duration formats agree wherever both apply.
pub proof fn law_duration_formats_agree(secs: nat)
    ensures
        duration_nat_text(secs) == duration_text(secs as int),
{
    lemma_nat_digits(secs % 60);
}

} // verus!
