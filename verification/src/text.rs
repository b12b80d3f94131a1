//! Decimal rendering of integers and small string-building helpers.
//!
//! Every number the library prints goes through the spec functions here, so the
//! contracts of the formatting functions can speak of one definition of "the
//! decimal digits of n".

use vstd::prelude::*;
use vstd::string::*;

verus! {

/// The ASCII character for the decimal digit `d` (`d < 10`).
pub open spec fn digit_char(d: nat) -> char {
    ((d + 48) as u32) as char
}

/// The decimal digits of `n`, most significant first, without leading zeros
/// (zero is written as a single `0`).
pub open spec fn nat_digits(n: nat) -> Seq<char>
    decreases n,
{
    if n < 10 {
        seq![digit_char(n)]
    } else {
        nat_digits(n / 10).push(digit_char(n % 10))
    }
}

/// The decimal rendering of an integer: a leading `-` for negative values.
pub open spec fn int_digits(i: int) -> Seq<char> {
    if i < 0 {
        seq!['-'] + nat_digits((-i) as nat)
    } else {
        nat_digits(i as nat)
    }
}

/// A number below 100 written with at least two digits (`{:02}`).
pub open spec fn pad2(n: nat) -> Seq<char> {
    if n < 10 {
        seq!['0', digit_char(n)]
    } else {
        nat_digits(n)
    }
}

/// A number below 1000 written with at least three digits (`{:03}`).
pub open spec fn pad3(n: nat) -> Seq<char> {
    if n < 10 {
        seq!['0', '0', digit_char(n)]
    } else if n < 100 {
        seq!['0'] + nat_digits(n)
    } else {
        nat_digits(n)
    }
}

/// A signed number written with `{:02}`: zero-padded to two characters,
/// the sign counting towards the width.
pub open spec fn signed_pad2(i: int) -> Seq<char> {
    if 0 <= i < 10 {
        seq!['0', digit_char(i as nat)]
    } else {
        int_digits(i)
    }
}

/// Whether `c` is one of the ASCII digits `0`-`9`.
pub open spec fn is_digit(c: char) -> bool {
    '0' <= c <= '9'
}

/// Every character of `s` is an ASCII digit.
pub open spec fn all_digits(s: Seq<char>) -> bool {
    forall|i: int| 0 <= i < s.len() ==> is_digit(#[trigger] s[i])
}

/// The value of a non-empty run of ASCII digits.
pub open spec fn digits_value(s: Seq<char>) -> nat
    decreases s.len(),
{
    if s.len() == 0 {
        0
    } else {
        digits_value(s.drop_last()) * 10 + ((s.last() as int - 48) as nat)
    }
}

pub proof fn lemma_digit_char(d: nat)
    requires
        d < 10,
    ensures
        is_digit(digit_char(d)),
        digit_char(d) as int - 48 == d,
        digit_char(d) != '-',
        digit_char(d) != ' ',
        digit_char(d) != ',',
        digit_char(d) != '.',
{
}

/// The digits of a number are ASCII digits, there is at least one of them,
/// and reading them back gives the number.
pub proof fn lemma_nat_digits(n: nat)
    ensures
        all_digits(nat_digits(n)),
        nat_digits(n).len() >= 1,
        digits_value(nat_digits(n)) == n,
        n < 10 <==> nat_digits(n).len() == 1,
        n < 100 <==> nat_digits(n).len() <= 2,
        n < 1000 <==> nat_digits(n).len() <= 3,
        nat_digits(n).len() == 1 || nat_digits(n)[0] != '0',
    decreases n,
{
    lemma_digit_char(n % 10);
    if n >= 10 {
        lemma_nat_digits(n / 10);
        let s = nat_digits(n);
        assert(s.drop_last() =~= nat_digits(n / 10));
        assert forall|i: int| 0 <= i < s.len() implies is_digit(#[trigger] s[i]) by {
            if i < s.len() - 1 {
                assert(s[i] == nat_digits(n / 10)[i]);
            }
        }
        assert(s[0] == nat_digits(n / 10)[0]);
        if n / 10 < 10 {
            lemma_digit_char(n / 10);
        }
        assert(n == (n / 10) * 10 + n % 10);
        assert(s.last() == digit_char(n % 10));
    } else {
        lemma_digit_char(n);
        assert(nat_digits(n).drop_last() =~= Seq::<char>::empty());
        assert(digits_value(Seq::<char>::empty()) == 0);
    }
}

/// The three low digits of a number of at least four digits are split off by
/// dividing by one thousand.
pub proof fn lemma_nat_digits_thousands(n: nat)
    requires
        n >= 1000,
    ensures
        nat_digits(n) =~= nat_digits(n / 1000) + pad3(n % 1000),
{
    let a = n / 10;
    let b = n / 100;
    let c = n / 1000;
    assert(a / 10 == b);
    assert(b / 10 == c);
    assert(n % 1000 == (b % 10) * 100 + (a % 10) * 10 + n % 10);
    let r = n % 1000;
    assert(nat_digits(n) == nat_digits(a).push(digit_char(n % 10)));
    assert(nat_digits(a) == nat_digits(b).push(digit_char(a % 10)));
    assert(nat_digits(b) == nat_digits(c).push(digit_char(b % 10)));
    if r >= 100 {
        assert(r / 10 == (b % 10) * 10 + a % 10);
        assert((r / 10) / 10 == b % 10);
        assert(nat_digits(r) == nat_digits(r / 10).push(digit_char(r % 10)));
        assert(nat_digits(r / 10) == nat_digits((r / 10) / 10).push(digit_char((r / 10) % 10)));
    } else if r >= 10 {
        assert(b % 10 == 0);
        assert(r / 10 == a % 10);
        assert(nat_digits(r) == nat_digits(r / 10).push(digit_char(r % 10)));
    } else {
        assert(b % 10 == 0);
        assert(a % 10 == 0);
    }
}

/// Appends `c` to `s`.
///
/// Trusted: `String::push` appends the given character at the end of the
/// string, leaving what was there unchanged.
#[verifier::external_body]
pub(crate) fn push_char(s: &mut String, c: char)
    ensures
        final(s)@ == old(s)@.push(c),
{
    s.push(c);
}

/// The digit character for `d`.
pub(crate) fn digit(d: u64) -> (c: char)
    requires
        d < 10,
    ensures
        c == digit_char(d as nat),
{
    let b: u8 = 48u8 + (d as u8);
    b as char
}

/// Appends the decimal digits of `n` to `s`.
pub(crate) fn push_decimal(s: &mut String, n: u64)
    ensures
        final(s)@ == old(s)@ + nat_digits(n as nat),
    decreases n,
{
    if n >= 10 {
        push_decimal(s, n / 10);
    }
    push_char(s, digit(n % 10));
    assert(old(s)@ + nat_digits(n as nat) =~= s@) by {
        if n >= 10 {
            assert(nat_digits(n as nat) == nat_digits((n / 10) as nat).push(digit_char((n % 10) as nat)));
        }
    }
}

/// Appends `n` (below 100) with at least two digits.
pub(crate) fn push_pad2(s: &mut String, n: u64)
    requires
        n < 100,
    ensures
        final(s)@ == old(s)@ + pad2(n as nat),
{
    if n < 10 {
        push_char(s, '0');
    }
    push_decimal(s, n);
    assert(s@ =~= old(s)@ + pad2(n as nat));
}

/// Appends `n` (below 1000) with at least three digits.
pub(crate) fn push_pad3(s: &mut String, n: u64)
    requires
        n < 1000,
    ensures
        final(s)@ == old(s)@ + pad3(n as nat),
{
    if n < 100 {
        push_char(s, '0');
    }
    if n < 10 {
        push_char(s, '0');
    }
    push_decimal(s, n);
    assert(s@ =~= old(s)@ + pad3(n as nat));
}

/// Appends the decimal rendering of a signed number.
pub(crate) fn push_signed(s: &mut String, n: i64)
    ensures
        final(s)@ == old(s)@ + int_digits(n as int),
{
    if n < 0 {
        push_char(s, '-');
        let m: u64 = ((-(n + 1)) as u64) + 1;
        push_decimal(s, m);
    } else {
        push_decimal(s, n as u64);
    }
    assert(s@ =~= old(s)@ + int_digits(n as int));
}

/// Appends a signed number with `{:02}` padding.
pub(crate) fn push_signed_pad2(s: &mut String, n: i64)
    requires
        -100 < n < 100,
    ensures
        final(s)@ == old(s)@ + signed_pad2(n as int),
{
    if 0 <= n && n < 10 {
        push_char(s, '0');
        push_char(s, digit(n as u64));
        assert(s@ =~= old(s)@ + signed_pad2(n as int));
    } else {
        push_signed(s, n);
    }
}

/// The decimal digits of `n` as a new string.
pub(crate) fn decimal(n: u64) -> (r: String)
    ensures
        r@ == nat_digits(n as nat),
{
    let mut r = String::new();
    push_decimal(&mut r, n);
    assert(r@ =~= nat_digits(n as nat));
    r
}

/// Appends every character of `t` to `s`.
pub(crate) fn push_str(s: &mut String, t: &str)
    ensures
        final(s)@ == old(s)@ + t@,
{
    s.append(t);
}

// ─── Text order ──────────────────────────────────────────────────────────────

/// `a` sorts at or before `b`: lexicographic order of characters, a prefix
/// first. For strings this is the order of `String`'s `Ord` (UTF-8 keeps the
/// order of code points).
pub open spec fn text_le(a: Seq<char>, b: Seq<char>) -> bool
    decreases a.len(),
{
    if a.len() == 0 {
        true
    } else if b.len() == 0 {
        false
    } else if a[0] != b[0] {
        a[0] < b[0]
    } else {
        text_le(a.drop_first(), b.drop_first())
    }
}

/// The texts are in ascending order.
pub open spec fn texts_sorted(s: Seq<Seq<char>>) -> bool {
    forall|i: int, j: int| 0 <= i < j < s.len() ==> text_le(#[trigger] s[i], #[trigger] s[j])
}

/// The views of a list of strings.
pub open spec fn string_views(v: Seq<String>) -> Seq<Seq<char>> {
    v.map_values(|s: String| s@)
}

pub proof fn lemma_text_le_total(a: Seq<char>, b: Seq<char>)
    ensures
        text_le(a, b) || text_le(b, a),
    decreases a.len(),
{
    if a.len() > 0 && b.len() > 0 && a[0] == b[0] {
        lemma_text_le_total(a.drop_first(), b.drop_first());
    }
}

pub proof fn lemma_text_le_transitive(a: Seq<char>, b: Seq<char>, c: Seq<char>)
    requires
        text_le(a, b),
        text_le(b, c),
    ensures
        text_le(a, c),
    decreases a.len(),
{
    if a.len() > 0 && b.len() > 0 && c.len() > 0 && a[0] == b[0] && b[0] == c[0] {
        lemma_text_le_transitive(a.drop_first(), b.drop_first(), c.drop_first());
    }
}

/// Comparing after a common prefix of length `i`.
proof fn lemma_text_le_skip(a: Seq<char>, b: Seq<char>, i: int)
    requires
        0 <= i <= a.len(),
        i <= b.len(),
        a.take(i) == b.take(i),
    ensures
        text_le(a, b) == text_le(a.skip(i), b.skip(i)),
    decreases i,
{
    if i > 0 {
        assert(a[0] == a.take(i)[0]);
        assert(b[0] == b.take(i)[0]);
        assert(a.drop_first().take(i - 1) =~= a.take(i).drop_first());
        assert(b.drop_first().take(i - 1) =~= b.take(i).drop_first());
        lemma_text_le_skip(a.drop_first(), b.drop_first(), i - 1);
        assert(a.drop_first().skip(i - 1) =~= a.skip(i));
        assert(b.drop_first().skip(i - 1) =~= b.skip(i));
    } else {
        assert(a.skip(0) =~= a);
        assert(b.skip(0) =~= b);
    }
}

/// Whether `a` sorts at or before `b`.
pub fn text_less_eq(a: &str, b: &str) -> (r: bool)
    ensures
        r == text_le(a@, b@),
{
    let n = a.unicode_len();
    let m = b.unicode_len();
    let mut i: usize = 0;
    while i < n && i < m && a.get_char(i) == b.get_char(i)
        invariant
            n == a@.len(),
            m == b@.len(),
            i <= n,
            i <= m,
            a@.take(i as int) == b@.take(i as int),
        decreases n - i,
    {
        assert(a@.take(i + 1) =~= a@.take(i as int).push(a@[i as int]));
        assert(b@.take(i + 1) =~= b@.take(i as int).push(b@[i as int]));
        i = i + 1;
    }
    proof {
        lemma_text_le_skip(a@, b@, i as int);
    }
    if i == n {
        true
    } else if i == m {
        false
    } else {
        let x = a.get_char(i);
        let y = b.get_char(i);
        assert(a@.skip(i as int)[0] == x);
        assert(b@.skip(i as int)[0] == y);
        x < y
    }
}

/// Sorts strings in ascending order (`Vec::sort` on strings).
pub fn sort_texts(v: Vec<String>) -> (r: Vec<String>)
    ensures
        texts_sorted(string_views(r@)),
        string_views(r@).to_multiset() == string_views(v@).to_multiset(),
{
    broadcast use vstd::seq_lib::group_to_multiset_ensures;
    let mut r: Vec<String> = Vec::new();
    let mut rest = v;
    let ghost all = string_views(rest@);
    // take items from the back of `rest`, inserting each into the sorted `r`
    while rest.len() > 0
        invariant
            texts_sorted(string_views(r@)),
            string_views(r@).to_multiset().add(string_views(rest@).to_multiset()) == all.to_multiset(),
        decreases rest.len(),
    {
        let ghost before = string_views(rest@);
        let x = rest.pop().unwrap();
        assert(before =~= string_views(rest@).push(x@));
        let ghost sorted = string_views(r@);
        let len = r.len();
        let mut p: usize = 0;
        while p < len && text_less_eq(r[p].as_str(), x.as_str())
            invariant
                len == r@.len(),
                p <= len,
                sorted == string_views(r@),
                forall|k: int| 0 <= k < p ==> text_le(#[trigger] sorted[k], x@),
            decreases len - p,
        {
            p = p + 1;
        }
        proof {
            if p < len {
                lemma_text_le_total(sorted[p as int], x@);
            }
        }
        r.insert(p, x);
        proof {
            let after = string_views(r@);
            assert(after =~= sorted.insert(p as int, x@));
            assert forall|a: int, b: int| 0 <= a < b < after.len() implies text_le(
                #[trigger] after[a],
                #[trigger] after[b],
            ) by {
                if b < p {
                    assert(after[a] == sorted[a] && after[b] == sorted[b]);
                } else if b == p {
                    assert(after[a] == sorted[a]);
                } else if a == p {
                    // x sorts before sorted[p] and so before everything after it
                    assert(after[b] == sorted[b - 1]);
                    if b - 1 > p {
                        lemma_text_le_transitive(x@, sorted[p as int], sorted[b - 1]);
                    }
                } else if a < p {
                    assert(after[a] == sorted[a] && after[b] == sorted[b - 1]);
                } else {
                    assert(after[a] == sorted[a - 1] && after[b] == sorted[b - 1]);
                }
            }
            vstd::seq_lib::to_multiset_insert(sorted, p as int, x@);
            vstd::seq_lib::to_multiset_build(string_views(rest@), x@);
            assert(string_views(r@).to_multiset().add(string_views(rest@).to_multiset()) =~= all.to_multiset());
        }
    }
    assert(string_views(rest@) =~= Seq::<Seq<char>>::empty());
    assert(string_views(r@).to_multiset() =~= all.to_multiset());
    r
}

/// Whether two strings hold the same characters.
pub fn text_eq(a: &str, b: &str) -> (r: bool)
    ensures
        r == (a@ == b@),
{
    let n = a.unicode_len();
    let m = b.unicode_len();
    if n != m {
        return false;
    }
    let mut i: usize = 0;
    while i < n
        invariant
            n == a@.len(),
            m == b@.len(),
            n == m,
            i <= n,
            a@.take(i as int) == b@.take(i as int),
        decreases n - i,
    {
        if a.get_char(i) != b.get_char(i) {
            return false;
        }
        assert(a@.take(i + 1) =~= a@.take(i as int).push(a@[i as int]));
        assert(b@.take(i + 1) =~= b@.take(i as int).push(b@[i as int]));
        i = i + 1;
    }
    assert(a@.take(n as int) =~= a@);
    assert(b@.take(n as int) =~= b@);
    true
}

} // verus!
