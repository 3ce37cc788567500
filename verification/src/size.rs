//! Exact parsing of the storage engine's human-readable size strings.
//!
//! A size is a decimal numeral, optionally with a fractional part, followed
//! by an optional binary suffix (`K`, `M`, `G`, `T` with 1024-based
//! multipliers, or `B` for plain bytes). The bare dash and the empty string
//! mean zero. The value is the numeral scaled by the multiplier, truncated
//! toward zero to a whole number of bytes.

use vstd::prelude::*;
use vstd::arithmetic::div_mod::{
    lemma_div_denominator, lemma_hoist_over_denominator, lemma_multiply_divide_lt,
};

verus! {

/// The whitespace characters stripped from both ends of a size string.
pub open spec fn is_space(c: char) -> bool {
    c == ' ' || c == '\t' || c == '\n' || c == '\r'
}

/// A decimal digit.
pub open spec fn is_digit(c: char) -> bool {
    48 <= c as u32 && c as u32 <= 57
}

/// The numeric value of a decimal digit.
pub open spec fn digit_val(c: char) -> nat {
    (c as u32 - 48) as nat
}

/// Every character of the sequence is a decimal digit.
pub open spec fn all_digits(s: Seq<char>) -> bool {
    forall|i: int| 0 <= i < s.len() ==> is_digit(s[i])
}

/// The value of a sequence of decimal digits, most significant first.
pub open spec fn digits_val(s: Seq<char>) -> nat
    decreases s.len(),
{
    if s.len() == 0 {
        0
    } else {
        digits_val(s.drop_last()) * 10 + digit_val(s.last())
    }
}

/// Ten to the given power.
pub open spec fn pow10(n: nat) -> nat
    decreases n,
{
    if n == 0 {
        1
    } else {
        10 * pow10((n - 1) as nat)
    }
}

/// The input with leading whitespace removed.
pub open spec fn trim_front(s: Seq<char>) -> Seq<char>
    decreases s.len(),
{
    if s.len() > 0 && is_space(s[0]) {
        trim_front(s.subrange(1, s.len() as int))
    } else {
        s
    }
}

/// The input with trailing whitespace removed.
pub open spec fn trim_back(s: Seq<char>) -> Seq<char>
    decreases s.len(),
{
    if s.len() > 0 && is_space(s.last()) {
        trim_back(s.drop_last())
    } else {
        s
    }
}

/// The input with whitespace removed from both ends.
pub open spec fn trimmed(s: Seq<char>) -> Seq<char> {
    trim_back(trim_front(s))
}

/// The multiplier a size suffix stands for, if the character is one.
pub open spec fn suffix_multiplier(c: char) -> Option<u64> {
    if c == 'T' {
        Some(1099511627776u64)
    } else if c == 'G' {
        Some(1073741824u64)
    } else if c == 'M' {
        Some(1048576u64)
    } else if c == 'K' {
        Some(1024u64)
    } else if c == 'B' {
        Some(1u64)
    } else {
        None
    }
}

/// The numeral splits at position `k` into an integer part, a dot, and a
/// fractional part, both parts made of digits (possibly empty, but the
/// whole numeral at least two characters long).
pub open spec fn dot_split_at(s: Seq<char>, k: int) -> bool {
    &&& 0 <= k < s.len()
    &&& s.len() >= 2
    &&& s[k] == '.'
    &&& all_digits(s.subrange(0, k))
    &&& all_digits(s.subrange(k + 1, s.len() as int))
}

/// The exact value of a numeral scaled by a multiplier and truncated
/// toward zero, or `None` where the numeral is not well formed.
pub open spec fn numeral_scaled(s: Seq<char>, mult: nat) -> Option<nat> {
    if s.len() > 0 && all_digits(s) {
        Some(digits_val(s) * mult)
    } else if exists|k: int| dot_split_at(s, k) {
        let k = choose|k: int| dot_split_at(s, k);
        let ip = s.subrange(0, k);
        let fp = s.subrange(k + 1, s.len() as int);
        Some(digits_val(ip) * mult + digits_val(fp) * mult / pow10(fp.len()))
    } else {
        None
    }
}

/// A scaled numeral forced into a machine word: values beyond the word are
/// rejected rather than wrapped.
pub open spec fn scaled_or_overflow(s: Seq<char>, mult: u64) -> Option<u64> {
    match numeral_scaled(s, mult as nat) {
        Option::None => None,
        Option::Some(v) => if v > u64::MAX { None } else { Some(v as u64) },
    }
}

/// What `parse_size` returns: the exact byte count of a size string, zero
/// for the dash and the empty string, `None` for anything malformed or too
/// large for a machine word.
pub open spec fn parse_size_spec(s: Seq<char>) -> Option<u64> {
    let t = trimmed(s);
    if t.len() == 0 || t == "-"@ {
        Some(0u64)
    } else if suffix_multiplier(t.last()) is Some {
        scaled_or_overflow(t.drop_last(), suffix_multiplier(t.last()).unwrap())
    } else {
        scaled_or_overflow(t, 1u64)
    }
}

/// Away from the dot, every character of a well-split numeral is a digit.
proof fn lemma_dot_split_digit(s: Seq<char>, k: int, p: int)
    requires
        dot_split_at(s, k),
        0 <= p < s.len(),
        p != k,
    ensures
        is_digit(s[p]),
{
    if p < k {
        assert(s.subrange(0, k)[p] == s[p]);
    } else {
        assert(s.subrange(k + 1, s.len() as int)[p - k - 1] == s[p]);
    }
}

/// A digit string's value is bounded by ten to its length.
proof fn lemma_digits_val_bound(s: Seq<char>)
    requires
        all_digits(s),
    ensures
        digits_val(s) < pow10(s.len()),
    decreases s.len(),
{
    if s.len() > 0 {
        lemma_digits_val_bound(s.drop_last());
        assert(digits_val(s.drop_last()) * 10 + digit_val(s.last()) < pow10(s.len())) by {
            assert(digits_val(s.drop_last()) <= pow10((s.len() - 1) as nat) - 1);
            assert(digit_val(s.last()) <= 9);
            assert((pow10((s.len() - 1) as nat) - 1) * 10 + 9 < pow10((s.len() - 1) as nat) * 10)
                by (nonlinear_arith);
            assert(pow10(s.len()) == 10 * pow10((s.len() - 1) as nat));
        }
    }
}

/// Prepending a digit adds its value at the positional weight.
proof fn lemma_digits_val_cons(d: char, t: Seq<char>)
    ensures
        digits_val(seq![d] + t) == digit_val(d) * pow10(t.len()) + digits_val(t),
    decreases t.len(),
{
    let u = seq![d] + t;
    if t.len() == 0 {
        assert(u =~= seq![d]);
        assert(u.drop_last() =~= Seq::<char>::empty());
        assert(digits_val(Seq::<char>::empty()) == 0);
        assert(u.last() == d);
        assert(digits_val(u) == digits_val(u.drop_last()) * 10 + digit_val(u.last()));
        assert(digit_val(d) * 1 == digit_val(d)) by (nonlinear_arith);
    } else {
        assert(u.drop_last() =~= seq![d] + t.drop_last());
        assert(u.last() == t.last());
        lemma_digits_val_cons(d, t.drop_last());
        let p = pow10((t.len() - 1) as nat);
        assert(digits_val(u) == (digit_val(d) * p + digits_val(t.drop_last())) * 10 + digit_val(
            t.last(),
        ));
        assert((digit_val(d) * p + digits_val(t.drop_last())) * 10 == digit_val(d) * (10 * p)
            + digits_val(t.drop_last()) * 10) by (nonlinear_arith);
        assert(pow10(t.len()) == 10 * p);
    }
}

/// A longer digit prefix never has a smaller value.
proof fn lemma_digits_val_mono(s: Seq<char>, a: int, i: int, j: int)
    requires
        0 <= a <= i <= j <= s.len(),
    ensures
        digits_val(s.subrange(a, j)) >= digits_val(s.subrange(a, i)),
    decreases j - i,
{
    if i < j {
        lemma_digits_val_mono(s, a, i, j - 1);
        let w = s.subrange(a, j);
        assert(w.drop_last() =~= s.subrange(a, j - 1));
        assert(digits_val(w) == digits_val(w.drop_last()) * 10 + digit_val(w.last()));
        assert(digits_val(w.drop_last()) * 10 >= digits_val(w.drop_last()));
    }
}

/// Removing a known run of leading whitespace is what `trim_front` does.
proof fn lemma_trim_front_is_subrange(s: Seq<char>, k: int)
    requires
        0 <= k <= s.len(),
        forall|j: int| 0 <= j < k ==> is_space(s[j]),
        k == s.len() || !is_space(s[k]),
    ensures
        trim_front(s) == s.subrange(k, s.len() as int),
    decreases k,
{
    if k == 0 {
        if s.len() > 0 && is_space(s[0]) {
            assert(false);
        }
        assert(s.subrange(0, s.len() as int) =~= s);
    } else {
        let s1 = s.subrange(1, s.len() as int);
        lemma_trim_front_is_subrange(s1, k - 1);
        assert(s1.subrange(k - 1, s1.len() as int) =~= s.subrange(k, s.len() as int));
    }
}

/// Removing a known run of trailing whitespace is what `trim_back` does.
proof fn lemma_trim_back_is_subrange(s: Seq<char>, e: int)
    requires
        0 <= e <= s.len(),
        forall|j: int| e <= j < s.len() ==> is_space(s[j]),
        e == 0 || !is_space(s[e - 1]),
    ensures
        trim_back(s) == s.subrange(0, e),
    decreases s.len() - e,
{
    if e == s.len() {
        if s.len() > 0 && is_space(s.last()) {
            assert(false);
        }
        assert(s.subrange(0, e) =~= s);
    } else {
        let s1 = s.drop_last();
        lemma_trim_back_is_subrange(s1, e);
        assert(s1.subrange(0, e) =~= s.subrange(0, e));
    }
}

/// One step of scaling a fractional digit string from the left: the whole
/// scaled fraction is the first digit's contribution plus the scaled rest,
/// divided by ten.
proof fn lemma_frac_step(s: Seq<char>, mult: nat)
    requires
        s.len() > 0,
        mult >= 1,
    ensures
        digits_val(s) * mult / pow10(s.len()) == (digit_val(s[0]) * mult + digits_val(
            s.drop_first(),
        ) * mult / pow10((s.len() - 1) as nat)) / 10,
{
    let t = s.drop_first();
    let d = digit_val(s[0]);
    let p = pow10(t.len());
    assert(p >= 1) by {
        lemma_pow10_positive(t.len());
    }
    assert(s =~= seq![s[0]] + t);
    lemma_digits_val_cons(s[0], t);
    assert(digits_val(s) == d * p + digits_val(t));
    let x = (digits_val(t) * mult) as int;
    let j = (d * mult) as int;
    lemma_hoist_over_denominator(x, j, p);
    assert(x / p as int + j == (x + j * p) / p as int);
    lemma_div_denominator(x + j * p, p as int, 10);
    assert(((x + j * p) / p as int) / 10 == (x + j * p) / (p as int * 10));
    assert(digits_val(s) * mult == x + j * p) by (nonlinear_arith)
        requires
            digits_val(s) == d * p + digits_val(t),
            x == digits_val(t) * mult,
            j == d * mult,
    ;
    assert(pow10(s.len()) == 10 * p);
}

/// Ten to any power is positive.
proof fn lemma_pow10_positive(n: nat)
    ensures
        pow10(n) >= 1,
    decreases n,
{
    if n > 0 {
        lemma_pow10_positive((n - 1) as nat);
    }
}

/// A scaled fraction is smaller than the multiplier.
proof fn lemma_frac_scaled_bound(s: Seq<char>, mult: nat)
    requires
        all_digits(s),
        mult >= 1,
    ensures
        digits_val(s) * mult / pow10(s.len()) < mult,
{
    lemma_digits_val_bound(s);
    lemma_pow10_positive(s.len());
    let p = pow10(s.len());
    assert(digits_val(s) * mult < p * mult) by (nonlinear_arith)
        requires
            digits_val(s) < p,
            mult >= 1,
    ;
    lemma_multiply_divide_lt((digits_val(s) * mult) as int, p as int, mult as int);
}

/// The value of a string of digits, or `None` where it exceeds a machine
/// word.
fn int_digits_value(s: &str) -> (r: Option<u64>)
    requires
        all_digits(s@),
    ensures
        r is Some <==> digits_val(s@) <= u64::MAX,
        r matches Some(v) ==> v as nat == digits_val(s@),
{
    let n = s.unicode_len();
    let mut i: usize = 0;
    let mut acc: u128 = 0;
    while i < n
        invariant
            i <= n,
            n == s@.len(),
            all_digits(s@),
            acc as nat == digits_val(s@.subrange(0, i as int)),
            acc <= u64::MAX as u128,
        decreases n - i,
    {
        let c = s.get_char(i);
        assert(is_digit(c));
        let d = (c as u32 - 48) as u128;
        proof {
            assert(s@.subrange(0, i + 1).drop_last() =~= s@.subrange(0, i as int));
            assert(s@.subrange(0, i + 1).last() == s@[i as int]);
        }
        acc = acc * 10 + d;
        i += 1;
        if acc > u64::MAX as u128 {
            proof {
                lemma_digits_val_mono(s@, 0, i as int, n as int);
                assert(s@.subrange(0, n as int) =~= s@);
            }
            return None;
        }
    }
    proof {
        assert(s@.subrange(0, n as int) =~= s@);
    }
    Some(acc as u64)
}

/// The fractional digits scaled by the multiplier and truncated: exactly
/// `digits * mult / 10^len`.
fn frac_digits_scaled(s: &str, mult: u64) -> (r: u64)
    requires
        all_digits(s@),
        1 <= mult <= 1099511627776,
    ensures
        r as nat == digits_val(s@) * mult as nat / pow10(s@.len()),
        r < mult,
{
    let n = s.unicode_len();
    let mut k = n;
    let mut racc: u64 = 0;
    proof {
        assert(s@.subrange(n as int, n as int) =~= Seq::<char>::empty());
    }
    while k > 0
        invariant
            k <= n,
            n == s@.len(),
            all_digits(s@),
            1 <= mult <= 1099511627776,
            racc as nat == digits_val(s@.subrange(k as int, n as int)) * mult as nat / pow10(
                (n - k) as nat,
            ),
            racc < mult,
        decreases k,
    {
        let c = s.get_char(k - 1);
        assert(is_digit(c));
        let d = (c as u32 - 48) as u64;
        proof {
            let u = s@.subrange(k - 1, n as int);
            assert(u[0] == s@[k - 1]);
            assert(u.drop_first() =~= s@.subrange(k as int, n as int));
            lemma_frac_step(u, mult as nat);
            lemma_frac_scaled_bound(u, mult as nat);
            assert(d * mult <= 9 * mult) by (nonlinear_arith)
                requires
                    d <= 9,
            ;
        }
        racc = (d * mult + racc) / 10;
        k = k - 1;
    }
    proof {
        assert(s@.subrange(0, n as int) =~= s@);
    }
    racc
}

/// The index of the first non-whitespace character, or the length.
fn first_non_space(s: &str) -> (r: usize)
    ensures
        r <= s@.len(),
        forall|j: int| 0 <= j < r ==> is_space(s@[j]),
        r < s@.len() ==> !is_space(s@[r as int]),
{
    let n = s.unicode_len();
    let mut i: usize = 0;
    while i < n
        invariant
            i <= n,
            n == s@.len(),
            forall|j: int| 0 <= j < i ==> is_space(s@[j]),
        decreases n - i,
    {
        let c = s.get_char(i);
        if !(c == ' ' || c == '\t' || c == '\n' || c == '\r') {
            return i;
        }
        i += 1;
    }
    n
}

/// The end of the last non-whitespace run at or after `start`.
fn last_non_space_end(s: &str, start: usize) -> (r: usize)
    requires
        start <= s@.len(),
    ensures
        start <= r <= s@.len(),
        forall|j: int| r <= j < s@.len() ==> is_space(s@[j]),
        r > start ==> !is_space(s@[r - 1]),
{
    let n = s.unicode_len();
    let mut e = n;
    while e > start
        invariant
            start <= e <= n,
            n == s@.len(),
            forall|j: int| e <= j < n ==> is_space(s@[j]),
        decreases e,
    {
        let c = s.get_char(e - 1);
        if !(c == ' ' || c == '\t' || c == '\n' || c == '\r') {
            return e;
        }
        e -= 1;
    }
    start
}

/// The multiplier a size suffix stands for, if the character is one.
fn suffix_mult(c: char) -> (r: Option<u64>)
    ensures
        r == suffix_multiplier(c),
{
    if c == 'T' {
        Some(1099511627776u64)
    } else if c == 'G' {
        Some(1073741824u64)
    } else if c == 'M' {
        Some(1048576u64)
    } else if c == 'K' {
        Some(1024u64)
    } else if c == 'B' {
        Some(1u64)
    } else {
        None
    }
}

/// A numeral scaled by a multiplier, truncated toward zero; `None` where
/// the numeral is malformed or the value exceeds a machine word.
fn numeral_scaled_exec(num: &str, mult: u64) -> (r: Option<u64>)
    requires
        1 <= mult <= 1099511627776,
    ensures
        r == scaled_or_overflow(num@, mult),
{
    let n = num.unicode_len();
    let mut dot: Option<usize> = None;
    let mut i: usize = 0;
    while i < n
        invariant
            i <= n,
            n == num@.len(),
            dot matches Some(k) ==> k < i && num@[k as int] == '.' && (forall|j: int|
                0 <= j < i && j != k ==> is_digit(num@[j])),
            dot is None ==> (forall|j: int| 0 <= j < i ==> is_digit(num@[j])),
        decreases n - i,
    {
        let c = num.get_char(i);
        let cu = c as u32;
        if 48 <= cu && cu <= 57 {
            // a digit
        } else if c == '.' && dot.is_none() {
            dot = Some(i);
        } else {
            proof {
                assert(!is_digit(num@[i as int]));
                assert(!all_digits(num@));
                assert forall|k: int| !dot_split_at(num@, k) by {
                    if dot_split_at(num@, k) {
                        if k == i as int {
                            // the character here is a dot, so a dot was seen before
                            assert(num@[i as int] == '.');
                            if let Some(k0) = dot {
                                lemma_dot_split_digit(num@, k, k0 as int);
                            } else {
                                assert(false);
                            }
                        } else {
                            lemma_dot_split_digit(num@, k, i as int);
                        }
                    }
                }
            }
            return None;
        }
        i += 1;
    }
    match dot {
        None => {
            if n == 0 {
                proof {
                    assert(forall|k: int| !dot_split_at(num@, k));
                }
                return None;
            }
            assert(all_digits(num@));
            match int_digits_value(num) {
                None => {
                    proof {
                        assert(digits_val(num@) * mult as nat >= digits_val(num@) * 1)
                            by (nonlinear_arith)
                            requires
                                mult >= 1,
                        ;
                    }
                    None
                },
                Some(v) => {
                    proof {
                        assert(v as nat * mult as nat <= 0xffffffffffffffff
                            * 1099511627776) by (nonlinear_arith)
                            requires
                                v <= 0xffffffffffffffffu64,
                                mult <= 1099511627776u64,
                        ;
                    }
                    let wide = (v as u128) * (mult as u128);
                    if wide > u64::MAX as u128 {
                        None
                    } else {
                        Some(wide as u64)
                    }
                },
            }
        },
        Some(k) => {
            if n < 2 {
                proof {
                    assert(!all_digits(num@));
                    assert(forall|k2: int| !dot_split_at(num@, k2));
                }
                return None;
            }
            proof {
                assert(dot_split_at(num@, k as int));
                assert(!is_digit(num@[k as int]));
                assert(!all_digits(num@));
                assert forall|k2: int| dot_split_at(num@, k2) implies k2 == k as int by {
                    if k2 < k {
                        assert(is_digit(num@[k2]));
                    } else if k2 > k {
                        assert(all_digits(num@.subrange(0, k2)));
                        assert(num@.subrange(0, k2)[k as int] == num@[k as int]);
                    }
                }
                assert((choose|k2: int| dot_split_at(num@, k2)) == k as int) by {
                    let kc = choose|k2: int| dot_split_at(num@, k2);
                    assert(dot_split_at(num@, kc));
                }
            }
            let ip = num.substring_char(0, k);
            let fp = num.substring_char(k + 1, n);
            proof {
                assert(ip@ =~= num@.subrange(0, k as int));
                assert(fp@ =~= num@.subrange(k + 1, n as int));
            }
            match int_digits_value(ip) {
                None => {
                    proof {
                        let fps = num@.subrange(k + 1, num@.len() as int);
                        lemma_pow10_positive(fps.len());
                        assert(digits_val(ip@) * mult as nat >= digits_val(ip@) * 1)
                            by (nonlinear_arith)
                            requires
                                mult >= 1,
                        ;
                    }
                    None
                },
                Some(v) => {
                    let frac = frac_digits_scaled(fp, mult);
                    proof {
                        assert(v as nat * mult as nat <= 0xffffffffffffffff
                            * 1099511627776) by (nonlinear_arith)
                            requires
                                v <= 0xffffffffffffffffu64,
                                mult <= 1099511627776u64,
                        ;
                    }
                    let wide = (v as u128) * (mult as u128) + (frac as u128);
                    proof {
                        let kc = choose|k2: int| dot_split_at(num@, k2);
                        assert(kc == k as int);
                        assert(digits_val(ip@) == v as nat);
                        assert(frac as nat == digits_val(fp@) * mult as nat / pow10(fp@.len()));
                        assert(wide as nat == digits_val(ip@) * mult as nat + digits_val(fp@)
                            * mult as nat / pow10(fp@.len()));
                        assert(numeral_scaled(num@, mult as nat) == Some(wide as nat));
                    }
                    if wide > u64::MAX as u128 {
                        None
                    } else {
                        Some(wide as u64)
                    }
                },
            }
        },
    }
}

/// Parse a size string like `1.5G`, `500M`, `10K` to an exact byte count.
///
/// The dash and the empty string (after trimming whitespace) parse to
/// zero. Returns `None` for a malformed numeral or a value that does not
/// fit a machine word.
pub fn parse_size(s: &str) -> (r: Option<u64>)
    ensures
        r == parse_size_spec(s@),
{
    let n = s.unicode_len();
    let start = first_non_space(s);
    let end = last_non_space_end(s, start);
    let t = s.substring_char(start, end);
    proof {
        lemma_trim_front_is_subrange(s@, start as int);
        let t1 = s@.subrange(start as int, n as int);
        lemma_trim_back_is_subrange(t1, end - start);
        assert(t1.subrange(0, end - start) =~= s@.subrange(start as int, end as int));
        assert(trimmed(s@) == t@);
    }
    let tn = end - start;
    if tn == 0 {
        return Some(0);
    }
    let lastc = t.get_char(tn - 1);
    proof {
        reveal_strlit("-");
    }
    if tn == 1 && lastc == '-' {
        proof {
            assert(t@ =~= "-"@);
        }
        return Some(0);
    }
    proof {
        if t@ == "-"@ {
            assert(t@.len() == 1 && t@[0] == '-');
            assert(false);
        }
    }
    match suffix_mult(lastc) {
        Some(m) => {
            let num = t.substring_char(0, tn - 1);
            proof {
                assert(num@ =~= t@.drop_last());
            }
            numeral_scaled_exec(num, m)
        },
        None => numeral_scaled_exec(t, 1),
    }
}

} // verus!
