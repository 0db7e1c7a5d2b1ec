//! Decimal rendering and parsing of unsigned 32-bit values, with the
//! round-trip law that parsing a rendered number yields the number
//! back.

use vstd::prelude::*;
use crate::strutil::push_char;

verus! {

/// A decimal digit character.
pub open spec fn is_digit(c: char) -> bool {
    '0' <= c && c <= '9'
}

/// The value of a decimal digit character.
pub open spec fn digit_val(c: char) -> nat {
    (((c as int) - ('0' as int)) as nat)
}

/// The digit character of a value below ten.
pub open spec fn digit_char(d: nat) -> char {
    if d == 0 { '0' }
    else if d == 1 { '1' }
    else if d == 2 { '2' }
    else if d == 3 { '3' }
    else if d == 4 { '4' }
    else if d == 5 { '5' }
    else if d == 6 { '6' }
    else if d == 7 { '7' }
    else if d == 8 { '8' }
    else { '9' }
}

/// The decimal rendering of a number, most significant digit first,
/// without a sign and without leading zeros (zero renders as `0`).
pub open spec fn spec_dec(n: nat) -> Seq<char>
    decreases n,
{
    if n < 10 {
        seq![digit_char(n)]
    } else {
        spec_dec(n / 10) + seq![digit_char(n % 10)]
    }
}

/// Every character of a rendering is a digit, its value matches, and
/// the rendering is never empty.
pub proof fn lemma_spec_dec_digits(n: nat)
    ensures
        spec_dec(n).len() >= 1,
        forall|k: int| 0 <= k < spec_dec(n).len() ==> is_digit(#[trigger] spec_dec(n)[k]),
    decreases n,
{
    if n < 10 {
        assert(is_digit(digit_char(n)));
        assert(spec_dec(n)[0] == digit_char(n));
    } else {
        lemma_spec_dec_digits(n / 10);
        assert forall|k: int| 0 <= k < spec_dec(n).len() implies is_digit(
            #[trigger] spec_dec(n)[k],
        ) by {
            if k < spec_dec(n / 10).len() {
                assert(spec_dec(n)[k] == spec_dec(n / 10)[k]);
            } else {
                assert(spec_dec(n)[k] == digit_char(n % 10));
                assert(is_digit(digit_char(n % 10)));
            }
        }
    }
}

/// Folding decimal digits from the left onto an accumulator.
pub open spec fn dec_fold(s: Seq<char>, acc: nat) -> nat
    decreases s.len(),
{
    if s.len() == 0 {
        acc
    } else {
        dec_fold(s.drop_first(), acc * 10 + digit_val(s[0]))
    }
}

/// Folding a single digit character.
pub proof fn lemma_dec_fold_singleton(c: char, acc: nat)
    ensures
        dec_fold(seq![c], acc) == acc * 10 + digit_val(c),
{
    let b = seq![c];
    assert(b.drop_first() =~= Seq::<char>::empty());
    assert(dec_fold(b, acc) == dec_fold(b.drop_first(), acc * 10 + digit_val(b[0])));
    assert(dec_fold(Seq::<char>::empty(), acc * 10 + digit_val(c)) == acc * 10 + digit_val(c));
}

/// Folding a concatenation folds the parts in order.
pub proof fn lemma_dec_fold_concat(a: Seq<char>, b: Seq<char>, acc: nat)
    ensures
        dec_fold(a + b, acc) == dec_fold(b, dec_fold(a, acc)),
    decreases a.len(),
{
    if a.len() == 0 {
        assert(a + b =~= b);
    } else {
        assert((a + b).drop_first() =~= a.drop_first() + b);
        lemma_dec_fold_concat(a.drop_first(), b, acc * 10 + digit_val(a[0]));
    }
}

/// Folding the rendering of `n` onto `acc` gives `acc` shifted past
/// the rendering plus `n`.
pub proof fn lemma_dec_fold_of_dec(n: nat, acc: nat)
    ensures
        dec_fold(spec_dec(n), acc) == acc * pow10(spec_dec(n).len() as nat) + n,
    decreases n,
{
    if n < 10 {
        assert(spec_dec(n) == seq![digit_char(n)]);
        lemma_dec_fold_singleton(digit_char(n), acc);
        assert(digit_val(digit_char(n)) == n);
        assert(spec_dec(n).len() == 1);
        assert(pow10(0) == 1);
        assert(pow10(1) == pow10(0) * 10);
        assert(acc * pow10(1) == acc * 10) by (nonlinear_arith)
            requires pow10(1) == 10;
    } else {
        lemma_dec_fold_of_dec(n / 10, acc);
        let a = spec_dec(n / 10);
        let b = seq![digit_char(n % 10)];
        lemma_dec_fold_concat(a, b, acc);
        assert(dec_fold(a, acc) == acc * pow10(a.len() as nat) + n / 10);
        lemma_dec_fold_singleton(digit_char(n % 10), dec_fold(a, acc));
        assert(digit_val(digit_char(n % 10)) == n % 10);
        assert(dec_fold(b, dec_fold(a, acc)) == (acc * pow10(a.len() as nat) + n / 10) * 10 + n
            % 10);
        assert((acc * pow10(a.len() as nat) + n / 10) * 10 + n % 10 == acc * (pow10(
            a.len() as nat,
        ) * 10) + ((n / 10) * 10 + n % 10)) by (nonlinear_arith);
        assert(pow10(a.len() as nat + 1) == pow10(a.len() as nat) * 10);
        assert(spec_dec(n).len() == a.len() + 1);
        assert(dec_fold(spec_dec(n), acc) == dec_fold(b, dec_fold(a, acc)));
    }
}

/// Powers of ten.
pub open spec fn pow10(k: nat) -> nat
    decreases k,
{
    if k == 0 {
        1
    } else {
        pow10((k - 1) as nat) * 10
    }
}

/// Folding the rendering of `n` from an empty accumulator gives `n`.
pub proof fn lemma_dec_fold_identity(n: nat)
    ensures
        dec_fold(spec_dec(n), 0) == n,
{
    lemma_dec_fold_of_dec(n, 0);
}

/// The end of the digit run beginning at `i`.
pub open spec fn digit_run_end(t: Seq<char>, i: int) -> int
    decreases t.len() - i,
{
    if 0 <= i < t.len() && is_digit(t[i]) {
        digit_run_end(t, i + 1)
    } else {
        i
    }
}

/// Parse an unsigned decimal number at position `i`: the whole digit
/// run is consumed; `None` when no digit stands at `i` or the value
/// leaves the 64-bit range.
pub open spec fn sp_parse_u64(t: Seq<char>, i: int) -> Option<(u64, int)> {
    let j = digit_run_end(t, i);
    if i < j && dec_fold(t.subrange(i, j), 0) <= u64::MAX {
        Some((dec_fold(t.subrange(i, j), 0) as u64, j))
    } else {
        None
    }
}

/// Characterizes the digit run: all digits up to the end, then either
/// the input's end or a non-digit.
pub proof fn lemma_digit_run(t: Seq<char>, i: int, j: int)
    requires
        0 <= i <= j <= t.len(),
        forall|k: int| i <= k < j ==> is_digit(#[trigger] t[k]),
        j == t.len() || !is_digit(t[j]),
    ensures
        digit_run_end(t, i) == j,
    decreases j - i,
{
    if i < j {
        lemma_digit_run(t, i + 1, j);
    }
}

/// Parsing the rendering of a 64-bit number, when what follows it is
/// not a digit, yields exactly that number and stops right after it.
pub proof fn lemma_parse_dec_inversion_u64(n: u64, t: Seq<char>, i: int)
    requires
        0 <= i,
        i + spec_dec(n as nat).len() <= t.len(),
        t.subrange(i, i + spec_dec(n as nat).len() as int) == spec_dec(n as nat),
        i + spec_dec(n as nat).len() == t.len() || !is_digit(
            t[i + spec_dec(n as nat).len() as int],
        ),
    ensures
        sp_parse_u64(t, i) == Some((n, i + spec_dec(n as nat).len() as int)),
{
    let d = spec_dec(n as nat);
    let j = i + d.len() as int;
    lemma_spec_dec_digits(n as nat);
    assert forall|k: int| i <= k < j implies is_digit(#[trigger] t[k]) by {
        assert(t[k] == d[k - i]);
    }
    lemma_digit_run(t, i, j);
    assert(t.subrange(i, j) == d);
    lemma_dec_fold_identity(n as nat);
}

/// Append the decimal rendering of a number to a string.
pub fn append_dec(out: &mut String, n: u64)
    ensures
        final(out)@ == old(out)@ + spec_dec(n as nat),
    decreases n,
{
    if n < 10 {
        let d = digit_char_of(n);
        push_char(out, d);
        proof {
            assert(old(out)@.push(digit_char(n as nat)) =~= old(out)@ + spec_dec(n as nat));
        }
    } else {
        append_dec(out, n / 10);
        let d = digit_char_of(n % 10);
        push_char(out, d);
        proof {
            assert((old(out)@ + spec_dec((n / 10) as nat)).push(digit_char((n % 10) as nat))
                =~= old(out)@ + spec_dec(n as nat));
        }
    }
}

/// The digit character of a value below ten.
fn digit_char_of(d: u64) -> (r: char)
    requires
        d < 10,
    ensures
        r == digit_char(d as nat),
{
    if d == 0 { '0' }
    else if d == 1 { '1' }
    else if d == 2 { '2' }
    else if d == 3 { '3' }
    else if d == 4 { '4' }
    else if d == 5 { '5' }
    else if d == 6 { '6' }
    else if d == 7 { '7' }
    else { if d == 8 { '8' } else { '9' } }
}

/// Parse an unsigned decimal number in a character vector at `start`,
/// following `sp_parse_u64` exactly.
pub fn parse_u64(t: &Vec<char>, start: usize) -> (r: Option<(u64, usize)>)
    requires
        start <= t@.len(),
    ensures
        match r {
            Some((n, j)) => sp_parse_u64(t@, start as int) == Some((n, j as int)) && start < j
                <= t@.len(),
            None => sp_parse_u64(t@, start as int) is None,
        },
{
    let n = t.len();
    let mut i: usize = start;
    let mut acc: u64 = 0;
    while i < n
        invariant
            start <= i <= n,
            n == t@.len(),
            digit_run_end(t@, start as int) == digit_run_end(t@, i as int),
            forall|k: int| start <= k < i ==> is_digit(#[trigger] t@[k]),
            dec_fold(t@.subrange(start as int, i as int), 0) == acc,
            acc <= u64::MAX,
        decreases n - i,
    {
        let c = t[i];
        if !('0' <= c && c <= '9') {
            proof {
                assert(!is_digit(t@[i as int]));
                assert(digit_run_end(t@, i as int) == i as int);
            }
            if i == start {
                return None;
            }
            proof {
                assert(t@.subrange(start as int, i as int) == t@.subrange(
                    start as int,
                    digit_run_end(t@, start as int),
                ));
            }
            return Some((acc, i));
        }
        let d = ((c as u32) - ('0' as u32)) as u64;
        proof {
            assert(is_digit(t@[i as int]));
            assert(d == digit_val(t@[i as int]));
        }
        if acc > (0xFFFF_FFFF_FFFF_FFFFu64 - d) / 10 {
            proof {
                assert(acc * 10 + d > 0xFFFF_FFFF_FFFF_FFFFnat) by (nonlinear_arith)
                    requires acc > (0xFFFF_FFFF_FFFF_FFFFu64 - d) / 10 && d < 10;
                lemma_fold_prefix_overflow(t@, start as int, i as int, acc as nat);
            }
            return None;
        }
        proof {
            assert(acc * 10 + d <= 0xFFFF_FFFF_FFFF_FFFFnat) by (nonlinear_arith)
                requires acc <= (0xFFFF_FFFF_FFFF_FFFFu64 - d) / 10 && d < 10;
            lemma_fold_step(t@, start as int, i as int, acc as nat);
        }
        acc = acc * 10 + d;
        i = i + 1;
    }
    proof {
        assert(digit_run_end(t@, i as int) == i as int);
    }
    if i == start {
        return None;
    }
    proof {
        assert(t@.subrange(start as int, i as int) == t@.subrange(
            start as int,
            digit_run_end(t@, start as int),
        ));
    }
    Some((acc, i))
}

/// One folding step: extending the folded prefix by one digit.
proof fn lemma_fold_step(t: Seq<char>, start: int, i: int, acc: nat)
    requires
        0 <= start <= i < t.len(),
        is_digit(t[i]),
        dec_fold(t.subrange(start, i), 0) == acc,
    ensures
        dec_fold(t.subrange(start, i + 1), 0) == acc * 10 + digit_val(t[i]),
{
    let a = t.subrange(start, i);
    let b = seq![t[i]];
    assert(t.subrange(start, i + 1) =~= a + b);
    lemma_dec_fold_concat(a, b, 0);
    lemma_dec_fold_singleton(t[i], acc);
}

/// Once a folded prefix leaves the 32-bit range, the whole digit run's
/// value does too.
proof fn lemma_fold_prefix_overflow(t: Seq<char>, start: int, i: int, acc: nat)
    requires
        0 <= start <= i < t.len(),
        forall|k: int| start <= k < i ==> is_digit(#[trigger] t[k]),
        is_digit(t[i]),
        dec_fold(t.subrange(start, i), 0) == acc,
        acc * 10 + digit_val(t[i]) > 0xFFFF_FFFF_FFFF_FFFFnat,
    ensures
        sp_parse_u64(t, start) is None,
{
    let j = digit_run_end(t, start);
    lemma_run_covers(t, start, i);
    lemma_run_end_ge(t, start);
    assert(i < j <= t.len());
    let a = t.subrange(start, i + 1);
    let b = t.subrange(i + 1, j);
    assert(t.subrange(start, j) =~= a + b);
    lemma_dec_fold_concat(a, b, 0);
    lemma_fold_step(t, start, i, acc);
    assert(dec_fold(a, 0) == acc * 10 + digit_val(t[i]));
    lemma_fold_monotone(b, dec_fold(a, 0));
}

/// The end of a digit run lies between its start and the input's end.
proof fn lemma_run_end_ge(t: Seq<char>, i: int)
    requires
        0 <= i <= t.len(),
    ensures
        i <= digit_run_end(t, i) <= t.len(),
    decreases t.len() - i,
{
    if i < t.len() && is_digit(t[i]) {
        lemma_run_end_ge(t, i + 1);
    }
}

/// A digit at a position at or past `start` within the run extends the
/// run past it.
proof fn lemma_run_covers(t: Seq<char>, start: int, i: int)
    requires
        0 <= start <= i < t.len(),
        forall|k: int| start <= k < i ==> is_digit(#[trigger] t[k]),
        is_digit(t[i]),
    ensures
        digit_run_end(t, start) > i,
    decreases i - start,
{
    if start < i {
        lemma_run_covers(t, start + 1, i);
    } else {
        lemma_run_end_ge(t, start + 1);
    }
}

/// Folding never decreases the accumulator.
proof fn lemma_fold_monotone(s: Seq<char>, acc: nat)
    ensures
        dec_fold(s, acc) >= acc,
    decreases s.len(),
{
    if s.len() > 0 {
        lemma_fold_monotone(s.drop_first(), acc * 10 + digit_val(s[0]));
        assert(acc * 10 + digit_val(s[0]) >= acc) by (nonlinear_arith);
    }
}

/// Parse an unsigned decimal number that must fit 32 bits.
pub open spec fn sp_parse_u32(t: Seq<char>, i: int) -> Option<(u32, int)> {
    match sp_parse_u64(t, i) {
        Some((v, j)) => if v <= u32::MAX {
            Some((v as u32, j))
        } else {
            None
        },
        None => None,
    }
}

/// Parse an unsigned decimal number in a character vector at `start`,
/// following `sp_parse_u32` exactly.
pub fn parse_u32(t: &Vec<char>, start: usize) -> (r: Option<(u32, usize)>)
    requires
        start <= t@.len(),
    ensures
        match r {
            Some((n, j)) => sp_parse_u32(t@, start as int) == Some((n, j as int)) && start < j
                <= t@.len(),
            None => sp_parse_u32(t@, start as int) is None,
        },
{
    match parse_u64(t, start) {
        Some((v, j)) => if v <= 0xFFFF_FFFFu64 {
            Some((v as u32, j))
        } else {
            None
        },
        None => None,
    }
}

/// The 32-bit form of the parse inversion law.
pub proof fn lemma_parse_dec_inversion(n: u32, t: Seq<char>, i: int)
    requires
        0 <= i,
        i + spec_dec(n as nat).len() <= t.len(),
        t.subrange(i, i + spec_dec(n as nat).len() as int) == spec_dec(n as nat),
        i + spec_dec(n as nat).len() == t.len() || !is_digit(
            t[i + spec_dec(n as nat).len() as int],
        ),
    ensures
        sp_parse_u32(t, i) == Some((n, i + spec_dec(n as nat).len() as int)),
{
    lemma_parse_dec_inversion_u64(n as u64, t, i);
}

} // verus!
