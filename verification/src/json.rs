//! The small slice of JSON that the status exchange needs: string escaping,
//! decimal integers, and fixed template text, each with an exec writer, an
//! exec parser, and the lemmas that make the parsers invert the writers.

use vstd::prelude::*;
use vstd::arithmetic::div_mod::lemma_fundamental_div_mod;

verus! {

/// Text that can stand inside a JSON string here: no control bytes.
/// (Quotes and backslashes are fine; they get escaped.)
pub open spec fn valid_text(s: Seq<u8>) -> bool {
    forall|i: int| 0 <= i < s.len() ==> s[i] >= 32
}

/// How one byte appears inside a JSON string: quote and backslash get a
/// backslash prefix, everything else stands as itself.
pub open spec fn spec_escape_byte(b: u8) -> Seq<u8> {
    if b == 34 {
        seq![92u8, 34u8]
    } else if b == 92 {
        seq![92u8, 92u8]
    } else {
        seq![b]
    }
}

/// A whole text, escaped.
pub open spec fn spec_escape(s: Seq<u8>) -> Seq<u8>
    decreases s.len(),
{
    if s.len() == 0 {
        Seq::empty()
    } else {
        spec_escape_byte(s[0]) + spec_escape(s.skip(1))
    }
}

pub proof fn lemma_escape_concat(a: Seq<u8>, b: Seq<u8>)
    ensures
        spec_escape(a + b) == spec_escape(a) + spec_escape(b),
    decreases a.len(),
{
    if a.len() == 0 {
        assert(a + b =~= b);
        assert(spec_escape(a) + spec_escape(b) =~= spec_escape(b));
    } else {
        assert((a + b).skip(1) =~= a.skip(1) + b);
        assert((a + b)[0] == a[0]);
        lemma_escape_concat(a.skip(1), b);
        assert((spec_escape_byte(a[0]) + spec_escape(a.skip(1))) + spec_escape(b)
            =~= spec_escape_byte(a[0]) + (spec_escape(a.skip(1)) + spec_escape(b)));
    }
}

pub proof fn lemma_escape_len(s: Seq<u8>)
    ensures
        s.len() <= spec_escape(s).len() <= 2 * s.len(),
    decreases s.len(),
{
    if s.len() > 0 {
        lemma_escape_len(s.skip(1));
    }
}

/// Append the escaped form of `s` to `out`.
pub fn push_escaped(out: &mut Vec<u8>, s: &[u8])
    ensures
        final(out)@ == old(out)@ + spec_escape(s@),
{
    let mut i: usize = 0;
    proof {
        assert(s@.take(0) =~= Seq::<u8>::empty());
        assert(old(out)@ + Seq::<u8>::empty() =~= old(out)@);
    }
    while i < s.len()
        invariant
            i <= s@.len(),
            out@ == old(out)@ + spec_escape(s@.take(i as int)),
        decreases s@.len() - i,
    {
        let b = s[i];
        proof {
            let pre = s@.take(i as int);
            assert(s@.take(i as int + 1) =~= pre + seq![s@[i as int]]);
            lemma_escape_concat(pre, seq![s@[i as int]]);
            assert(seq![s@[i as int]].skip(1) =~= Seq::<u8>::empty());
            assert(spec_escape(Seq::<u8>::empty()) =~= Seq::<u8>::empty());
            assert(spec_escape(seq![s@[i as int]])
                =~= spec_escape_byte(s@[i as int]));
        }
        if b == 34 {
            out.push(92);
            out.push(34);
        } else if b == 92 {
            out.push(92);
            out.push(92);
        } else {
            out.push(b);
        }
        proof {
            assert(out@ =~= old(out)@ + spec_escape(s@.take(i as int + 1)));
        }
        i = i + 1;
    }
    proof {
        assert(s@.take(s@.len() as int) =~= s@);
    }
}

/// The decimal digits of `n`, most significant first.
pub open spec fn dec_rep(n: nat) -> Seq<u8>
    decreases n,
{
    if n < 10 {
        seq![(48 + n) as u8]
    } else {
        dec_rep(n / 10) + seq![(48 + n % 10) as u8]
    }
}

/// The decimal text of a (possibly negative) integer.
pub open spec fn int_rep(n: int) -> Seq<u8> {
    if n >= 0 {
        dec_rep(n as nat)
    } else {
        seq![45u8] + dec_rep((-n) as nat)
    }
}

/// 10^k.
pub open spec fn pow10(k: int) -> int
    decreases k,
{
    if k <= 0 {
        1
    } else {
        10 * pow10(k - 1)
    }
}

/// A value below 10^k prints in at most k digits.
pub proof fn lemma_dec_rep_len_bound(n: nat, k: int)
    requires
        1 <= k,
        n < pow10(k),
    ensures
        1 <= dec_rep(n).len() <= k,
    decreases n,
{
    if n >= 10 {
        lemma_fundamental_div_mod(n as int, 10);
        assert(pow10(k) == 10 * pow10(k - 1));
        assert(((n / 10) as int) < pow10(k - 1));
        lemma_dec_rep_len_bound(n / 10, k - 1);
    }
}

/// Any 32-bit pattern prints in at most 10 digits (11 bytes signed).
pub proof fn lemma_dec_rep_len(n: nat)
    requires
        n <= 0x1_0000_0000,
    ensures
        1 <= dec_rep(n).len() <= 10,
{
    assert(pow10(0) == 1);
    assert(pow10(1) == 10);
    assert(pow10(2) == 100);
    assert(pow10(3) == 1000);
    assert(pow10(4) == 10000);
    assert(pow10(5) == 100000);
    assert(pow10(6) == 1000000);
    assert(pow10(7) == 10000000);
    assert(pow10(8) == 100000000);
    assert(pow10(9) == 1000000000);
    assert(pow10(10) == 10000000000);
    lemma_dec_rep_len_bound(n, 10);
}

/// Append the decimal digits of `n` to `out`.
pub fn push_dec(out: &mut Vec<u8>, n: u32)
    ensures
        final(out)@ == old(out)@ + dec_rep(n as nat),
    decreases n,
{
    if n < 10 {
        out.push(48 + n as u8);
        proof {
            assert(old(out)@.push((48 + n) as u8) =~= old(out)@ + dec_rep(n as nat));
        }
    } else {
        proof {
            assert(n / 10 < n) by (nonlinear_arith)
                requires n >= 10;
        }
        push_dec(out, n / 10);
        out.push(48 + (n % 10) as u8);
        proof {
            assert(dec_rep(n as nat)
                == dec_rep((n as nat) / 10) + seq![(48 + (n as nat) % 10) as u8]);
            assert(old(out)@ + dec_rep(n as nat)
                =~= (old(out)@ + dec_rep((n as nat) / 10)).push((48 + n % 10) as u8));
        }
    }
}

/// Append the decimal text of `n` to `out`.
pub fn push_int(out: &mut Vec<u8>, n: i32)
    ensures
        final(out)@ == old(out)@ + int_rep(n as int),
{
    if n >= 0 {
        push_dec(out, n as u32);
    } else {
        out.push(45);
        let mag: u32 = (-(n as i64)) as u32;
        push_dec(out, mag);
        proof {
            assert(old(out)@ + int_rep(n as int)
                =~= old(out)@.push(45u8) + dec_rep(mag as nat));
        }
    }
}

/// The byte that a single-character escape stands for: the two the escaper
/// emits, and the common one-letter escapes of JSON.  (`\u` escapes are not
/// understood.)
pub open spec fn unescape_byte(b: u8) -> Option<u8> {
    if b == 34 {
        Some(34u8)
    } else if b == 92 {
        Some(92u8)
    } else if b == 47 {
        Some(47u8)
    } else if b == 110 {
        Some(10u8)
    } else if b == 116 {
        Some(9u8)
    } else if b == 114 {
        Some(13u8)
    } else if b == 98 {
        Some(8u8)
    } else if b == 102 {
        Some(12u8)
    } else {
        None
    }
}

/// Parse a JSON string body up to and including its closing quote: the
/// count of bytes consumed and the unescaped text, or nothing when the
/// bytes are not a well-formed string body made of non-control bytes.
pub open spec fn spec_parse_string(s: Seq<u8>) -> Option<(int, Seq<u8>)>
    decreases s.len(),
{
    if s.len() == 0 {
        None
    } else if s[0] == 34 {
        Some((1, Seq::empty()))
    } else if s[0] == 92 {
        if s.len() >= 2 && unescape_byte(s[1]) is Some {
            match spec_parse_string(s.skip(2)) {
                Some((c, t)) => Some((c + 2, seq![unescape_byte(s[1])->Some_0] + t)),
                None => None,
            }
        } else {
            None
        }
    } else if s[0] >= 32 {
        match spec_parse_string(s.skip(1)) {
            Some((c, t)) => Some((c + 1, seq![s[0]] + t)),
            None => None,
        }
    } else {
        None
    }
}

/// A parsed string consumes at least its closing quote and at most the
/// whole input.
pub proof fn lemma_parse_string_consumed(s: Seq<u8>)
    ensures
        spec_parse_string(s) matches Some((c, t)) ==> 1 <= c <= s.len(),
    decreases s.len(),
{
    if s.len() > 0 && s[0] == 92 {
        if s.len() >= 2 && unescape_byte(s[1]) is Some {
            lemma_parse_string_consumed(s.skip(2));
        }
    } else if s.len() > 0 && s[0] != 34 && s[0] >= 32 {
        lemma_parse_string_consumed(s.skip(1));
    }
}

/// Parsing inverts escaping: the escaped text, a closing quote and anything
/// after parse back to exactly the text.
pub proof fn lemma_parse_of_escaped(t: Seq<u8>, rest: Seq<u8>)
    requires
        valid_text(t),
    ensures
        spec_parse_string(spec_escape(t) + seq![34u8] + rest)
            == Some((spec_escape(t).len() as int + 1, t)),
    decreases t.len(),
{
    let s = spec_escape(t) + seq![34u8] + rest;
    if t.len() == 0 {
        assert(s =~= seq![34u8] + rest);
        assert(s[0] == 34);
    } else {
        let x = t[0];
        let t1 = t.skip(1);
        assert(spec_escape(t) == spec_escape_byte(x) + spec_escape(t1));
        lemma_parse_of_escaped(t1, rest);
        if x == 34 || x == 92 {
            assert(s[0] == 92);
            assert(s[1] == x);
            assert(s.skip(2) =~= spec_escape(t1) + seq![34u8] + rest);
            assert(seq![s[1]] + t1 =~= t);
        } else {
            assert(s[0] == x);
            assert(x != 34 && x != 92 && x >= 32);
            assert(s.skip(1) =~= spec_escape(t1) + seq![34u8] + rest);
            assert(seq![s[0]] + t1 =~= t);
        }
    }
}

/// Exec mirror of [`unescape_byte`].
pub fn unescape(b: u8) -> (r: Option<u8>)
    ensures
        r == unescape_byte(b),
{
    if b == 34 {
        Some(34)
    } else if b == 92 {
        Some(92)
    } else if b == 47 {
        Some(47)
    } else if b == 110 {
        Some(10)
    } else if b == 116 {
        Some(9)
    } else if b == 114 {
        Some(13)
    } else if b == 98 {
        Some(8)
    } else if b == 102 {
        Some(12)
    } else {
        None
    }
}

/// Parse a JSON string body out of `s` starting at `from` (just after the
/// opening quote).  See [`spec_parse_string`].
pub fn parse_string(s: &[u8], from: usize) -> (r: Option<(usize, Vec<u8>)>)
    requires
        from <= s@.len(),
    ensures
        match r {
            Some((end, t)) => {
                &&& from < end <= s@.len()
                &&& spec_parse_string(s@.skip(from as int))
                    == Some(((end - from) as int, t@))
            },
            None => spec_parse_string(s@.skip(from as int)) is None,
        },
{
    let mut i: usize = from;
    let mut acc: Vec<u8> = Vec::new();
    proof {
        match spec_parse_string(s@.skip(from as int)) {
            Some((c, t)) => {
                assert(Seq::<u8>::empty() + t =~= t);
            },
            None => {},
        }
    }
    while i < s.len()
        invariant
            from <= i <= s@.len(),
            match spec_parse_string(s@.skip(i as int)) {
                Some((c, t)) => spec_parse_string(s@.skip(from as int))
                    == Some((c + i - from, acc@ + t)),
                None => spec_parse_string(s@.skip(from as int)) is None,
            },
        decreases s@.len() - i,
    {
        let b = s[i];
        proof {
            assert(s@.skip(i as int)[0] == s@[i as int]);
        }
        if b == 34 {
            proof {
                assert(acc@ + Seq::<u8>::empty() =~= acc@);
            }
            return Some((i + 1, acc));
        } else if b == 92 {
            if i + 1 >= s.len() {
                return None;
            }
            let b2 = s[i + 1];
            proof {
                assert(s@.skip(i as int)[1] == s@[i as int + 1]);
                assert(s@.skip(i as int).skip(2) =~= s@.skip(i as int + 2));
            }
            let unescaped = match unescape(b2) {
                Some(u) => u,
                None => {
                    return None;
                },
            };
            proof {
                let tail = spec_parse_string(s@.skip(i as int + 2));
                match tail {
                    Some((c, t)) => {
                        assert(acc@ + (seq![unescaped] + t) =~= acc@.push(unescaped) + t);
                    },
                    None => {},
                }
            }
            acc.push(unescaped);
            i = i + 2;
        } else if b >= 32 {
            proof {
                assert(s@.skip(i as int).skip(1) =~= s@.skip(i as int + 1));
                let tail = spec_parse_string(s@.skip(i as int + 1));
                match tail {
                    Some((c, t)) => {
                        assert(acc@ + (seq![s@[i as int]] + t)
                            =~= acc@.push(s@[i as int]) + t);
                    },
                    None => {},
                }
            }
            acc.push(b);
            i = i + 1;
        } else {
            return None;
        }
    }
    proof {
        assert(s@.skip(i as int).len() == 0);
    }
    None
}

/// Whether `b` is a decimal digit.
pub open spec fn is_digit(b: u8) -> bool {
    48 <= b <= 57
}

/// The length of the run of digits at the front of `s`.
pub open spec fn digit_run(s: Seq<u8>) -> int
    decreases s.len(),
{
    if s.len() > 0 && is_digit(s[0]) {
        1 + digit_run(s.skip(1))
    } else {
        0
    }
}

/// The value of the first `k` bytes of `s` read as decimal digits.
pub open spec fn digits_val(s: Seq<u8>, k: int) -> int
    decreases k,
{
    if k <= 0 {
        0
    } else {
        digits_val(s, k - 1) * 10 + (s[k - 1] - 48)
    }
}

/// Parse an unsigned decimal: the digit-run length and its value.
pub open spec fn spec_parse_uint(s: Seq<u8>) -> Option<(int, int)> {
    let k = digit_run(s);
    if k >= 1 {
        Some((k, digits_val(s, k)))
    } else {
        None
    }
}

/// Parse a decimal integer within the 32-bit signed range.
pub open spec fn spec_parse_int(s: Seq<u8>) -> Option<(int, int)> {
    if s.len() > 0 && s[0] == 45 {
        match spec_parse_uint(s.skip(1)) {
            Some((c, v)) => if v <= 0x8000_0000 {
                Some((c + 1, -v))
            } else {
                None
            },
            None => None,
        }
    } else {
        match spec_parse_uint(s) {
            Some((c, v)) => if v <= 0x7fff_ffff {
                Some((c, v))
            } else {
                None
            },
            None => None,
        }
    }
}

pub proof fn lemma_digit_run_bounds(s: Seq<u8>)
    ensures
        0 <= digit_run(s) <= s.len(),
        forall|i: int| 0 <= i < digit_run(s) ==> is_digit(s[i]),
        digit_run(s) < s.len() ==> !is_digit(s[digit_run(s)]),
    decreases s.len(),
{
    if s.len() > 0 && is_digit(s[0]) {
        lemma_digit_run_bounds(s.skip(1));
        assert forall|i: int| 0 <= i < digit_run(s) implies is_digit(s[i]) by {
            if i > 0 {
                assert(s.skip(1)[i - 1] == s[i]);
            }
        }
        if digit_run(s) < s.len() {
            assert(s.skip(1)[digit_run(s) - 1] == s[digit_run(s)]);
        }
    }
}

/// Digit values are non-negative and grow with more digits.
pub proof fn lemma_digits_val_nonneg(s: Seq<u8>, k: int)
    requires
        forall|i: int| 0 <= i < k ==> is_digit(s[i]),
    ensures
        digits_val(s, k) >= 0,
    decreases k,
{
    if k > 0 {
        lemma_digits_val_nonneg(s, k - 1);
    }
}

pub proof fn lemma_digits_val_mono(s: Seq<u8>, j: int, k: int)
    requires
        0 <= j <= k,
        forall|i: int| 0 <= i < k ==> is_digit(s[i]),
    ensures
        digits_val(s, j) <= digits_val(s, k),
    decreases k - j,
{
    if j < k {
        lemma_digits_val_mono(s, j, k - 1);
        lemma_digits_val_nonneg(s, k - 1);
    }
}

/// Every byte that `dec_rep` emits is a digit.
pub proof fn lemma_dec_rep_digits(n: nat)
    ensures
        forall|i: int| 0 <= i < dec_rep(n).len() ==> is_digit(dec_rep(n)[i]),
    decreases n,
{
    if n >= 10 {
        lemma_fundamental_div_mod(n as int, 10);
        lemma_dec_rep_digits(n / 10);
        assert forall|i: int| 0 <= i < dec_rep(n).len() implies is_digit(dec_rep(n)[i]) by {
            if i < dec_rep(n / 10).len() {
                assert(dec_rep(n)[i] == dec_rep(n / 10)[i]);
            } else {
                assert(dec_rep(n)[i] == (48 + n % 10) as u8);
            }
        }
    }
}

/// The digits of `dec_rep(n)` (with anything after them) read back as `n`.
pub proof fn lemma_digits_val_of_dec_rep(n: nat, rest: Seq<u8>)
    ensures
        digits_val(dec_rep(n) + rest, dec_rep(n).len() as int) == n,
    decreases n,
{
    let s = dec_rep(n) + rest;
    let k = dec_rep(n).len() as int;
    if n < 10 {
        assert(dec_rep(n) == seq![(48 + n) as u8]);
        assert(k == 1);
        assert(s[0] == (48 + n) as u8);
        assert(digits_val(s, 0) == 0);
        assert(digits_val(s, 1) == digits_val(s, 0) * 10 + (s[0] - 48));
    } else {
        lemma_fundamental_div_mod(n as int, 10);
        let a = dec_rep(n / 10);
        let d = (48 + n % 10) as u8;
        assert(dec_rep(n) == a + seq![d]);
        assert(s =~= a + (seq![d] + rest));
        lemma_digits_val_of_dec_rep(n / 10, seq![d] + rest);
        assert(k - 1 == a.len());
        assert(digits_val(s, k - 1) == (n / 10) as int);
        assert(digits_val(s, k) == digits_val(s, k - 1) * 10 + (s[k - 1] - 48));
        assert(s[k - 1] == d);
        assert(d - 48 == n % 10);
    }
}

/// A run of digits followed by a non-digit (or the end) has exactly that
/// run length.
pub proof fn lemma_digit_run_of(a: Seq<u8>, rest: Seq<u8>)
    requires
        forall|i: int| 0 <= i < a.len() ==> is_digit(a[i]),
        rest.len() == 0 || !is_digit(rest[0]),
    ensures
        digit_run(a + rest) == a.len(),
    decreases a.len(),
{
    let s = a + rest;
    if a.len() == 0 {
        assert(s =~= rest);
    } else {
        assert(s[0] == a[0]);
        assert(s.skip(1) =~= a.skip(1) + rest);
        assert(forall|i: int| 0 <= i < a.skip(1).len() ==> a.skip(1)[i] == a[i + 1]);
        lemma_digit_run_of(a.skip(1), rest);
    }
}

/// Parsing inverts printing for every 32-bit integer, given that what
/// follows does not begin with a digit.
pub proof fn lemma_parse_of_int_rep(v: int, rest: Seq<u8>)
    requires
        -0x8000_0000 <= v <= 0x7fff_ffff,
        rest.len() == 0 || !is_digit(rest[0]),
    ensures
        spec_parse_int(int_rep(v) + rest) == Some((int_rep(v).len() as int, v)),
{
    let s = int_rep(v) + rest;
    if v >= 0 {
        let a = dec_rep(v as nat);
        lemma_dec_rep_digits(v as nat);
        lemma_digit_run_of(a, rest);
        lemma_digits_val_of_dec_rep(v as nat, rest);
        assert(a.len() > 0);
        assert(s[0] == a[0]);
        assert(is_digit(a[0]));
        assert(s[0] != 45);
    } else {
        let a = dec_rep((-v) as nat);
        assert(s[0] == 45);
        assert(!is_digit(45u8));
        assert(s.skip(1) =~= a + rest);
        lemma_dec_rep_digits((-v) as nat);
        lemma_digit_run_of(a, rest);
        lemma_digits_val_of_dec_rep((-v) as nat, rest);
    }
}

/// Parse a decimal integer out of `s` starting at `from`.  See
/// [`spec_parse_int`].
#[verifier::loop_isolation(false)]
pub fn parse_int(s: &[u8], from: usize) -> (r: Option<(usize, i32)>)
    requires
        from <= s@.len(),
    ensures
        match r {
            Some((end, v)) => {
                &&& from < end <= s@.len()
                &&& spec_parse_int(s@.skip(from as int)) == Some(((end - from) as int, v as int))
            },
            None => spec_parse_int(s@.skip(from as int)) is None,
        },
{
    let ghost whole = s@.skip(from as int);
    let neg = from < s.len() && s[from] == 45;
    let start = if neg {
        from + 1
    } else {
        from
    };
    let ghost run = s@.skip(start as int);
    proof {
        if neg {
            assert(whole[0] == s@[from as int]);
            assert(whole.skip(1) =~= run);
        } else if whole.len() > 0 {
            assert(whole[0] == s@[from as int]);
        }
    }
    let mut i: usize = start;
    while i < s.len() && s[i] >= 48 && s[i] <= 57
        invariant
            start <= i <= s@.len(),
            run == s@.skip(start as int),
            forall|j: int| 0 <= j < i - start ==> is_digit(run[j]),
        decreases s@.len() - i,
    {
        proof {
            assert(run[i - start as int] == s@[i as int]);
        }
        i = i + 1;
    }
    let k = i - start;
    proof {
        if i < s.len() {
            assert(run[k as int] == s@[i as int]);
        }
        lemma_digit_run_exact(run, k as int);
        if !neg {
            assert(run == whole);
        }
    }
    if k == 0 {
        return None;
    }
    let mut j: usize = start;
    let mut acc: u64 = 0;
    while j < i
        invariant
            start <= j <= i <= s@.len(),
            run == s@.skip(start as int),
            digit_run(run) == k,
            k == i - start,
            k >= 1,
            forall|t: int| 0 <= t < k ==> is_digit(run[t]),
            acc == digits_val(run, j - start as int),
            acc <= 0x8000_0000,
        decreases i - j,
    {
        let b = s[j];
        proof {
            assert(run[j - start as int] == s@[j as int]);
        }
        acc = acc * 10 + ((b - 48) as u64);
        j = j + 1;
        if acc > 0x8000_0000 {
            proof {
                assert(digits_val(run, j - start as int)
                    == digits_val(run, j - start as int - 1) * 10
                        + (run[j - start as int - 1] - 48));
                lemma_digits_val_mono(run, j - start as int, k as int);
                if !neg {
                    assert(run == whole);
                }
            }
            return None;
        }
    }
    proof {
        if !neg {
            assert(run == whole);
        }
    }
    if neg {
        let v: i32 = (-(acc as i64)) as i32;
        return Some((i, v));
    }
    if acc > 0x7fff_ffff {
        return None;
    }
    Some((i, acc as i32))
}

/// If the first `k` bytes are digits, the digit run is at least `k`.
pub proof fn lemma_digit_run_at_least(s: Seq<u8>, k: int)
    requires
        0 <= k <= s.len(),
        forall|j: int| 0 <= j < k ==> is_digit(s[j]),
    ensures
        digit_run(s) >= k,
    decreases k,
{
    if k > 0 {
        assert(is_digit(s[0]));
        assert forall|j: int| 0 <= j < k - 1 implies is_digit(s.skip(1)[j]) by {
            assert(s.skip(1)[j] == s[j + 1]);
        }
        lemma_digit_run_at_least(s.skip(1), k - 1);
        assert(digit_run(s) == 1 + digit_run(s.skip(1)));
    } else {
        lemma_digit_run_bounds(s);
    }
}

/// If the first `k` bytes are digits and the next one is not (or the
/// sequence ends), the digit run is exactly `k`.
pub proof fn lemma_digit_run_exact(s: Seq<u8>, k: int)
    requires
        0 <= k <= s.len(),
        forall|j: int| 0 <= j < k ==> is_digit(s[j]),
        k == s.len() || !is_digit(s[k]),
    ensures
        digit_run(s) == k,
{
    lemma_digit_run_at_least(s, k);
    lemma_digit_run_bounds(s);
    if digit_run(s) > k {
        assert(is_digit(s[k]));
    }
}

/// Whether `p` is a prefix of `s`.
pub open spec fn starts_with(s: Seq<u8>, p: Seq<u8>) -> bool {
    s.len() >= p.len() && s.subrange(0, p.len() as int) == p
}

/// Check that `lit` stands at position `from` of `s`; on success return the
/// position just past it.
pub fn expect(s: &[u8], from: usize, lit: &[u8]) -> (r: Option<usize>)
    requires
        from <= s@.len(),
    ensures
        match r {
            Some(end) => {
                &&& end == from + lit@.len()
                &&& end <= s@.len()
                &&& starts_with(s@.skip(from as int), lit@)
            },
            None => !starts_with(s@.skip(from as int), lit@),
        },
{
    if s.len() - from < lit.len() {
        return None;
    }
    let end: usize = from + lit.len();
    let mut j: usize = 0;
    while j < lit.len()
        invariant
            j <= lit@.len(),
            end == from + lit@.len(),
            end <= s@.len(),
            forall|t: int| 0 <= t < j ==> s@[from + t] == lit@[t],
        decreases lit@.len() - j,
    {
        if s[from + j] != lit[j] {
            proof {
                if starts_with(s@.skip(from as int), lit@) {
                    assert(s@.skip(from as int).subrange(0, lit@.len() as int)[j as int]
                        == lit@[j as int]);
                    assert(s@.skip(from as int)[j as int] == s@[from + j]);
                }
            }
            return None;
        }
        j = j + 1;
    }
    proof {
        assert(s@.skip(from as int).subrange(0, lit@.len() as int) =~= lit@);
    }
    Some(from + lit.len())
}

/// The template bytes `{'version':{'name':'` (with straight quotes on the wire).
#[verifier::opaque]
pub open spec fn lit_version_open() -> Seq<u8> {
    seq![123u8, 34u8, 118u8, 101u8, 114u8, 115u8, 105u8, 111u8, 110u8, 34u8, 58u8, 123u8, 34u8, 110u8, 97u8, 109u8, 101u8, 34u8, 58u8, 34u8]
}

/// Exec copy of [`lit_version_open`].
pub fn lit_version_open_vec() -> (r: Vec<u8>)
    ensures
        r@ == lit_version_open(),
{
    proof {
        reveal(lit_version_open);
    }
    let mut v: Vec<u8> = Vec::new();
    v.push(123u8);
    v.push(34u8);
    v.push(118u8);
    v.push(101u8);
    v.push(114u8);
    v.push(115u8);
    v.push(105u8);
    v.push(111u8);
    v.push(110u8);
    v.push(34u8);
    v.push(58u8);
    v.push(123u8);
    v.push(34u8);
    v.push(110u8);
    v.push(97u8);
    v.push(109u8);
    v.push(101u8);
    v.push(34u8);
    v.push(58u8);
    v.push(34u8);
    proof {
        assert(v@ =~= lit_version_open());
    }
    v
}

/// The template bytes `,'protocol':` (with straight quotes on the wire).
#[verifier::opaque]
pub open spec fn lit_protocol_key() -> Seq<u8> {
    seq![44u8, 34u8, 112u8, 114u8, 111u8, 116u8, 111u8, 99u8, 111u8, 108u8, 34u8, 58u8]
}

/// Exec copy of [`lit_protocol_key`].
pub fn lit_protocol_key_vec() -> (r: Vec<u8>)
    ensures
        r@ == lit_protocol_key(),
{
    proof {
        reveal(lit_protocol_key);
    }
    let mut v: Vec<u8> = Vec::new();
    v.push(44u8);
    v.push(34u8);
    v.push(112u8);
    v.push(114u8);
    v.push(111u8);
    v.push(116u8);
    v.push(111u8);
    v.push(99u8);
    v.push(111u8);
    v.push(108u8);
    v.push(34u8);
    v.push(58u8);
    proof {
        assert(v@ =~= lit_protocol_key());
    }
    v
}

/// The template bytes `},'description':{'text':'` (with straight quotes on the wire).
#[verifier::opaque]
pub open spec fn lit_description_key() -> Seq<u8> {
    seq![125u8, 44u8, 34u8, 100u8, 101u8, 115u8, 99u8, 114u8, 105u8, 112u8, 116u8, 105u8, 111u8, 110u8, 34u8, 58u8, 123u8, 34u8, 116u8, 101u8, 120u8, 116u8, 34u8, 58u8, 34u8]
}

/// Exec copy of [`lit_description_key`].
pub fn lit_description_key_vec() -> (r: Vec<u8>)
    ensures
        r@ == lit_description_key(),
{
    proof {
        reveal(lit_description_key);
    }
    let mut v: Vec<u8> = Vec::new();
    v.push(125u8);
    v.push(44u8);
    v.push(34u8);
    v.push(100u8);
    v.push(101u8);
    v.push(115u8);
    v.push(99u8);
    v.push(114u8);
    v.push(105u8);
    v.push(112u8);
    v.push(116u8);
    v.push(105u8);
    v.push(111u8);
    v.push(110u8);
    v.push(34u8);
    v.push(58u8);
    v.push(123u8);
    v.push(34u8);
    v.push(116u8);
    v.push(101u8);
    v.push(120u8);
    v.push(116u8);
    v.push(34u8);
    v.push(58u8);
    v.push(34u8);
    proof {
        assert(v@ =~= lit_description_key());
    }
    v
}

/// The template bytes `},'players':{'max':` (with straight quotes on the wire).
#[verifier::opaque]
pub open spec fn lit_players_key() -> Seq<u8> {
    seq![125u8, 44u8, 34u8, 112u8, 108u8, 97u8, 121u8, 101u8, 114u8, 115u8, 34u8, 58u8, 123u8, 34u8, 109u8, 97u8, 120u8, 34u8, 58u8]
}

/// Exec copy of [`lit_players_key`].
pub fn lit_players_key_vec() -> (r: Vec<u8>)
    ensures
        r@ == lit_players_key(),
{
    proof {
        reveal(lit_players_key);
    }
    let mut v: Vec<u8> = Vec::new();
    v.push(125u8);
    v.push(44u8);
    v.push(34u8);
    v.push(112u8);
    v.push(108u8);
    v.push(97u8);
    v.push(121u8);
    v.push(101u8);
    v.push(114u8);
    v.push(115u8);
    v.push(34u8);
    v.push(58u8);
    v.push(123u8);
    v.push(34u8);
    v.push(109u8);
    v.push(97u8);
    v.push(120u8);
    v.push(34u8);
    v.push(58u8);
    proof {
        assert(v@ =~= lit_players_key());
    }
    v
}

/// The template bytes `,'online':` (with straight quotes on the wire).
#[verifier::opaque]
pub open spec fn lit_online_key() -> Seq<u8> {
    seq![44u8, 34u8, 111u8, 110u8, 108u8, 105u8, 110u8, 101u8, 34u8, 58u8]
}

/// Exec copy of [`lit_online_key`].
pub fn lit_online_key_vec() -> (r: Vec<u8>)
    ensures
        r@ == lit_online_key(),
{
    proof {
        reveal(lit_online_key);
    }
    let mut v: Vec<u8> = Vec::new();
    v.push(44u8);
    v.push(34u8);
    v.push(111u8);
    v.push(110u8);
    v.push(108u8);
    v.push(105u8);
    v.push(110u8);
    v.push(101u8);
    v.push(34u8);
    v.push(58u8);
    proof {
        assert(v@ =~= lit_online_key());
    }
    v
}

/// The template bytes `,'sample':[]}}` (with straight quotes on the wire).
#[verifier::opaque]
pub open spec fn lit_sample_end() -> Seq<u8> {
    seq![44u8, 34u8, 115u8, 97u8, 109u8, 112u8, 108u8, 101u8, 34u8, 58u8, 91u8, 93u8, 125u8, 125u8]
}

/// Exec copy of [`lit_sample_end`].
pub fn lit_sample_end_vec() -> (r: Vec<u8>)
    ensures
        r@ == lit_sample_end(),
{
    proof {
        reveal(lit_sample_end);
    }
    let mut v: Vec<u8> = Vec::new();
    v.push(44u8);
    v.push(34u8);
    v.push(115u8);
    v.push(97u8);
    v.push(109u8);
    v.push(112u8);
    v.push(108u8);
    v.push(101u8);
    v.push(34u8);
    v.push(58u8);
    v.push(91u8);
    v.push(93u8);
    v.push(125u8);
    v.push(125u8);
    proof {
        assert(v@ =~= lit_sample_end());
    }
    v
}

/// The template bytes `{'text':'` (with straight quotes on the wire).
#[verifier::opaque]
pub open spec fn lit_text_open() -> Seq<u8> {
    seq![123u8, 34u8, 116u8, 101u8, 120u8, 116u8, 34u8, 58u8, 34u8]
}

/// Exec copy of [`lit_text_open`].
pub fn lit_text_open_vec() -> (r: Vec<u8>)
    ensures
        r@ == lit_text_open(),
{
    proof {
        reveal(lit_text_open);
    }
    let mut v: Vec<u8> = Vec::new();
    v.push(123u8);
    v.push(34u8);
    v.push(116u8);
    v.push(101u8);
    v.push(120u8);
    v.push(116u8);
    v.push(34u8);
    v.push(58u8);
    v.push(34u8);
    proof {
        assert(v@ =~= lit_text_open());
    }
    v
}

/// The template bytes `'}` (with straight quotes on the wire).
#[verifier::opaque]
pub open spec fn lit_text_close() -> Seq<u8> {
    seq![34u8, 125u8]
}

/// Exec copy of [`lit_text_close`].
pub fn lit_text_close_vec() -> (r: Vec<u8>)
    ensures
        r@ == lit_text_close(),
{
    proof {
        reveal(lit_text_close);
    }
    let mut v: Vec<u8> = Vec::new();
    v.push(34u8);
    v.push(125u8);
    proof {
        assert(v@ =~= lit_text_close());
    }
    v
}



/// Splitting a concatenation at the seam gives back its two halves.
pub proof fn lemma_take_skip(a: Seq<u8>, b: Seq<u8>)
    ensures
        (a + b).subrange(0, a.len() as int) == a,
        (a + b).skip(a.len() as int) == b,
        (a + b).len() == a.len() + b.len(),
{
    assert((a + b).subrange(0, a.len() as int) =~= a);
    assert((a + b).skip(a.len() as int) =~= b);
}

/// Concatenation is associative.
pub proof fn lemma_assoc(x: Seq<u8>, y: Seq<u8>, z: Seq<u8>)
    ensures
        (x + y) + z == x + (y + z),
{
    assert((x + y) + z =~= x + (y + z));
}

/// First bytes of the templates that follow a number, needed to see that a
/// digit run ends where the template begins.
pub proof fn lemma_lit_first_bytes()
    ensures
        lit_description_key().len() == 25,
        lit_players_key().len() == 19,
        lit_online_key().len() == 10,
        lit_sample_end().len() == 14,
        lit_version_open().len() == 20,
        lit_protocol_key().len() == 12,
        lit_text_open().len() == 9,
        lit_text_close().len() == 2,
        lit_description_key()[0] == 125,
        lit_players_key()[0] == 125,
        lit_online_key()[0] == 44,
        lit_sample_end()[0] == 44,
{
    reveal(lit_version_open);
    reveal(lit_protocol_key);
    reveal(lit_text_open);
    reveal(lit_text_close);
    reveal(lit_description_key);
    reveal(lit_players_key);
    reveal(lit_online_key);
    reveal(lit_sample_end);
}


/// Whether `b` is JSON whitespace.
pub open spec fn is_ws(b: u8) -> bool {
    b == 32 || b == 9 || b == 10 || b == 13
}

/// The length of the whitespace run at position `i` of `s`.
pub open spec fn ws_run(s: Seq<u8>, i: int) -> int
    decreases s.len() - i,
{
    if 0 <= i < s.len() && is_ws(s[i]) {
        1 + ws_run(s, i + 1)
    } else {
        0
    }
}

/// Move `from` past any whitespace.
pub fn skip_ws(s: &[u8], from: usize) -> (r: usize)
    requires
        from <= s@.len(),
    ensures
        r == from + ws_run(s@, from as int),
        from <= r <= s@.len(),
{
    let mut i: usize = from;
    while i < s.len() && (s[i] == 32 || s[i] == 9 || s[i] == 10 || s[i] == 13)
        invariant
            from <= i <= s@.len(),
            ws_run(s@, from as int) == i - from + ws_run(s@, i as int),
        decreases s@.len() - i,
    {
        i = i + 1;
    }
    i
}

/// Whether `b` can stand in a JSON primitive (number, true, false, null).
pub open spec fn is_prim(b: u8) -> bool {
    b == 43 || b == 45 || b == 46 || (48 <= b <= 57) || b == 69 || (97 <= b <= 122)
}

/// The length of the primitive run at position `i` of `s`.
pub open spec fn prim_run(s: Seq<u8>, i: int) -> int
    decreases s.len() - i,
{
    if 0 <= i < s.len() && is_prim(s[i]) {
        1 + prim_run(s, i + 1)
    } else {
        0
    }
}

/// Where the JSON value starting at `at` ends (one past its last byte), or
/// nothing when no value can be skipped there.  Composites are balanced by
/// nesting depth with strings handled atomically; primitives are a run of
/// number/keyword bytes.
pub open spec fn spec_skip_value_at(s: Seq<u8>, at: int) -> Option<int> {
    if !(0 <= at < s.len()) {
        None
    } else if s[at] == 34 {
        match spec_parse_string(s.skip(at + 1)) {
            Some((c, t)) => Some(at + 1 + c),
            None => None,
        }
    } else if s[at] == 123 || s[at] == 91 {
        spec_skip_composite(s, at + 1, 1)
    } else if is_prim(s[at]) {
        Some(at + prim_run(s, at))
    } else {
        None
    }
}

/// Scan forward from `i` inside a composite value nested `nest` levels deep,
/// to one past the closer that balances it.
pub open spec fn spec_skip_composite(s: Seq<u8>, i: int, nest: int) -> Option<int>
    decreases s.len() - i,
    via spec_skip_composite_decreases
{
    if !(0 <= i < s.len()) {
        None
    } else if s[i] == 34 {
        match spec_parse_string(s.skip(i + 1)) {
            Some((c, t)) => spec_skip_composite(s, i + 1 + c, nest),
            None => None,
        }
    } else if s[i] == 123 || s[i] == 91 {
        spec_skip_composite(s, i + 1, nest + 1)
    } else if s[i] == 125 || s[i] == 93 {
        if nest <= 1 {
            Some(i + 1)
        } else {
            spec_skip_composite(s, i + 1, nest - 1)
        }
    } else {
        spec_skip_composite(s, i + 1, nest)
    }
}

#[via_fn]
proof fn spec_skip_composite_decreases(s: Seq<u8>, i: int, nest: int) {
    if 0 <= i < s.len() && s[i] == 34 {
        lemma_parse_string_consumed(s.skip(i + 1));
    }
}

/// Skip one JSON value starting at `from` (see [`spec_skip_value_at`]).
#[verifier::loop_isolation(false)]
pub fn skip_value(s: &[u8], from: usize) -> (r: Option<usize>)
    requires
        from <= s@.len(),
    ensures
        match r {
            Some(end) => {
                &&& from < end <= s@.len()
                &&& spec_skip_value_at(s@, from as int) == Some(end as int)
            },
            None => spec_skip_value_at(s@, from as int) is None,
        },
{
    if from >= s.len() {
        return None;
    }
    let b = s[from];
    if b == 34 {
        match parse_string(s, from + 1) {
            Some((end, _)) => Some(end),
            None => None,
        }
    } else if b == 123 || b == 91 {
        let mut i: usize = from + 1;
        let mut nest: usize = 1;
        while i < s.len()
            invariant
                from < i <= s@.len(),
                1 <= nest <= i,
                spec_skip_composite(s@, from as int + 1, 1)
                    == spec_skip_composite(s@, i as int, nest as int),
            decreases s@.len() - i,
        {
            let c = s[i];
            if c == 34 {
                match parse_string(s, i + 1) {
                    Some((end, _)) => {
                        i = end;
                    },
                    None => {
                        return None;
                    },
                }
            } else if c == 123 || c == 91 {
                nest = nest + 1;
                i = i + 1;
            } else if c == 125 || c == 93 {
                if nest == 1 {
                    return Some(i + 1);
                }
                nest = nest - 1;
                i = i + 1;
            } else {
                i = i + 1;
            }
        }
        None
    } else if b == 43 || b == 45 || b == 46 || (48 <= b && b <= 57) || b == 69
        || (97 <= b && b <= 122) {
        let mut i: usize = from;
        while i < s.len() && (s[i] == 43 || s[i] == 45 || s[i] == 46
            || (48 <= s[i] && s[i] <= 57) || s[i] == 69 || (97 <= s[i] && s[i] <= 122))
            invariant
                from <= i <= s@.len(),
                prim_run(s@, from as int) == i - from + prim_run(s@, i as int),
            decreases s@.len() - i,
        {
            i = i + 1;
        }
        Some(i)
    } else {
        None
    }
}

/// Whether two byte strings hold the same bytes.
pub fn eq_bytes(a: &[u8], b: &[u8]) -> (r: bool)
    ensures
        r == (a@ == b@),
{
    if a.len() != b.len() {
        return false;
    }
    let mut i: usize = 0;
    while i < a.len()
        invariant
            i <= a@.len(),
            a@.len() == b@.len(),
            forall|t: int| 0 <= t < i ==> a@[t] == b@[t],
        decreases a@.len() - i,
    {
        if a[i] != b[i] {
            return false;
        }
        i = i + 1;
    }
    proof {
        assert(a@ =~= b@);
    }
    true
}

/// The member name `version`.
#[verifier::opaque]
pub open spec fn lit_key_version() -> Seq<u8> {
    seq![118u8, 101u8, 114u8, 115u8, 105u8, 111u8, 110u8]
}

/// Exec copy of [`lit_key_version`].
pub fn lit_key_version_vec() -> (r: Vec<u8>)
    ensures
        r@ == lit_key_version(),
{
    proof {
        reveal(lit_key_version);
    }
    let mut v: Vec<u8> = Vec::new();
    v.push(118u8);
    v.push(101u8);
    v.push(114u8);
    v.push(115u8);
    v.push(105u8);
    v.push(111u8);
    v.push(110u8);
    proof {
        assert(v@ =~= lit_key_version());
    }
    v
}

/// The member name `name`.
#[verifier::opaque]
pub open spec fn lit_key_name() -> Seq<u8> {
    seq![110u8, 97u8, 109u8, 101u8]
}

/// Exec copy of [`lit_key_name`].
pub fn lit_key_name_vec() -> (r: Vec<u8>)
    ensures
        r@ == lit_key_name(),
{
    proof {
        reveal(lit_key_name);
    }
    let mut v: Vec<u8> = Vec::new();
    v.push(110u8);
    v.push(97u8);
    v.push(109u8);
    v.push(101u8);
    proof {
        assert(v@ =~= lit_key_name());
    }
    v
}

/// The member name `protocol`.
#[verifier::opaque]
pub open spec fn lit_key_protocol() -> Seq<u8> {
    seq![112u8, 114u8, 111u8, 116u8, 111u8, 99u8, 111u8, 108u8]
}

/// Exec copy of [`lit_key_protocol`].
pub fn lit_key_protocol_vec() -> (r: Vec<u8>)
    ensures
        r@ == lit_key_protocol(),
{
    proof {
        reveal(lit_key_protocol);
    }
    let mut v: Vec<u8> = Vec::new();
    v.push(112u8);
    v.push(114u8);
    v.push(111u8);
    v.push(116u8);
    v.push(111u8);
    v.push(99u8);
    v.push(111u8);
    v.push(108u8);
    proof {
        assert(v@ =~= lit_key_protocol());
    }
    v
}

/// The member name `description`.
#[verifier::opaque]
pub open spec fn lit_key_description() -> Seq<u8> {
    seq![100u8, 101u8, 115u8, 99u8, 114u8, 105u8, 112u8, 116u8, 105u8, 111u8, 110u8]
}

/// Exec copy of [`lit_key_description`].
pub fn lit_key_description_vec() -> (r: Vec<u8>)
    ensures
        r@ == lit_key_description(),
{
    proof {
        reveal(lit_key_description);
    }
    let mut v: Vec<u8> = Vec::new();
    v.push(100u8);
    v.push(101u8);
    v.push(115u8);
    v.push(99u8);
    v.push(114u8);
    v.push(105u8);
    v.push(112u8);
    v.push(116u8);
    v.push(105u8);
    v.push(111u8);
    v.push(110u8);
    proof {
        assert(v@ =~= lit_key_description());
    }
    v
}

/// The member name `text`.
#[verifier::opaque]
pub open spec fn lit_key_text() -> Seq<u8> {
    seq![116u8, 101u8, 120u8, 116u8]
}

/// Exec copy of [`lit_key_text`].
pub fn lit_key_text_vec() -> (r: Vec<u8>)
    ensures
        r@ == lit_key_text(),
{
    proof {
        reveal(lit_key_text);
    }
    let mut v: Vec<u8> = Vec::new();
    v.push(116u8);
    v.push(101u8);
    v.push(120u8);
    v.push(116u8);
    proof {
        assert(v@ =~= lit_key_text());
    }
    v
}

/// The member name `players`.
#[verifier::opaque]
pub open spec fn lit_key_players() -> Seq<u8> {
    seq![112u8, 108u8, 97u8, 121u8, 101u8, 114u8, 115u8]
}

/// Exec copy of [`lit_key_players`].
pub fn lit_key_players_vec() -> (r: Vec<u8>)
    ensures
        r@ == lit_key_players(),
{
    proof {
        reveal(lit_key_players);
    }
    let mut v: Vec<u8> = Vec::new();
    v.push(112u8);
    v.push(108u8);
    v.push(97u8);
    v.push(121u8);
    v.push(101u8);
    v.push(114u8);
    v.push(115u8);
    proof {
        assert(v@ =~= lit_key_players());
    }
    v
}

/// The member name `max`.
#[verifier::opaque]
pub open spec fn lit_key_max() -> Seq<u8> {
    seq![109u8, 97u8, 120u8]
}

/// Exec copy of [`lit_key_max`].
pub fn lit_key_max_vec() -> (r: Vec<u8>)
    ensures
        r@ == lit_key_max(),
{
    proof {
        reveal(lit_key_max);
    }
    let mut v: Vec<u8> = Vec::new();
    v.push(109u8);
    v.push(97u8);
    v.push(120u8);
    proof {
        assert(v@ =~= lit_key_max());
    }
    v
}

/// The member name `online`.
#[verifier::opaque]
pub open spec fn lit_key_online() -> Seq<u8> {
    seq![111u8, 110u8, 108u8, 105u8, 110u8, 101u8]
}

/// Exec copy of [`lit_key_online`].
pub fn lit_key_online_vec() -> (r: Vec<u8>)
    ensures
        r@ == lit_key_online(),
{
    proof {
        reveal(lit_key_online);
    }
    let mut v: Vec<u8> = Vec::new();
    v.push(111u8);
    v.push(110u8);
    v.push(108u8);
    v.push(105u8);
    v.push(110u8);
    v.push(101u8);
    proof {
        assert(v@ =~= lit_key_online());
    }
    v
}

} // verus!
