//! Recognising directory-entry names that denote a process identifier:
//! a non-empty run of decimal digits whose value fits an `i32`.

use vstd::prelude::*;
use vstd::string::StrSliceExecFns;

verus! {

/// Whether `c` is a decimal digit.
pub open spec fn is_digit_char(c: char) -> bool {
    0x30 <= c as int && c as int <= 0x39
}

/// The numeric value of a decimal digit character.
pub open spec fn digit_value(c: char) -> int {
    c as int - 0x30
}

/// Whether every character of `s` is a decimal digit.
pub open spec fn all_digits(s: Seq<char>) -> bool {
    forall|k: int| 0 <= k < s.len() ==> is_digit_char(s[k])
}

/// The value of `s` read as a decimal numeral, most significant digit first.
pub open spec fn dec_value(s: Seq<char>) -> int
    decreases s.len(),
{
    if s.len() == 0 {
        0
    } else {
        dec_value(s.drop_last()) * 10 + digit_value(s.last())
    }
}

/// Whether `s` names a process identifier: a non-empty, all-digit numeral
/// whose value fits an `i32`.
pub open spec fn is_pid_name(s: Seq<char>) -> bool {
    s.len() > 0 && all_digits(s) && dec_value(s) <= i32::MAX
}

pub proof fn lemma_dec_value_nonneg(s: Seq<char>)
    requires
        all_digits(s),
    ensures
        dec_value(s) >= 0,
    decreases s.len(),
{
    if s.len() > 0 {
        assert(all_digits(s.drop_last()));
        lemma_dec_value_nonneg(s.drop_last());
    }
}

proof fn lemma_dec_value_step(s: Seq<char>, i: int)
    requires
        0 <= i < s.len(),
    ensures
        dec_value(s.take(i + 1)) == dec_value(s.take(i)) * 10 + digit_value(s[i]),
{
    assert(s.take(i + 1).drop_last() =~= s.take(i));
    assert(s.take(i + 1).last() == s[i]);
}

proof fn lemma_dec_value_mono(s: Seq<char>, i: int)
    requires
        all_digits(s),
        0 <= i <= s.len(),
    ensures
        dec_value(s.take(i)) <= dec_value(s),
    decreases s.len() - i,
{
    if i < s.len() {
        lemma_dec_value_step(s, i);
        assert(all_digits(s.take(i)));
        lemma_dec_value_nonneg(s.take(i));
        lemma_dec_value_mono(s, i + 1);
    } else {
        assert(s.take(i) =~= s);
    }
}

/// Parses `name` as a process identifier. Returns `Some` exactly when
/// `name` is a non-empty, all-digit numeral whose value fits an `i32`,
/// and then carries that value.
pub fn parse_pid(name: &str) -> (r: Option<i32>)
    ensures
        r is Some <==> is_pid_name(name@),
        r matches Some(p) ==> p as int == dec_value(name@) && p >= 0,
{
    let n = name.unicode_len();
    if n == 0 {
        return None;
    }
    let mut i: usize = 0;
    let mut acc: u64 = 0;
    while i < n
        invariant
            0 <= i <= n,
            n == name@.len(),
            forall|k: int| 0 <= k < i ==> is_digit_char(name@[k]),
            acc as int == dec_value(name@.take(i as int)),
            acc <= 0x7fffffff,
        decreases n - i,
    {
        let c = name.get_char(i);
        let cv = c as u32;
        if cv < 0x30 || cv > 0x39 {
            assert(!is_digit_char(name@[i as int]));
            return None;
        }
        let d = (cv - 0x30) as u64;
        proof {
            lemma_dec_value_step(name@, i as int);
        }
        acc = acc * 10 + d;
        if acc > 0x7fffffff {
            proof {
                if is_pid_name(name@) {
                    lemma_dec_value_mono(name@, i as int + 1);
                }
            }
            return None;
        }
        i += 1;
    }
    proof {
        assert(name@.take(n as int) =~= name@);
    }
    Some(acc as i32)
}

} // verus!
