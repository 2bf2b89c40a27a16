//! Numeric geometry fields arrive as user-typed text. A field is accepted
//! exactly when it is a non-empty string of decimal digits whose value fits
//! the machine; anything else is rejected, never defaulted.

use vstd::prelude::*;
use vstd::std_specs::iter::IteratorSpec;

verus! {

broadcast use vstd::string::axiom_spec_iter, vstd::string::next_postcondition;

/// Whether `s` is a non-empty string of decimal digits.
pub open spec fn is_dec_seq(s: Seq<char>) -> bool {
    s.len() > 0 && forall|i: int| 0 <= i < s.len() ==> '0' <= #[trigger] s[i] && s[i] <= '9'
}

/// The value of a digit string read in base 10; 0 when empty.
pub open spec fn dec_value(s: Seq<char>) -> int
    decreases s.len(),
{
    if s.len() == 0 {
        0
    } else {
        dec_value(s.drop_last()) * 10 + (s.last() as int - '0' as int)
    }
}

/// Whether `s` parses: digits only, non-empty, and the value fits a `usize`.
pub open spec fn dec_ok(s: Seq<char>) -> bool {
    is_dec_seq(s) && dec_value(s) <= usize::MAX
}

/// The value of a digit string is never negative.
pub proof fn lemma_dec_value_nonneg(s: Seq<char>)
    requires
        forall|i: int| 0 <= i < s.len() ==> '0' <= #[trigger] s[i] && s[i] <= '9',
    ensures
        dec_value(s) >= 0,
    decreases s.len(),
{
    if s.len() > 0 {
        lemma_dec_value_nonneg(s.drop_last());
    }
}

/// Reading more digits never shrinks the value: a prefix of a digit string is
/// worth no more than the whole.
pub proof fn lemma_dec_value_prefix(s: Seq<char>, i: int)
    requires
        0 <= i <= s.len(),
        forall|j: int| 0 <= j < s.len() ==> '0' <= #[trigger] s[j] && s[j] <= '9',
    ensures
        dec_value(s.subrange(0, i)) <= dec_value(s),
    decreases s.len() - i,
{
    if i == s.len() {
        assert(s.subrange(0, i) =~= s);
    } else {
        let t = s.subrange(0, i + 1);
        assert(t.drop_last() =~= s.subrange(0, i));
        lemma_dec_value_nonneg(s.subrange(0, i));
        assert(dec_value(t) == dec_value(s.subrange(0, i)) * 10 + (s[i] as int - '0' as int));
        lemma_dec_value_prefix(s, i + 1);
    }
}

/// Parses a user-typed numeric field.
///
/// Succeeds exactly on a non-empty all-digit string whose value fits a
/// `usize`, and then returns that value; an empty string, any non-digit
/// character, or an overflowing value yields `None`.
pub fn parse_usize(s: &str) -> (r: Option<usize>)
    ensures
        r is Some <==> dec_ok(s@),
        r matches Some(v) ==> v == dec_value(s@),
{
    let mut it = s.chars();
    let mut val: u128 = 0;
    let mut seen: bool = false;
    let ghost mut i: int = 0;
    loop
        invariant
            0 <= i <= s@.len(),
            seen == (i > 0),
            it.remaining() =~= s@.subrange(i, s@.len() as int),
            forall|j: int| 0 <= j < i ==> '0' <= #[trigger] s@[j] && s@[j] <= '9',
            val == dec_value(s@.subrange(0, i)),
            val <= usize::MAX,
        ensures
            i == s@.len(),
            seen == (i > 0),
            forall|j: int| 0 <= j < i ==> '0' <= #[trigger] s@[j] && s@[j] <= '9',
            val == dec_value(s@.subrange(0, i)),
            val <= usize::MAX,
        decreases s@.len() - i,
    {
        match it.next() {
            Some(c) => {
                proof {
                    assert(c == s@[i]);
                }
                if c < '0' || c > '9' {
                    proof {
                        assert(!is_dec_seq(s@));
                    }
                    return None;
                }
                let d: u8 = (c as u8) - 48;
                let nv: u128 = val * 10 + d as u128;
                proof {
                    let t = s@.subrange(0, i + 1);
                    assert(t.drop_last() =~= s@.subrange(0, i));
                    assert(t.last() == s@[i]);
                    assert(dec_value(t) == val * 10 + (c as int - '0' as int));
                }
                if nv > usize::MAX as u128 {
                    proof {
                        if is_dec_seq(s@) {
                            lemma_dec_value_prefix(s@, i + 1);
                        }
                    }
                    return None;
                }
                val = nv;
                seen = true;
                proof {
                    i = i + 1;
                }
            },
            None => {
                break;
            },
        }
    }
    if !seen {
        proof {
            assert(!is_dec_seq(s@));
        }
        return None;
    }
    proof {
        assert(s@.subrange(0, i) =~= s@);
        assert(is_dec_seq(s@));
    }
    Some(val as usize)
}

} // verus!
