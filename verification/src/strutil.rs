//! Small verified string helpers: decimal rendering of integers, the
//! `tenant.database` owner naming scheme, and file-path assembly.

use vstd::prelude::*;
use vstd::std_specs::iter::IteratorSpec;

verus! {

/// The character for a single decimal digit `d` (`d < 10`).
pub open spec fn digit_char(d: nat) -> char {
    (((48 + d) as u8) as char)
}

/// The decimal digit sequence of `n`, most significant first.
pub open spec fn dec_digits(n: nat) -> Seq<char>
    decreases n,
{
    if n < 10 {
        seq![digit_char(n)]
    } else {
        dec_digits(n / 10).push(digit_char(n % 10))
    }
}

/// The textual form of a signed value: a minus sign for negatives, then the
/// decimal digits of the magnitude.
pub open spec fn dec_digits_signed(n: int) -> Seq<char> {
    if n < 0 {
        seq!['-'].add(dec_digits((-n) as nat))
    } else {
        dec_digits(n as nat)
    }
}

pub assume_specification[ String::push ](s: &mut String, ch: char)
    ensures
        final(s)@ == old(s)@.push(ch),
;

pub assume_specification[ String::push_str ](s: &mut String, other: &str)
    ensures
        final(s)@ == old(s)@ + other@,
;

/// Appends the decimal digits of `n` to `out`.
pub fn push_decimal(n: u64, out: &mut String)
    ensures
        final(out)@ == old(out)@ + dec_digits(n as nat),
    decreases n,
{
    if n >= 10 {
        push_decimal(n / 10, out);
    }
    let d: u8 = (n % 10) as u8;
    out.push((48 + d) as char);
    proof {
        if n < 10 {
            assert(dec_digits(n as nat) =~= seq![digit_char(n as nat)]);
            assert(old(out)@ + dec_digits(n as nat) =~= old(out)@.push(digit_char(n as nat)));
        } else {
            assert(old(out)@ + dec_digits(n as nat) =~= (old(out)@
                + dec_digits(n as nat / 10)).push(digit_char(n as nat % 10)));
        }
    }
}

/// The decimal text of `n`.
pub fn u64_to_string(n: u64) -> (r: String)
    ensures
        r@ == dec_digits(n as nat),
{
    let mut out = String::new();
    push_decimal(n, &mut out);
    proof {
        assert(Seq::<char>::empty() + dec_digits(n as nat) =~= dec_digits(n as nat));
    }
    out
}

/// The decimal text of `n`, with a leading minus sign when negative.
pub fn i64_to_string(n: i64) -> (r: String)
    ensures
        r@ == dec_digits_signed(n as int),
{
    if n >= 0 {
        u64_to_string(n as u64)
    } else {
        let mut out = String::new();
        out.push('-');
        // i64::MIN has no i64 negation; widen through i128 first.
        let mag: u64 = (-(n as i128)) as u64;
        push_decimal(mag, &mut out);
        proof {
            assert(out@ =~= dec_digits_signed(n as int));
        }
        out
    }
}

/// The owner name of a database: `tenant.database`.
pub open spec fn spec_owner(tenant: Seq<char>, database: Seq<char>) -> Seq<char> {
    tenant + seq!['.'] + database
}

/// Joins a tenant name and a database name into the owner name used as the
/// registry key.
pub fn make_owner(tenant: &str, database: &str) -> (r: String)
    ensures
        r@ == spec_owner(tenant@, database@),
{
    let mut out = String::new();
    out.push_str(tenant);
    out.push('.');
    out.push_str(database);
    proof {
        assert(out@ =~= spec_owner(tenant@, database@));
    }
    out
}

/// The position of the first occurrence of `c` in `s`, if any.
pub open spec fn spec_find_char(s: Seq<char>, c: char) -> Option<int>
    decreases s.len(),
{
    if s.len() == 0 {
        None
    } else if s[0] == c {
        Some(0)
    } else {
        match spec_find_char(s.drop_first(), c) {
            Some(i) => Some(i + 1),
            None => None,
        }
    }
}

/// A position holding `c` with nothing before it is the first occurrence.
pub proof fn lemma_find_char_at(s: Seq<char>, c: char, i: int)
    requires
        0 <= i < s.len(),
        s[i] == c,
        forall|j: int| 0 <= j < i ==> s[j] != c,
    ensures
        spec_find_char(s, c) == Some(i),
    decreases s.len(),
{
    if i > 0 {
        assert(forall|j: int| 0 <= j < s.drop_first().len() ==> s.drop_first()[j] == s[j + 1]);
        lemma_find_char_at(s.drop_first(), c, i - 1);
    }
}

/// Without an occurrence, there is no first one.
pub proof fn lemma_find_char_none(s: Seq<char>, c: char)
    requires
        forall|j: int| 0 <= j < s.len() ==> s[j] != c,
    ensures
        spec_find_char(s, c) is None,
    decreases s.len(),
{
    if s.len() > 0 {
        assert(forall|j: int| 0 <= j < s.drop_first().len() ==> s.drop_first()[j] == s[j + 1]);
        lemma_find_char_none(s.drop_first(), c);
    }
}

/// Splits an owner name at its first dot into the tenant and the database
/// name; a name without a dot is all tenant, with an empty database name.
pub fn split_owner(owner: &str) -> (r: (String, String))
    ensures
        match spec_find_char(owner@, '.') {
            Some(i) => r.0@ == owner@.take(i) && r.1@ == owner@.skip(i + 1),
            None => r.0@ == owner@ && r.1@ == Seq::<char>::empty(),
        },
{
    let ghost s = owner@;
    let mut before = String::new();
    let mut after = String::new();
    let mut it = owner.chars();
    let ghost mut k: int = 0;
    let mut found = false;
    loop
        invariant_except_break
            !found,
            0 <= k <= s.len(),
            it.obeys_prophetic_iter_laws(),
            IteratorSpec::remaining(&it) == s.skip(k),
            before@ == s.take(k),
            forall|j: int| 0 <= j < k ==> s[j] != '.',
            s == owner@,
            after@ == Seq::<char>::empty(),
        ensures
            s == owner@,
            after@ == Seq::<char>::empty(),
            !found ==> before@ == s && (forall|j: int| 0 <= j < s.len() ==> s[j] != '.'),
            found ==> 1 <= k <= s.len() && s[k - 1] == '.' && before@ == s.take(k - 1) && (forall|
                j: int,
            |
                0 <= j < k - 1 ==> s[j] != '.') && vstd::std_specs::iter::IteratorSpec::remaining(
                &it,
            ) == s.skip(k),
        decreases s.len() - k,
    {
        match it.next() {
            None => {
                proof {
                    assert(s.skip(k).len() == 0);
                    assert(k == s.len());
                    assert(before@ =~= s);
                }
                break ;
            },
            Some(c) => {
                proof {
                    assert(s.skip(k).len() > 0);
                    assert(s.skip(k)[0] == s[k]);
                    assert(s.skip(k).drop_first() =~= s.skip(k + 1));
                    k = k + 1;
                }
                if c == '.' {
                    found = true;
                    break ;
                }
                before.push(c);
                proof {
                    assert(before@ =~= s.take(k));
                }
            },
        }
    }
    if found {
        let ghost k0 = k;
        loop
            invariant_except_break
                k0 <= k <= s.len(),
                it.obeys_prophetic_iter_laws(),
                IteratorSpec::remaining(&it) == s.skip(k),
                after@ == s.subrange(k0, k),
                1 <= k0 <= s.len(),
                s[k0 - 1] == '.',
                before@ == s.take(k0 - 1),
                forall|j: int| 0 <= j < k0 - 1 ==> s[j] != '.',
                s == owner@,
            ensures
                after@ == s.skip(k0),
                1 <= k0 <= s.len(),
                s[k0 - 1] == '.',
                before@ == s.take(k0 - 1),
                forall|j: int| 0 <= j < k0 - 1 ==> s[j] != '.',
                s == owner@,
            decreases s.len() - k,
        {
            match it.next() {
                None => {
                    proof {
                        assert(s.skip(k).len() == 0);
                        assert(k == s.len());
                        assert(after@ =~= s.skip(k0));
                    }
                    break ;
                },
                Some(c) => {
                    proof {
                        assert(s.skip(k).len() > 0);
                        assert(s.skip(k)[0] == s[k]);
                        assert(s.skip(k).drop_first() =~= s.skip(k + 1));
                        k = k + 1;
                    }
                    after.push(c);
                    proof {
                        assert(after@ =~= s.subrange(k0, k));
                    }
                },
            }
        }
        proof {
            lemma_find_char_at(s, '.', k0 - 1);
        }
        (before, after)
    } else {
        proof {
            lemma_find_char_none(s, '.');
        }
        (before, after)
    }
}

} // verus!
