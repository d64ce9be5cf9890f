//! Substitution of positional placeholders (`$` followed by digits) in a
//! macro's template.
use vstd::prelude::*;

verus! {

/// An ASCII decimal digit.
pub open spec fn is_digit(c: char) -> bool {
    '0' <= c && c <= '9'
}

/// The value of an ASCII digit.
pub open spec fn digit_value(c: char) -> nat {
    ((c as u32) - ('0' as u32)) as nat
}

/// The number that a string of decimal digits writes.
pub open spec fn digits_value(d: Seq<char>) -> nat
    decreases d.len(),
{
    if d.len() == 0 {
        0
    } else {
        digits_value(d.drop_last()) * 10 + digit_value(d.last())
    }
}

/// The end of the run of digits in `t` that starts at `i`.
pub open spec fn digits_end(t: Seq<char>, i: int) -> int
    decreases t.len() - i,
{
    if 0 <= i < t.len() && is_digit(t[i]) {
        digits_end(t, i + 1)
    } else {
        i
    }
}

/// Whether a placeholder starts at index `i` of `t`.
pub open spec fn placeholder_at(t: Seq<char>, i: int) -> bool {
    0 <= i && i + 1 < t.len() && t[i] == '$' && is_digit(t[i + 1])
}

/// The views of a list of character vectors.
pub open spec fn views(v: Seq<Vec<char>>) -> Seq<Seq<char>> {
    v.map_values(|a: Vec<char>| a@)
}

/// `p` put in front of a successful result; an error passes through.
pub open spec fn prefixed(p: Seq<char>, r: Result<Seq<char>, Seq<char>>) -> Result<
    Seq<char>,
    Seq<char>,
> {
    match r {
        Ok(s) => Ok(p + s),
        Err(e) => Err(e),
    }
}

/// The expansion of `t` from index `i` on, each placeholder `$n` replaced by
/// `args[n]` in one left-to-right pass. An error holds the digits of the
/// leftmost placeholder whose index has no argument.
pub open spec fn subst_from(t: Seq<char>, args: Seq<Seq<char>>, i: int) -> Result<
    Seq<char>,
    Seq<char>,
>
    decreases t.len() - i,
    via subst_from_decreases
{
    if i < 0 || i >= t.len() {
        Ok(Seq::empty())
    } else if placeholder_at(t, i) {
        let j = digits_end(t, i + 1);
        let k = digits_value(t.subrange(i + 1, j));
        if k < args.len() {
            prefixed(args[k as int], subst_from(t, args, j))
        } else {
            Err(t.subrange(i + 1, j))
        }
    } else {
        prefixed(seq![t[i]], subst_from(t, args, i + 1))
    }
}

/// The expansion of the whole template `t` with arguments `args`.
pub open spec fn substitute(t: Seq<char>, args: Seq<Seq<char>>) -> Result<Seq<char>, Seq<char>> {
    subst_from(t, args, 0)
}

#[via_fn]
proof fn subst_from_decreases(t: Seq<char>, args: Seq<Seq<char>>, i: int) {
    if 0 <= i < t.len() && placeholder_at(t, i) {
        lemma_digits_end_bounds(t, i + 1);
    }
}

/// The run of digits from `i` ends at or after `i`, and within `t`.
pub proof fn lemma_digits_end_bounds(t: Seq<char>, i: int)
    requires
        0 <= i <= t.len(),
    ensures
        i <= digits_end(t, i) <= t.len(),
    decreases t.len() - i,
{
    if i < t.len() && is_digit(t[i]) {
        lemma_digits_end_bounds(t, i + 1);
    }
}

/// A run of digits from `i` to `j` that stops at `j` ends there.
pub proof fn lemma_digits_end(t: Seq<char>, i: int, j: int)
    requires
        0 <= i <= j <= t.len(),
        forall|k: int| i <= k < j ==> is_digit(#[trigger] t[k]),
        j == t.len() || !is_digit(t[j]),
    ensures
        digits_end(t, i) == j,
    decreases j - i,
{
    if i < j {
        lemma_digits_end(t, i + 1, j);
    }
}

proof fn lemma_prefixed_assoc(p: Seq<char>, q: Seq<char>, r: Result<Seq<char>, Seq<char>>)
    ensures
        prefixed(p, prefixed(q, r)) == prefixed(p + q, r),
{
    match r {
        Ok(s) => {
            assert(p + (q + s) =~= (p + q) + s);
        },
        Err(_) => {},
    }
}

/// Whether `c` is an ASCII digit.
pub fn is_ascii_digit(c: char) -> (r: bool)
    ensures
        r == is_digit(c),
{
    c >= '0' && c <= '9'
}

/// Replaces each placeholder `$n` of the template `val` by `args[n]`; an index
/// with no argument is an error that returns the placeholder's digits.
pub fn expand(val: &Vec<char>, args: &Vec<Vec<char>>) -> (r: Result<Vec<char>, Vec<char>>)
    ensures
        match substitute(val@, views(args@)) {
            Ok(s) => r matches Ok(out) && out@ == s,
            Err(d) => r matches Err(e) && e@ == d,
        },
{
    let ghost t = val@;
    let ghost a = views(args@);
    let n = val.len();
    let nargs = args.len();
    let mut result: Vec<char> = Vec::new();
    let mut i: usize = 0;
    assert(result@ + Seq::<char>::empty() =~= Seq::<char>::empty());
    while i < n
        invariant
            i <= n,
            n == t.len(),
            t == val@,
            a == views(args@),
            nargs == args@.len(),
            substitute(t, a) == prefixed(result@, subst_from(t, a, i as int)),
        decreases n - i,
    {
        if val[i] == '$' && i + 1 < n && is_ascii_digit(val[i + 1]) {
            let mut j: usize = i + 1;
            let mut k: usize = 0;
            while j < n && is_ascii_digit(val[j])
                invariant
                    i + 1 <= j <= n,
                    n == t.len(),
                    t == val@,
                    forall|m: int| i + 1 <= m < j ==> is_digit(#[trigger] t[m]),
                    k == if digits_value(t.subrange(i + 1, j as int)) < nargs {
                        digits_value(t.subrange(i + 1, j as int))
                    } else {
                        nargs as nat
                    },
                decreases n - j,
            {
                let d = (val[j] as u32 - '0' as u32) as usize;
                let ghost before = t.subrange(i + 1, j as int);
                assert(t.subrange(i + 1, j + 1).drop_last() =~= before);
                if k >= nargs {
                    k = nargs;
                } else {
                    let kk: u128 = (k as u128) * 10 + d as u128;
                    if kk >= nargs as u128 {
                        k = nargs;
                    } else {
                        k = kk as usize;
                    }
                }
                j += 1;
            }
            proof {
                lemma_digits_end(t, i + 1, j as int);
            }
            if k < nargs {
                let ghost rest = subst_from(t, a, j as int);
                proof {
                    lemma_prefixed_assoc(result@, args@[k as int]@, rest);
                }
                crate::text::append_chars(&mut result, &args[k]);
                i = j;
            } else {
                let mut digits: Vec<char> = Vec::new();
                let mut m: usize = i + 1;
                while m < j
                    invariant
                        i + 1 <= m <= j <= n,
                        n == t.len(),
                        t == val@,
                        digits@ == t.subrange(i + 1, m as int),
                    decreases j - m,
                {
                    digits.push(val[m]);
                    m += 1;
                    assert(digits@ =~= t.subrange(i + 1, m as int));
                }
                return Err(digits);
            }
        } else {
            proof {
                lemma_prefixed_assoc(result@, seq![t[i as int]], subst_from(t, a, i + 1));
            }
            let ghost prev = result@;
            result.push(val[i]);
            assert(result@ =~= prev + seq![t[i as int]]);
            i += 1;
        }
    }
    assert(result@ + Seq::<char>::empty() =~= result@);
    Ok(result)
}

} // verus!
