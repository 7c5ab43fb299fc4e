//! Request parameters: extraction of the `IncrementLimit` query parameter.
//!
//! A query string is a sequence of `key=value` pairs separated by `&`.
//! The effective increment limit is 0 when no pair has the key
//! `IncrementLimit`; when exactly one pair has that key, its value must be
//! a non-empty string of decimal digits denoting an integer that fits in a
//! `u64`, and that integer is the limit. A malformed value, a value out of
//! range, or a repeated key is a parameter error and the request is
//! rejected.

use crate::decimal::{
    dec_seq, digit_val, digits_val, is_digit, is_digit_seq, lemma_dec_seq_is_digit_seq,
    lemma_dec_seq_val,
};
use vstd::prelude::*;
use vstd::seq_lib::*;

verus! {

/// The per-request configuration: the one query parameter, with its
/// default of 0 applied when the parameter is absent.
#[derive(Clone, Copy, Debug, PartialEq, Eq, Structural)]
pub struct Params {
    pub increment_limit: u64,
}

/// The query split at every `&` into (possibly empty) pairs. A query with
/// no `&` is a single pair; an empty query is a single empty pair.
pub open spec fn split_amp(q: Seq<char>) -> Seq<Seq<char>>
    decreases q.len(),
{
    if q.len() == 0 {
        seq![Seq::<char>::empty()]
    } else if q[0] == '&' {
        seq![Seq::<char>::empty()] + split_amp(q.skip(1))
    } else {
        let r = split_amp(q.skip(1));
        seq![seq![q[0]] + r[0]] + r.skip(1)
    }
}

/// The position of the first `=` in a pair, or the pair's length when it
/// has none.
pub open spec fn find_eq(p: Seq<char>) -> int
    decreases p.len(),
{
    if p.len() == 0 {
        0
    } else if p[0] == '=' {
        0
    } else {
        1 + find_eq(p.skip(1))
    }
}

/// The key of a pair: everything before the first `=`, or the whole pair
/// when it has no `=`.
pub open spec fn pair_key(p: Seq<char>) -> Seq<char> {
    p.take(find_eq(p))
}

/// The value of a pair: everything after the first `=`; a pair without
/// `=` has the empty value.
pub open spec fn pair_value(p: Seq<char>) -> Seq<char> {
    if find_eq(p) < p.len() {
        p.skip(find_eq(p) + 1)
    } else {
        Seq::empty()
    }
}

/// The name of the one recognized query parameter.
pub open spec fn limit_key() -> Seq<char> {
    "IncrementLimit"@
}

/// Whether a pair's key is `IncrementLimit`.
pub open spec fn is_limit_pair(p: Seq<char>) -> bool {
    pair_key(p) == limit_key()
}

/// The predicate `is_limit_pair` as a closure, for filtering.
pub open spec fn limit_pred() -> spec_fn(Seq<char>) -> bool {
    |p: Seq<char>| is_limit_pair(p)
}

/// The pairs of the query whose key is `IncrementLimit`, in order.
pub open spec fn limit_pairs(q: Seq<char>) -> Seq<Seq<char>> {
    split_amp(q).filter(limit_pred())
}

/// The effective increment limit of a query: `Some(0)` when the parameter
/// is absent, `Some(v)` when it occurs once with a valid value `v`, and
/// `None` (a parameter error) when it occurs more than once or its value
/// is not a digit string that fits in a `u64`.
pub open spec fn effective_limit(q: Seq<char>) -> Option<int> {
    let hits = limit_pairs(q);
    if hits.len() == 0 {
        Some(0int)
    } else if hits.len() == 1 {
        let v = pair_value(hits[0]);
        if is_digit_seq(v) && digits_val(v) <= u64::MAX {
            Some(digits_val(v))
        } else {
            None
        }
    } else {
        None
    }
}

/// `split_amp` always yields at least one pair.
pub proof fn lemma_split_amp_len(q: Seq<char>)
    ensures
        split_amp(q).len() >= 1,
    decreases q.len(),
{
    if q.len() > 0 {
        lemma_split_amp_len(q.skip(1));
    }
}

/// A query without `&` is a single pair: itself.
pub proof fn lemma_split_amp_single(q: Seq<char>)
    requires
        forall|i: int| 0 <= i < q.len() ==> q[i] != '&',
    ensures
        split_amp(q) == seq![q],
    decreases q.len(),
{
    if q.len() == 0 {
        assert(split_amp(q) =~~= seq![q]);
    } else {
        assert(forall|i: int| 0 <= i < q.skip(1).len() ==> q.skip(1)[i] != '&');
        lemma_split_amp_single(q.skip(1));
        let r = split_amp(q.skip(1));
        assert(r[0] == q.skip(1));
        assert(seq![q[0]] + q.skip(1) =~= q);
        assert(r.skip(1) =~~= Seq::<Seq<char>>::empty());
        assert(split_amp(q) =~~= seq![q]);
    }
}

/// Splitting `a & rest` where `a` holds no `&` peels `a` off the front.
pub proof fn lemma_split_amp_step(a: Seq<char>, rest: Seq<char>)
    requires
        forall|i: int| 0 <= i < a.len() ==> a[i] != '&',
    ensures
        split_amp(a + seq!['&'] + rest) == seq![a] + split_amp(rest),
    decreases a.len(),
{
    let q = a + seq!['&'] + rest;
    if a.len() == 0 {
        assert(q.len() > 0 && q[0] == '&');
        assert(q.skip(1) =~= rest);
        assert(split_amp(q) =~~= seq![a] + split_amp(rest));
    } else {
        assert(q[0] == a[0]);
        assert(q[0] != '&');
        assert(q.skip(1) =~= a.skip(1) + seq!['&'] + rest);
        assert(forall|i: int| 0 <= i < a.skip(1).len() ==> a.skip(1)[i] != '&');
        lemma_split_amp_step(a.skip(1), rest);
        let r = split_amp(q.skip(1));
        assert(r == seq![a.skip(1)] + split_amp(rest));
        lemma_split_amp_len(rest);
        assert(r[0] == a.skip(1));
        assert(seq![q[0]] + r[0] =~= a);
        assert(r.skip(1) =~~= split_amp(rest));
        assert(split_amp(q) =~~= seq![a] + split_amp(rest));
    }
}

/// `find_eq` returns the position of the first `=`: if no `=` stands
/// before position `k`, and `k` is either the length or the position of
/// an `=`, then `find_eq` returns `k`.
pub proof fn lemma_find_eq_at(p: Seq<char>, k: int)
    requires
        0 <= k <= p.len(),
        forall|i: int| 0 <= i < k ==> p[i] != '=',
        k < p.len() ==> p[k] == '=',
    ensures
        find_eq(p) == k,
    decreases k,
{
    if k == 0 {
        if p.len() > 0 {
            assert(p[0] == '=');
        }
    } else {
        assert(p[0] != '=');
        assert(p.len() > 0);
        let t = p.skip(1);
        assert(forall|i: int| 0 <= i < k - 1 ==> t[i] != '=');
        assert(k - 1 < t.len() ==> t[k - 1] == '=');
        lemma_find_eq_at(t, k - 1);
    }
}

/// A digit string denotes a non-negative value.
pub proof fn lemma_digits_val_nonneg(s: Seq<char>)
    requires
        forall|i: int| 0 <= i < s.len() ==> is_digit(#[trigger] s[i]),
    ensures
        digits_val(s) >= 0,
    decreases s.len(),
{
    if s.len() > 0 {
        assert(forall|i: int|
            0 <= i < s.drop_last().len() ==> is_digit(#[trigger] s.drop_last()[i]));
        lemma_digits_val_nonneg(s.drop_last());
        assert(is_digit(s.last()));
    }
}

/// Extending a digit string never shrinks the value it denotes.
pub proof fn lemma_digits_val_take_le(s: Seq<char>, k: int)
    requires
        0 <= k <= s.len(),
        forall|i: int| 0 <= i < s.len() ==> is_digit(#[trigger] s[i]),
    ensures
        digits_val(s.take(k)) <= digits_val(s),
    decreases s.len(),
{
    if k == s.len() {
        assert(s.take(k) =~= s);
    } else {
        let t = s.drop_last();
        assert(forall|i: int| 0 <= i < t.len() ==> is_digit(#[trigger] t[i]));
        lemma_digits_val_take_le(t, k);
        assert(s.take(k) =~= t.take(k));
        lemma_digits_val_nonneg(t);
        assert(is_digit(s.last()));
        assert(digits_val(s) == digits_val(t) * 10 + digit_val(s.last()));
        assert(digits_val(t) * 10 >= digits_val(t));
    }
}

/// For every value `n` that fits in a `u64`, the query
/// `IncrementLimit=<decimal of n>` has the effective limit `n`.
pub proof fn lemma_limit_query_value(n: u64)
    ensures
        effective_limit(limit_key() + seq!['='] + dec_seq(n as int)) == Some(n as int),
{
    let key = limit_key();
    let digits = dec_seq(n as int);
    let q = key + seq!['='] + digits;
    reveal_strlit("IncrementLimit");
    lemma_dec_seq_is_digit_seq(n as int);
    lemma_dec_seq_val(n as int);
    assert(key.len() == 14);
    assert(forall|i: int| 0 <= i < key.len() ==> #[trigger] key[i] != '&' && key[i] != '=');
    assert(forall|i: int| 0 <= i < digits.len() ==> #[trigger] digits[i] != '&' && digits[i]
        != '=') by {
        assert(forall|i: int| 0 <= i < digits.len() ==> is_digit(#[trigger] digits[i]));
        assert('&' as u32 == 38);
        assert('=' as u32 == 61);
    }
    assert(q[key.len() as int] == '=');
    assert(forall|i: int| 0 <= i < q.len() ==> #[trigger] q[i] != '&');
    lemma_split_amp_single(q);
    assert(forall|i: int| 0 <= i < 14 ==> #[trigger] q[i] != '=');
    lemma_find_eq_at(q, 14);
    assert(pair_key(q) =~= key);
    assert(is_limit_pair(q));
    assert(limit_pairs(q) =~~= seq![q]) by {
        reveal(Seq::filter);
        assert(seq![q].drop_last() =~= Seq::<Seq<char>>::empty());
        assert(Seq::<Seq<char>>::empty().filter(limit_pred()) =~~= Seq::<Seq<char>>::empty());
        assert(seq![q].last() == q);
    }
    assert(pair_value(q) =~= digits);
    assert(digits_val(digits) == n);
}

/// A query without the `IncrementLimit` parameter behaves identically to
/// the query `IncrementLimit=0`: both have the effective limit 0.
pub proof fn lemma_absent_is_default(q: Seq<char>)
    requires
        limit_pairs(q).len() == 0,
    ensures
        effective_limit(q) == Some(0int),
        effective_limit(q) == effective_limit("IncrementLimit=0"@),
{
    reveal_strlit("IncrementLimit=0");
    reveal_strlit("IncrementLimit");
    assert(dec_seq(0) =~= seq!['0']);
    assert("IncrementLimit=0"@ =~= limit_key() + seq!['='] + dec_seq(0));
    lemma_limit_query_value(0);
}

/// Finds the next `&` at or after `from`: returns its position, or the
/// end of the string when there is none before it.
fn find_amp_from(q: &str, from: usize, n: usize) -> (j: usize)
    requires
        n == q@.len(),
        from <= n,
    ensures
        from <= j <= n,
        forall|k: int| from <= k < j ==> q@[k] != '&',
        j < n ==> q@[j as int] == '&',
{
    let mut j: usize = from;
    while j < n && q.get_char(j) != '&'
        invariant
            from <= j <= n,
            n == q@.len(),
            forall|k: int| from <= k < j ==> q@[k] != '&',
        decreases n - j,
    {
        j = j + 1;
    }
    j
}

/// Finds the first `=` in `[from, to)`: returns its position, or `to`
/// when there is none.
fn find_eq_in(q: &str, from: usize, to: usize) -> (e: usize)
    requires
        to <= q@.len(),
        from <= to,
    ensures
        from <= e <= to,
        forall|k: int| from <= k < e ==> q@[k] != '=',
        e < to ==> q@[e as int] == '=',
{
    let mut e: usize = from;
    while e < to && q.get_char(e) != '='
        invariant
            from <= e <= to,
            to <= q@.len(),
            forall|k: int| from <= k < e ==> q@[k] != '=',
        decreases to - e,
    {
        e = e + 1;
    }
    e
}

/// Whether the characters in `[from, to)` spell `IncrementLimit`.
fn is_limit_key(q: &str, from: usize, to: usize) -> (r: bool)
    requires
        to <= q@.len(),
        from <= to,
    ensures
        r <==> q@.subrange(from as int, to as int) == limit_key(),
{
    let key = "IncrementLimit";
    let klen = key.unicode_len();
    if to - from != klen {
        proof {
            assert(q@.subrange(from as int, to as int).len() != limit_key().len());
        }
        return false;
    }
    let mut i: usize = 0;
    while i < klen
        invariant
            i <= klen,
            klen == limit_key().len(),
            to - from == klen,
            from <= to <= q@.len(),
            key@ == limit_key(),
            forall|k: int| 0 <= k < i ==> q@[from + k] == limit_key()[k],
        decreases klen - i,
    {
        if q.get_char(from + i) != key.get_char(i) {
            proof {
                assert(q@.subrange(from as int, to as int)[i as int] != limit_key()[i as int]);
            }
            return false;
        }
        i = i + 1;
    }
    proof {
        assert(q@.subrange(from as int, to as int) =~= limit_key());
    }
    true
}

/// Parses the characters in `[from, to)` as a non-negative integer:
/// `Some` exactly when they are a non-empty digit string whose value fits
/// in a `u64`.
fn parse_value(q: &str, from: usize, to: usize) -> (r: Option<u64>)
    requires
        to <= q@.len(),
        from <= to,
    ensures
        ({
            let v = q@.subrange(from as int, to as int);
            match r {
                Some(x) => is_digit_seq(v) && digits_val(v) == x,
                None => !(is_digit_seq(v) && digits_val(v) <= u64::MAX),
            }
        }),
{
    let ghost v = q@.subrange(from as int, to as int);
    if from == to {
        proof {
            assert(!is_digit_seq(v));
        }
        return None;
    }
    let mut acc: u64 = 0;
    let mut ok: bool = true;
    let mut k: usize = from;
    while k < to
        invariant
            from <= k <= to,
            to <= q@.len(),
            v == q@.subrange(from as int, to as int),
            ok ==> forall|i: int| 0 <= i < k - from ==> is_digit(#[trigger] v[i]),
            ok ==> acc == digits_val(v.take(k - from)),
            !ok ==> !(is_digit_seq(v) && digits_val(v) <= u64::MAX),
        decreases to - k,
    {
        if ok {
            let c = q.get_char(k);
            let c32: u32 = c as u32;
            proof {
                assert(v[k - from] == q@[k as int]);
            }
            if c32 < 48 || c32 > 57 {
                proof {
                    assert(!is_digit(v[k - from]));
                    assert(!is_digit_seq(v));
                }
                ok = false;
            } else {
                let d: u64 = (c32 - 48) as u64;
                proof {
                    assert(is_digit(v[k - from]));
                    assert(digit_val(v[k - from]) == d);
                    assert(v.take(k - from + 1).drop_last() =~= v.take(k - from));
                    assert(v.take(k - from + 1).last() == v[k - from]);
                    assert(digits_val(v.take(k - from + 1)) == digits_val(v.take(k - from)) * 10
                        + d);
                }
                if acc <= (u64::MAX - d) / 10 {
                    acc = acc * 10 + d;
                } else {
                    proof {
                        assert(acc * 10 + d > u64::MAX) by {
                            vstd::arithmetic::div_mod::lemma_fundamental_div_mod(
                                (u64::MAX - d) as int,
                                10,
                            );
                        }
                        if is_digit_seq(v) && digits_val(v) <= u64::MAX {
                            lemma_digits_val_take_le(v, k - from + 1);
                            assert(false);
                        }
                    }
                    ok = false;
                }
            }
        }
        k = k + 1;
    }
    if ok {
        proof {
            assert(v.take(to - from) =~= v);
            assert(is_digit_seq(v));
        }
        Some(acc)
    } else {
        None
    }
}

impl Params {
    /// Extracts the request parameters from a raw query string: `Some`
    /// with the effective increment limit (0 when the parameter is
    /// absent), `None` on a parameter error.
    pub fn from_query(q: &str) -> (r: Option<Params>)
        ensures
            match r {
                Some(p) => effective_limit(q@) == Some(p.increment_limit as int),
                None => effective_limit(q@) is None,
            },
    {
        let n = q.unicode_len();
        let mut pos: usize = 0;
        let mut hits: usize = 0;
        let mut value: u64 = 0;
        let mut valid: bool = false;
        let mut finished: bool = false;
        let ghost mut done: Seq<Seq<char>> = Seq::empty();
        proof {
            assert(q@.subrange(0, n as int) =~= q@);
            assert(done + split_amp(q@) =~= split_amp(q@));
            assert(done.filter(limit_pred()) =~~= Seq::<Seq<char>>::empty()) by {
                reveal(Seq::filter);
            }
        }
        while !finished
            invariant
                n == q@.len(),
                pos <= n,
                split_amp(q@) == if finished {
                    done
                } else {
                    done + split_amp(q@.subrange(pos as int, n as int))
                },
                hits <= 2,
                ({
                    let hf = done.filter(limit_pred());
                    &&& (hits == 0 <==> hf.len() == 0)
                    &&& (hits == 1 <==> hf.len() == 1)
                    &&& (hits == 2 <==> hf.len() >= 2)
                    &&& (hf.len() == 1 ==> {
                        let v = pair_value(hf[0]);
                        &&& (valid <==> is_digit_seq(v) && digits_val(v) <= u64::MAX)
                        &&& (valid ==> value == digits_val(v))
                    })
                }),
            decreases n - pos + if finished {
                0int
            } else {
                1int
            },
        {
            let j = find_amp_from(q, pos, n);
            let ghost pair = q@.subrange(pos as int, j as int);
            let e = find_eq_in(q, pos, j);
            proof {
                assert(forall|i: int| 0 <= i < e - pos ==> pair[i] != '=');
                assert(e < j ==> pair[e - pos] == '=');
                lemma_find_eq_at(pair, e - pos);
            }
            let limit_here = is_limit_key(q, pos, e);
            proof {
                assert(pair.take(e - pos) =~= q@.subrange(pos as int, e as int));
                assert(limit_here <==> is_limit_pair(pair));
            }
            if limit_here && hits == 0 {
                let vr = if e < j {
                    proof {
                        assert(pair.skip(e - pos + 1) =~= q@.subrange(e + 1, j as int));
                    }
                    parse_value(q, e + 1, j)
                } else {
                    proof {
                        assert(pair_value(pair) =~= Seq::<char>::empty());
                        assert(!is_digit_seq(pair_value(pair)));
                    }
                    None
                };
                match vr {
                    Some(x) => {
                        value = x;
                        valid = true;
                    },
                    None => {
                        valid = false;
                    },
                }
                hits = 1;
            } else if limit_here && hits == 1 {
                hits = 2;
            }
            proof {
                let hf = done.filter(limit_pred());
                assert(done.push(pair).drop_last() =~= done);
                assert(done.push(pair).last() == pair);
                assert(done.push(pair).filter(limit_pred()) == if limit_pred()(pair) {
                    hf.push(pair)
                } else {
                    hf
                }) by {
                    reveal(Seq::filter);
                }
                if is_limit_pair(pair) {
                    assert(hf.push(pair).len() == hf.len() + 1);
                    if hf.len() == 0 {
                        assert(hf.push(pair)[0] == pair);
                    }
                }
            }
            if j == n {
                proof {
                    assert(forall|i: int| 0 <= i < pair.len() ==> pair[i] != '&');
                    lemma_split_amp_single(pair);
                    assert(q@.subrange(pos as int, n as int) == pair);
                    assert(done + seq![pair] =~~= done.push(pair));
                    done = done.push(pair);
                }
                finished = true;
            } else {
                proof {
                    let rest = q@.subrange(j + 1, n as int);
                    assert(forall|i: int| 0 <= i < pair.len() ==> pair[i] != '&');
                    assert(q@.subrange(pos as int, n as int) =~= pair + seq!['&'] + rest);
                    lemma_split_amp_step(pair, rest);
                    assert(done + (seq![pair] + split_amp(rest)) =~~= done.push(pair)
                        + split_amp(rest));
                    done = done.push(pair);
                }
                pos = j + 1;
            }
        }
        if hits == 0 {
            Some(Params { increment_limit: 0 })
        } else if hits == 1 && valid {
            Some(Params { increment_limit: value })
        } else {
            None
        }
    }
}

} // verus!
