//! Byte ranges of the form `bytes=<first>-<last>`, as an object read takes
//! them: `bytes=a-b` is bytes `a` to `b` inclusive, `bytes=a-` is everything
//! from `a`, `bytes=-n` is the last `n` bytes.
use vstd::prelude::*;

verus! {

/// The index of the first `c` in `s`, or `s.len()` when there is none.
pub open spec fn index_of_char(s: Seq<char>, c: char) -> int
    decreases s.len(),
{
    if s.len() == 0 {
        0
    } else if s[0] == c {
        0
    } else {
        1 + index_of_char(s.drop_first(), c)
    }
}

/// The value of a decimal digit.
pub open spec fn digit_value(c: char) -> nat {
    (c as u32 - '0' as u32) as nat
}

pub open spec fn is_digit(c: char) -> bool {
    '0' <= c && c <= '9'
}

/// Every character of `t` is a decimal digit.
pub open spec fn all_digits(t: Seq<char>) -> bool {
    forall|i: int| 0 <= i < t.len() ==> is_digit(#[trigger] t[i])
}

/// The number that the decimal digits `s` write.
pub open spec fn decimal_value(s: Seq<char>) -> nat
    decreases s.len(),
{
    if s.len() == 0 {
        0
    } else {
        decimal_value(s.drop_last()) * 10 + digit_value(s.last())
    }
}

/// What parsing `s` as a `usize` gives: an optional `+`, then one digit or
/// more and nothing else, of a value that fits.
pub open spec fn parse_usize(s: Seq<char>) -> Option<nat> {
    let t = if s.len() > 0 && s[0] == '+' {
        s.drop_first()
    } else {
        s
    };
    if t.len() > 0 && all_digits(t) && decimal_value(t) <= usize::MAX {
        Some(decimal_value(t))
    } else {
        None
    }
}

/// How a range request on a body of `len` bytes comes out.
pub enum RangeSpec {
    /// The bytes from `start` up to, not including, `end`.
    Slice(int, int),
    /// The range is not in bytes; this is its unit.
    UnsupportedUnit(Seq<char>),
    /// The range is malformed, or reaches outside the body.
    Invalid,
}

/// The bounds that the bound texts `bs` (first) and `es` (last) select in a
/// body of `len` bytes.
pub open spec fn bounds_of(bs: Seq<char>, es: Seq<char>, len: int) -> RangeSpec {
    if (bs.len() > 0 && parse_usize(bs) is None) || (es.len() > 0 && parse_usize(es) is None) {
        RangeSpec::Invalid
    } else if bs.len() > 0 && es.len() > 0 {
        let b = parse_usize(bs)->Some_0 as int;
        let e = parse_usize(es)->Some_0 as int;
        if e < len && b <= e + 1 {
            RangeSpec::Slice(b, e + 1)
        } else {
            RangeSpec::Invalid
        }
    } else if bs.len() > 0 {
        let b = parse_usize(bs)->Some_0 as int;
        if b <= len {
            RangeSpec::Slice(b, len)
        } else {
            RangeSpec::Invalid
        }
    } else if es.len() > 0 {
        let n = parse_usize(es)->Some_0 as int;
        if n <= len {
            RangeSpec::Slice(len - n, len)
        } else {
            RangeSpec::Invalid
        }
    } else {
        RangeSpec::Slice(0, len)
    }
}

/// How the range request `r` comes out on a body of `len` bytes. The unit is
/// what stands before the first `=`; the range set is what follows it, up to
/// a second `=`; the set splits at its first `-`.
pub open spec fn range_bounds(r: Seq<char>, len: int) -> RangeSpec {
    let eq = index_of_char(r, '=');
    let unit = r.subrange(0, eq);
    if unit != seq!['b', 'y', 't', 'e', 's'] {
        RangeSpec::UnsupportedUnit(unit)
    } else if eq >= r.len() {
        RangeSpec::Invalid
    } else {
        let rest = r.subrange(eq + 1, r.len() as int);
        let set = rest.subrange(0, index_of_char(rest, '='));
        let dash = index_of_char(set, '-');
        if dash >= set.len() {
            RangeSpec::Invalid
        } else {
            bounds_of(set.subrange(0, dash), set.subrange(dash + 1, set.len() as int), len)
        }
    }
}

proof fn lemma_index_of_char_bounds(s: Seq<char>, c: char)
    ensures
        0 <= index_of_char(s, c) <= s.len(),
        index_of_char(s, c) < s.len() ==> s[index_of_char(s, c)] == c,
        forall|j: int| 0 <= j < index_of_char(s, c) ==> s[j] != c,
    decreases s.len(),
{
    if s.len() > 0 && s[0] != c {
        lemma_index_of_char_bounds(s.drop_first(), c);
        assert forall|j: int| 0 <= j < index_of_char(s, c) implies s[j] != c by {
            if j > 0 {
                assert(s[j] == s.drop_first()[j - 1]);
            }
        }
    }
}

proof fn lemma_index_of_char_unique(s: Seq<char>, c: char, i: int)
    requires
        0 <= i <= s.len(),
        i < s.len() ==> s[i] == c,
        forall|j: int| 0 <= j < i ==> s[j] != c,
    ensures
        index_of_char(s, c) == i,
    decreases s.len(),
{
    if s.len() > 0 && i > 0 {
        assert forall|j: int| 0 <= j < i - 1 implies s.drop_first()[j] != c by {
            assert(s.drop_first()[j] == s[j + 1]);
        }
        lemma_index_of_char_unique(s.drop_first(), c, i - 1);
    }
}

/// The index of the first `c` in `s`, or its length.
pub fn find_char(s: &str, c: char) -> (r: usize)
    ensures
        r == index_of_char(s@, c),
{
    let n = s.unicode_len();
    let mut i: usize = 0;
    while i < n
        invariant
            n == s@.len(),
            i <= n,
            forall|j: int| 0 <= j < i ==> s@[j] != c,
        decreases n - i,
    {
        if s.get_char(i) == c {
            proof {
                lemma_index_of_char_unique(s@, c, i as int);
            }
            return i;
        }
        i = i + 1;
    }
    proof {
        lemma_index_of_char_unique(s@, c, n as int);
    }
    n
}

proof fn lemma_decimal_grows(t: Seq<char>, i: int)
    requires
        0 <= i <= t.len(),
    ensures
        decimal_value(t.subrange(0, i)) <= decimal_value(t),
    decreases t.len() - i,
{
    if i < t.len() {
        lemma_decimal_grows(t, i + 1);
        let p = t.subrange(0, i + 1);
        assert(p.drop_last() =~= t.subrange(0, i));
        assert(decimal_value(p) == decimal_value(t.subrange(0, i)) * 10 + digit_value(p.last()));
    } else {
        assert(t.subrange(0, i) =~= t);
    }
}

/// Parses `s` as Rust parses a `usize`: an optional `+`, then decimal digits
/// only, at least one, of a value that fits.
pub fn parse_decimal(s: &str) -> (r: Option<usize>)
    ensures
        match parse_usize(s@) {
            Some(v) => r == Some(v as usize),
            None => r is None,
        },
{
    let n = s.unicode_len();
    let start: usize = if n > 0 && s.get_char(0) == '+' { 1 } else { 0 };
    let ghost t = if s@.len() > 0 && s@[0] == '+' { s@.drop_first() } else { s@ };
    assert(t =~= s@.subrange(start as int, n as int));
    if start >= n {
        return None;
    }
    let mut acc: usize = 0;
    let mut i: usize = start;
    while i < n
        invariant
            n == s@.len(),
            start <= i <= n,
            t == s@.subrange(start as int, n as int),
            t == (if s@.len() > 0 && s@[0] == '+' { s@.drop_first() } else { s@ }),
            acc == decimal_value(t.subrange(0, i - start)),
            forall|j: int| 0 <= j < i - start ==> is_digit(#[trigger] t[j]),
        decreases n - i,
    {
        let c = s.get_char(i);
        if !('0' <= c && c <= '9') {
            assert(!is_digit(t[i - start]));
            assert(!all_digits(t));
            assert(parse_usize(s@) is None);
            return None;
        }
        let d = (c as u32 - '0' as u32) as usize;
        proof {
            let p = t.subrange(0, i - start + 1);
            assert(p.drop_last() =~= t.subrange(0, i - start));
            assert(p.last() == c);
            assert(decimal_value(p) == acc * 10 + d);
        }
        if acc > (usize::MAX - d) / 10 {
            proof {
                assert(acc * 10 + d > usize::MAX) by (nonlinear_arith)
                    requires
                        acc > (usize::MAX - d) / 10,
                        d <= 9,
                ;
                lemma_decimal_grows(t, i - start + 1);
                assert(decimal_value(t) > usize::MAX);
                assert(parse_usize(s@) is None);
            }
            return None;
        }
        assert(acc * 10 + d <= usize::MAX) by (nonlinear_arith)
            requires
                acc <= (usize::MAX - d) / 10,
                d <= 9,
        ;
        acc = acc * 10 + d;
        i = i + 1;
    }
    assert(t.subrange(0, n - start) =~= t);
    Some(acc)
}

/// The bounds that `bytes=...` text `bs`-`es` selects in a body of `len` bytes:
/// `Ok` with start and end, or `Err(())` when the range is invalid there.
fn select(bs: &str, es: &str, len: usize) -> (r: Result<(usize, usize), ()>)
    ensures
        match bounds_of(bs@, es@, len as int) {
            RangeSpec::Slice(a, b) => r == Ok::<(usize, usize), ()>((a as usize, b as usize)) && 0 <= a <= b <= len,
            _ => r is Err,
        },
{
    let bl = bs.unicode_len();
    let el = es.unicode_len();
    let b = if bl == 0 {
        None
    } else {
        match parse_decimal(bs) {
            Some(v) => Some(v),
            None => return Err(()),
        }
    };
    let e = if el == 0 {
        None
    } else {
        match parse_decimal(es) {
            Some(v) => Some(v),
            None => return Err(()),
        }
    };
    match (b, e) {
        (Some(b), Some(e)) => {
            if e < len && b <= e + 1 {
                Ok((b, e + 1))
            } else {
                Err(())
            }
        },
        (Some(b), None) => {
            if b <= len {
                Ok((b, len))
            } else {
                Err(())
            }
        },
        (None, Some(n)) => {
            if n <= len {
                Ok((len - n, len))
            } else {
                Err(())
            }
        },
        (None, None) => Ok((0, len)),
    }
}

/// Where the range request `r` selects in a body of `len` bytes: `Ok` with
/// start and end; `Err(Some(unit))` for a unit other than bytes;
/// `Err(None)` for a malformed range or one that reaches outside the body.
pub fn parse_range(r: &str, len: usize) -> (res: Result<(usize, usize), Option<String>>)
    ensures
        match range_bounds(r@, len as int) {
            RangeSpec::Slice(a, b) => res == Ok::<(usize, usize), Option<String>>((a as usize, b as usize)) && 0
                <= a <= b <= len,
            RangeSpec::UnsupportedUnit(u) => res matches Err(Some(m)) && m@ == u,
            RangeSpec::Invalid => res matches Err(None),
        },
{
    proof {
        lemma_index_of_char_bounds(r@, '=');
    }
    let n = r.unicode_len();
    let eq = find_char(r, '=');
    let unit = r.substring_char(0, eq);
    let bytes = "bytes";
    proof {
        reveal_strlit("bytes");
    }
    assert(bytes@ =~= seq!['b', 'y', 't', 'e', 's']);
    if !crate::text::str_eq(unit, bytes) {
        return Err(Some(unit.to_owned()));
    }
    if eq >= n {
        return Err(None);
    }
    let rest = r.substring_char(eq + 1, n);
    proof {
        lemma_index_of_char_bounds(rest@, '=');
    }
    let eq2 = find_char(rest, '=');
    let set = rest.substring_char(0, eq2);
    proof {
        lemma_index_of_char_bounds(set@, '-');
    }
    let dash = find_char(set, '-');
    let sl = set.unicode_len();
    if dash >= sl {
        return Err(None);
    }
    let bs = set.substring_char(0, dash);
    let es = set.substring_char(dash + 1, sl);
    match select(bs, es, len) {
        Ok(p) => Ok(p),
        Err(()) => Err(None),
    }
}

} // verus!
