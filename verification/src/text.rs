//! Character-level utilities shared by the lexer and the parser:
//! whitespace handling, scanning, and integer literal parsing.

use vstd::prelude::*;
use vstd::std_specs::iter::IteratorSpec;

verus! {

broadcast use vstd::string::group_string_axioms;

/// The whitespace characters that separate lexemes.
pub open spec fn is_ws(c: char) -> bool {
    c == ' ' || c == '\t' || c == '\n' || c == '\r'
}

/// A decimal digit.
pub open spec fn is_digit(c: char) -> bool {
    48 <= c as u32 <= 57
}

/// The numeric value of a decimal digit.
pub open spec fn digit_val(c: char) -> int {
    c as u32 - 48
}

/// The first index at or after `i` holding `c`, if any.
pub open spec fn find_from(s: Seq<char>, i: int, c: char) -> Option<int>
    decreases s.len() - i,
{
    if i < 0 || i >= s.len() {
        None
    } else if s[i] == c {
        Some(i)
    } else {
        find_from(s, i + 1, c)
    }
}

/// The end (exclusive) of the run of non-whitespace characters starting
/// at `i`: the first index at or after `i` holding whitespace, or the
/// length of `s`.
pub open spec fn run_end(s: Seq<char>, i: int) -> int
    decreases s.len() - i,
{
    if i < 0 || i >= s.len() {
        s.len() as int
    } else if is_ws(s[i]) {
        i
    } else {
        run_end(s, i + 1)
    }
}

/// The first index at or after `i` holding a non-whitespace character,
/// or the length of `s`.
pub open spec fn skip_ws_from(s: Seq<char>, i: int) -> int
    decreases s.len() - i,
{
    if i < 0 || i >= s.len() {
        s.len() as int
    } else if !is_ws(s[i]) {
        i
    } else {
        skip_ws_from(s, i + 1)
    }
}

/// The end (exclusive) of `s` with trailing whitespace dropped, scanning
/// down from `j`.
pub open spec fn trim_end_from(s: Seq<char>, j: int) -> int
    decreases j,
{
    if j <= 0 || j > s.len() {
        0
    } else if !is_ws(s[j - 1]) {
        j
    } else {
        trim_end_from(s, j - 1)
    }
}

/// `s` with leading and trailing whitespace removed.
pub open spec fn trim_s(s: Seq<char>) -> Seq<char> {
    let a = skip_ws_from(s, 0);
    let b = trim_end_from(s, s.len() as int);
    if a >= b {
        Seq::empty()
    } else {
        s.subrange(a, b)
    }
}

pub broadcast proof fn lemma_run_end_bounds(s: Seq<char>, i: int)
    requires
        0 <= i <= s.len(),
    ensures
        i <= #[trigger] run_end(s, i) <= s.len(),
    decreases s.len() - i,
{
    if i < s.len() && !is_ws(s[i]) {
        lemma_run_end_bounds(s, i + 1);
    }
}

/// The maximal whitespace-separated pieces of `s` at or after `i`.
pub open spec fn split_ws_from(s: Seq<char>, i: int) -> Seq<Seq<char>>
    decreases s.len() - i,
        via split_ws_from_decreases
{
    if i < 0 || i >= s.len() {
        Seq::empty()
    } else if is_ws(s[i]) {
        split_ws_from(s, i + 1)
    } else {
        seq![s.subrange(i, run_end(s, i))] + split_ws_from(s, run_end(s, i))
    }
}

#[via_fn]
proof fn split_ws_from_decreases(s: Seq<char>, i: int) {
    if 0 <= i < s.len() && !is_ws(s[i]) {
        lemma_run_end_bounds(s, i + 1);
        assert(run_end(s, i) == run_end(s, i + 1));
    }
}

/// Every character of `s` is a decimal digit.
pub open spec fn all_digits(s: Seq<char>) -> bool {
    forall|i: int| 0 <= i < s.len() ==> is_digit(s[i])
}

/// The value of a nonempty digit string, most significant digit first.
pub open spec fn digits_val(s: Seq<char>) -> int
    decreases s.len(),
{
    if s.len() == 0 {
        0
    } else {
        digits_val(s.drop_last()) * 10 + digit_val(s.last())
    }
}

/// The integer denoted by `s`: an optional `-` sign followed by one or
/// more decimal digits, with no size bound.
pub open spec fn int_lit_val(s: Seq<char>) -> Option<int> {
    if s.len() >= 1 && s[0] == '-' {
        if s.len() >= 2 && all_digits(s.skip(1)) {
            Some(-digits_val(s.skip(1)))
        } else {
            None
        }
    } else if s.len() >= 1 && all_digits(s) {
        Some(digits_val(s))
    } else {
        None
    }
}

/// The `i64` denoted by `s`, if `s` is an integer literal whose value
/// fits.
pub open spec fn parse_int_s(s: Seq<char>) -> Option<i64> {
    match int_lit_val(s) {
        Some(v) => if i64::MIN <= v <= i64::MAX {
            Some(v as i64)
        } else {
            None
        },
        None => None,
    }
}

pub proof fn lemma_digits_val_nonneg(s: Seq<char>)
    requires
        all_digits(s),
    ensures
        digits_val(s) >= 0,
    decreases s.len(),
{
    if s.len() > 0 {
        assert(all_digits(s.drop_last()));
        lemma_digits_val_nonneg(s.drop_last());
    }
}

/// A longer digit string never denotes a smaller value: extending a
/// digit string on the right cannot shrink it.
pub proof fn lemma_digits_prefix_le(s: Seq<char>, a: int, i: int, j: int)
    requires
        0 <= a <= i <= j <= s.len(),
        all_digits(s.subrange(a, j)),
    ensures
        digits_val(s.subrange(a, i)) <= digits_val(s.subrange(a, j)),
    decreases j - i,
{
    if i < j {
        lemma_digits_prefix_le(s, a, i, j - 1);
        let t = s.subrange(a, j);
        let u = s.subrange(a, j - 1);
        assert(t.drop_last() =~= u);
        assert(all_digits(u));
        lemma_digits_val_nonneg(u);
        assert(digits_val(t) == digits_val(u) * 10 + digit_val(t.last()));
        assert(digits_val(u) * 10 >= digits_val(u)) by (nonlinear_arith)
            requires digits_val(u) >= 0;
    }
}

/// Whether `c` is one of the whitespace characters.
pub fn is_ws_c(c: char) -> (r: bool)
    ensures
        r == is_ws(c),
{
    c == ' ' || c == '\t' || c == '\n' || c == '\r'
}

/// Whether `c` is a decimal digit.
pub fn is_digit_c(c: char) -> (r: bool)
    ensures
        r == is_digit(c),
{
    let u = c as u32;
    48 <= u && u <= 57
}

/// The first index at or after `from` holding `c`, if any.
pub fn find_char(v: &Vec<char>, from: usize, c: char) -> (r: Option<usize>)
    requires
        from <= v@.len(),
    ensures
        match r {
            Some(j) => from <= j < v@.len() && find_from(v@, from as int, c) == Some(j as int),
            None => find_from(v@, from as int, c) is None,
        },
{
    let mut j: usize = from;
    while j < v.len()
        invariant
            from <= j <= v@.len(),
            find_from(v@, from as int, c) == find_from(v@, j as int, c),
        decreases v@.len() - j,
    {
        if v[j] == c {
            return Some(j);
        }
        j = j + 1;
    }
    None
}

/// The end (exclusive) of the non-whitespace run starting at `from`.
pub fn run_end_c(v: &Vec<char>, from: usize) -> (r: usize)
    requires
        from <= v@.len(),
    ensures
        r == run_end(v@, from as int),
        from <= r <= v@.len(),
{
    let mut j: usize = from;
    while j < v.len()
        invariant
            from <= j <= v@.len(),
            run_end(v@, from as int) == run_end(v@, j as int),
        decreases v@.len() - j,
    {
        if is_ws_c(v[j]) {
            return j;
        }
        j = j + 1;
    }
    j
}

/// A copy of `v[a..b]`.
pub fn copy_range(v: &Vec<char>, a: usize, b: usize) -> (r: Vec<char>)
    requires
        a <= b <= v@.len(),
    ensures
        r@ == v@.subrange(a as int, b as int),
{
    let mut r: Vec<char> = Vec::new();
    let mut i: usize = a;
    while i < b
        invariant
            a <= i <= b <= v@.len(),
            r@ == v@.subrange(a as int, i as int),
        decreases b - i,
    {
        r.push(v[i]);
        i = i + 1;
        proof {
            assert(r@ =~= v@.subrange(a as int, i as int));
        }
    }
    r
}

/// A copy of `v` with leading and trailing whitespace removed.
pub fn trim(v: &Vec<char>) -> (r: Vec<char>)
    ensures
        r@ == trim_s(v@),
{
    let n = v.len();
    let mut a: usize = 0;
    while a < n && is_ws_c(v[a])
        invariant
            0 <= a <= n,
            n == v@.len(),
            skip_ws_from(v@, 0) == skip_ws_from(v@, a as int),
        decreases n - a,
    {
        a = a + 1;
    }
    let mut b: usize = n;
    while b > 0 && is_ws_c(v[b - 1])
        invariant
            0 <= b <= n,
            n == v@.len(),
            trim_end_from(v@, n as int) == trim_end_from(v@, b as int),
        decreases b,
    {
        b = b - 1;
    }
    proof {
        assert(skip_ws_from(v@, a as int) == a || a == n);
        assert(trim_end_from(v@, b as int) == b || b == 0);
    }
    if a >= b {
        Vec::new()
    } else {
        copy_range(v, a, b)
    }
}

/// The views of a sequence of character vectors.
pub open spec fn vecs_v(s: Seq<Vec<char>>) -> Seq<Seq<char>> {
    Seq::new(s.len(), |i: int| s[i]@)
}

pub broadcast proof fn lemma_vecs_v_push(s: Seq<Vec<char>>, x: Vec<char>)
    ensures
        #[trigger] vecs_v(s.push(x)) == vecs_v(s).push(x@),
{
    assert(vecs_v(s.push(x)) =~= vecs_v(s).push(x@));
}

/// Split `v` into its maximal whitespace-separated pieces.
pub fn split_ws(v: &Vec<char>) -> (r: Vec<Vec<char>>)
    ensures
        vecs_v(r@) == split_ws_from(v@, 0),
{
    broadcast use lemma_vecs_v_push;

    let mut r: Vec<Vec<char>> = Vec::new();
    let mut i: usize = 0;
    proof {
        assert(vecs_v(r@) =~= Seq::<Seq<char>>::empty());
    }
    while i < v.len()
        invariant
            i <= v@.len(),
            split_ws_from(v@, 0) == vecs_v(r@) + split_ws_from(v@, i as int),
        decreases v@.len() - i,
    {
        let ghost done = vecs_v(r@);
        if is_ws_c(v[i]) {
            i = i + 1;
        } else {
            let e = run_end_c(v, i);
            proof {
                assert(run_end(v@, i as int) == run_end(v@, i as int + 1));
                lemma_run_end_bounds(v@, i as int + 1);
            }
            let piece = copy_range(v, i, e);
            let ghost pg = piece@;
            r.push(piece);
            proof {
                assert(split_ws_from(v@, i as int) == seq![pg] + split_ws_from(v@, e as int));
                assert(done + (seq![pg] + split_ws_from(v@, e as int)) =~= done.push(pg)
                    + split_ws_from(v@, e as int));
            }
            i = e;
        }
    }
    proof {
        assert(vecs_v(r@) + Seq::<Seq<char>>::empty() =~= vecs_v(r@));
    }
    r
}

/// Parse an integer literal: an optional `-` sign followed by decimal
/// digits, returning its value when it fits in an `i64`.
pub fn parse_int(v: &Vec<char>) -> (r: Option<i64>)
    ensures
        r == parse_int_s(v@),
{
    let n = v.len();
    if n == 0 {
        return None;
    }
    let neg = v[0] == '-';
    let start: usize = if neg {
        1
    } else {
        0
    };
    if start == n {
        return None;
    }
    let ghost body: Seq<char> = if neg {
        v@.skip(1)
    } else {
        v@
    };
    proof {
        assert(body =~= v@.subrange(start as int, n as int));
    }
    let mut acc: u128 = 0;
    let mut i: usize = start;
    while i < n
        invariant
            n == v@.len(),
            start <= i <= n,
            start < n,
            neg == (v@[0] == '-'),
            start == (if neg {
                1int
            } else {
                0int
            }),
            body == v@.subrange(start as int, n as int),
            all_digits(v@.subrange(start as int, i as int)),
            acc == digits_val(v@.subrange(start as int, i as int)),
            acc <= 0x8000_0000_0000_0000u128,
        decreases n - i,
    {
        let c = v[i];
        if !is_digit_c(c) {
            proof {
                assert(body[i - start] == v@[i as int]);
                assert(!all_digits(body));
                if neg {
                    assert(body =~= v@.skip(1));
                } else {
                    assert(body =~= v@);
                }
                assert(int_lit_val(v@) is None);
            }
            return None;
        }
        let d: u128 = ((c as u32) - 48) as u128;
        let newacc: u128 = acc * 10 + d;
        proof {
            let t = v@.subrange(start as int, i as int + 1);
            assert(t.drop_last() =~= v@.subrange(start as int, i as int));
            assert(t.last() == v@[i as int]);
            assert(digits_val(t) == newacc);
            assert(all_digits(t));
        }
        if newacc > 0x8000_0000_0000_0000u128 {
            proof {
                if all_digits(body) {
                    lemma_digits_prefix_le(v@, start as int, i as int + 1, n as int);
                    assert(digits_val(body) >= newacc > 0x8000_0000_0000_0000u128);
                    if neg {
                        assert(body =~= v@.skip(1));
                        assert(int_lit_val(v@) == Some(-digits_val(body)));
                        assert(-digits_val(body) < i64::MIN);
                    } else {
                        assert(body =~= v@);
                        assert(int_lit_val(v@) == Some(digits_val(body)));
                        assert(digits_val(body) > i64::MAX);
                    }
                    assert(parse_int_s(v@) is None);
                } else {
                    assert(int_lit_val(v@) is None);
                    assert(parse_int_s(v@) is None);
                }
            }
            return None;
        }
        acc = newacc;
        i = i + 1;
    }
    proof {
        assert(v@.subrange(start as int, n as int) =~= body);
    }
    if neg {
        Some((-(acc as i128)) as i64)
    } else {
        if acc > 0x7FFF_FFFF_FFFF_FFFFu128 {
            return None;
        }
        Some(acc as i64)
    }
}

/// The characters of `s`, in order.
pub fn chars_of(s: &str) -> (r: Vec<char>)
    ensures
        r@ == s@,
{
    let mut it = s.chars();
    let mut v: Vec<char> = Vec::new();
    loop
        invariant
            it.obeys_prophetic_iter_laws(),
            it.decrease() is Some,
            v@ + it.remaining() == s@,
        ensures
            v@ == s@,
        decreases it.decrease()->0,
    {
        match it.next() {
            Some(c) => {
                v.push(c);
                proof {
                    assert(v@ + it.remaining() =~= s@);
                }
            },
            None => {
                proof {
                    assert(v@ =~= s@);
                }
                break;
            },
        }
    }
    v
}

/// Relies on `String`'s `FromIterator<char>`: collecting characters
/// yields the string of exactly those characters, in order.
#[verifier::external_body]
pub fn chars_to_string(v: &Vec<char>) -> (r: String)
    ensures
        r@ == v@,
{
    v.iter().collect()
}

} // verus!
