//! Byte-level text primitives for the line-oriented model format:
//! whitespace tokenization of a line, line splitting of a whole input,
//! decimal index tokens, and the numeric grammar for scalar tokens.

use vstd::prelude::*;

verus! {

/// Bytes that separate tokens within a line: ASCII whitespace.
pub open spec fn is_ws(b: u8) -> bool {
    b == 32 || (9 <= b && b <= 13)
}

/// Exec mirror of `is_ws`.
pub fn is_ws_byte(b: u8) -> (r: bool)
    ensures
        r == is_ws(b),
{
    b == 32 || (9 <= b && b <= 13)
}

/// Length of the maximal leading run of non-whitespace bytes.
pub open spec fn token_end(l: Seq<u8>) -> int
    decreases l.len(),
{
    if l.len() == 0 || is_ws(l[0]) {
        0
    } else {
        1 + token_end(l.skip(1))
    }
}

pub proof fn lemma_token_end_bounds(l: Seq<u8>)
    ensures
        0 <= token_end(l) <= l.len(),
    decreases l.len(),
{
    if l.len() != 0 && !is_ws(l[0]) {
        lemma_token_end_bounds(l.skip(1));
    }
}

/// `token_end` is the unique boundary: everything before it is
/// non-whitespace and it stands at the end of the line or on whitespace.
pub proof fn lemma_token_end_is(l: Seq<u8>, k: int)
    requires
        0 <= k <= l.len(),
        forall|i: int| 0 <= i < k ==> !is_ws(l[i]),
        k == l.len() || is_ws(l[k]),
    ensures
        token_end(l) == k,
    decreases l.len(),
{
    if k == 0 {
    } else {
        assert(!is_ws(l[0]));
        let t = l.skip(1);
        assert forall|i: int| 0 <= i < k - 1 implies !is_ws(t[i]) by {
            assert(t[i] == l[i + 1]);
        }
        if k - 1 < t.len() {
            assert(t[k - 1] == l[k]);
        }
        lemma_token_end_is(t, k - 1);
    }
}

/// The whitespace-separated tokens of a line, in order.
pub open spec fn spec_tokens(l: Seq<u8>) -> Seq<Seq<u8>>
    decreases l.len(),
    via spec_tokens_decreases
{
    if l.len() == 0 {
        seq![]
    } else if is_ws(l[0]) {
        spec_tokens(l.skip(1))
    } else {
        seq![l.take(token_end(l))] + spec_tokens(l.skip(token_end(l)))
    }
}

#[via_fn]
proof fn spec_tokens_decreases(l: Seq<u8>) {
    if l.len() != 0 && !is_ws(l[0]) {
        lemma_token_end_bounds(l.skip(1));
    }
}

/// The token sequence a vector of byte vectors stands for.
pub open spec fn tokens_view(r: Seq<Vec<u8>>) -> Seq<Seq<u8>> {
    r.map_values(|t: Vec<u8>| t@)
}

/// Splits a line into its whitespace-separated tokens.
pub fn tokenize(l: &[u8]) -> (r: Vec<Vec<u8>>)
    ensures
        tokens_view(r@) == spec_tokens(l@),
{
    let mut toks: Vec<Vec<u8>> = Vec::new();
    let mut i: usize = 0;
    proof {
        assert(l@.skip(0) =~= l@);
        assert(tokens_view(toks@) =~= Seq::<Seq<u8>>::empty());
    }
    while i < l.len()
        invariant
            i <= l.len(),
            spec_tokens(l@) == tokens_view(toks@) + spec_tokens(l@.skip(i as int)),
        decreases l.len() - i,
    {
        if is_ws_byte(l[i]) {
            proof {
                assert(l@.skip(i as int)[0] == l@[i as int]);
                assert(l@.skip(i as int).skip(1) =~= l@.skip(i as int + 1));
            }
            i = i + 1;
        } else {
            let ghost start = i as int;
            let mut tok: Vec<u8> = Vec::new();
            proof {
                assert(tok@ =~= l@.subrange(start, start));
            }
            while i < l.len() && !is_ws_byte(l[i])
                invariant
                    0 <= start <= i <= l.len(),
                    forall|j: int| start <= j < i ==> !is_ws(l@[j]),
                    tok@ =~= l@.subrange(start, i as int),
                decreases l.len() - i,
            {
                tok.push(l[i]);
                proof {
                    assert(tok@ =~= l@.subrange(start, i + 1));
                }
                i = i + 1;
            }
            proof {
                let rest = l@.skip(start);
                let k = i - start;
                assert forall|j: int| 0 <= j < k implies !is_ws(rest[j]) by {
                    assert(rest[j] == l@[start + j]);
                }
                if k < rest.len() {
                    assert(rest[k] == l@[i as int]);
                }
                lemma_token_end_is(rest, k);
                assert(rest.take(k) =~= l@.subrange(start, i as int));
                assert(rest.skip(k) =~= l@.skip(i as int));
                assert(spec_tokens(l@.skip(start)) == seq![tok@] + spec_tokens(l@.skip(i as int)));
            }
            let ghost old_toks = toks@;
            toks.push(tok);
            proof {
                assert(tokens_view(toks@) =~= tokens_view(old_toks) + seq![toks@[toks@.len() - 1]@]);
                assert(tokens_view(old_toks) + (seq![tok@] + spec_tokens(l@.skip(i as int)))
                    =~= (tokens_view(old_toks) + seq![tok@]) + spec_tokens(l@.skip(i as int)));
            }
        }
    }
    proof {
        assert(l@.skip(l@.len() as int) =~= Seq::<u8>::empty());
        assert(tokens_view(toks@) + spec_tokens(Seq::<u8>::empty()) =~= tokens_view(toks@));
    }
    toks
}


/// ASCII decimal digit.
pub open spec fn is_digit(b: u8) -> bool {
    48 <= b && b <= 57
}

/// Exec mirror of `is_digit`.
pub fn is_digit_byte(b: u8) -> (r: bool)
    ensures
        r == is_digit(b),
{
    48 <= b && b <= 57
}

pub open spec fn all_digits(t: Seq<u8>) -> bool {
    forall|i: int| 0 <= i < t.len() ==> is_digit(t[i])
}

/// Value of a digit string read in base ten.
pub open spec fn dec_val(t: Seq<u8>) -> nat
    decreases t.len(),
{
    if t.len() == 0 {
        0
    } else {
        dec_val(t.drop_last()) * 10 + (t.last() - 48) as nat
    }
}

/// A longer digit string never has a smaller value.
pub proof fn lemma_dec_val_take_le(t: Seq<u8>, i: int)
    requires
        0 <= i <= t.len(),
        all_digits(t),
    ensures
        dec_val(t.take(i)) <= dec_val(t),
    decreases t.len(),
{
    if i < t.len() {
        let d = t.drop_last();
        assert(all_digits(d)) by {
            assert(forall|j: int| 0 <= j < d.len() ==> d[j] == t[j]);
        }
        assert(d.take(i) =~= t.take(i));
        lemma_dec_val_take_le(d, i);
        assert(dec_val(d) * 10 >= dec_val(d));
        assert(is_digit(t.last()));
    } else {
        assert(t.take(i) =~= t);
    }
}

/// What `str::parse::<usize>` accepts of an index token: one or more
/// digits whose value fits, with no sign.
pub open spec fn spec_parse_usize(t: Seq<u8>) -> Option<usize> {
    if t.len() > 0 && all_digits(t) && dec_val(t) <= usize::MAX {
        Some(dec_val(t) as usize)
    } else {
        None
    }
}

/// Reads a decimal index token; `None` on an empty token, a non-digit
/// byte, or a value that does not fit.
pub fn parse_usize_token(t: &[u8]) -> (r: Option<usize>)
    ensures
        r == spec_parse_usize(t@),
{
    if t.len() == 0 {
        return None;
    }
    let mut acc: usize = 0;
    let mut i: usize = 0;
    proof {
        assert(t@.take(0int) =~= Seq::<u8>::empty());
    }
    while i < t.len()
        invariant
            0 < t@.len(),
            i <= t.len(),
            all_digits(t@.take(i as int)),
            acc == dec_val(t@.take(i as int)),
        decreases t.len() - i,
    {
        let b = t[i];
        if b < 48 || b > 57 {
            assert(!is_digit(t@[i as int]));
            return None;
        }
        let d: usize = (b - 48) as usize;
        proof {
            let pre = t@.take(i + 1);
            assert(pre.drop_last() =~= t@.take(i as int));
            assert(pre.last() == t@[i as int]);
            assert(all_digits(pre)) by {
                assert(forall|j: int| 0 <= j < i ==> pre[j] == t@.take(i as int)[j]);
            }
        }
        match acc.checked_mul(10) {
            Some(m) => {
                match m.checked_add(d) {
                    Some(s) => {
                        acc = s;
                    },
                    None => {
                        proof {
                            assert(dec_val(t@.take(i + 1)) > usize::MAX);
                            if all_digits(t@) {
                                lemma_dec_val_take_le(t@, i + 1);
                            }
                        }
                        return None;
                    },
                }
            },
            None => {
                proof {
                    assert(dec_val(t@.take(i + 1)) > usize::MAX);
                    if all_digits(t@) {
                        lemma_dec_val_take_le(t@, i + 1);
                    }
                }
                return None;
            },
        }
        i = i + 1;
    }
    proof {
        assert(t@.take(i as int) =~= t@);
    }
    Some(acc)
}


/// Number of `.` bytes in a token.
pub open spec fn count_dots(t: Seq<u8>) -> int
    decreases t.len(),
{
    if t.len() == 0 {
        0
    } else {
        count_dots(t.drop_last()) + if t.last() == 46 {
            1int
        } else {
            0int
        }
    }
}

/// Number of digit bytes in a token.
pub open spec fn count_digits(t: Seq<u8>) -> int
    decreases t.len(),
{
    if t.len() == 0 {
        0
    } else {
        count_digits(t.drop_last()) + if is_digit(t.last()) {
            1int
        } else {
            0int
        }
    }
}

pub proof fn lemma_counts_bounds(t: Seq<u8>)
    ensures
        0 <= count_dots(t) <= t.len(),
        0 <= count_digits(t) <= t.len(),
    decreases t.len(),
{
    if t.len() > 0 {
        lemma_counts_bounds(t.drop_last());
    }
}

pub open spec fn digits_or_dots(t: Seq<u8>) -> bool {
    forall|i: int| 0 <= i < t.len() ==> (is_digit(t[i]) || t[i] == 46)
}

/// The mantissa part of a number: digits with at most one point among
/// them, and at least one digit.
pub open spec fn mantissa_ok(t: Seq<u8>) -> bool {
    digits_or_dots(t) && count_dots(t) <= 1 && count_digits(t) >= 1
}

/// Drops one leading `+` or `-`.
pub open spec fn strip_sign(t: Seq<u8>) -> Seq<u8> {
    if t.len() > 0 && (t[0] == 43 || t[0] == 45) {
        t.skip(1)
    } else {
        t
    }
}

/// The exponent part after `e`: an optional sign, then one or more digits.
pub open spec fn exp_ok(t: Seq<u8>) -> bool {
    strip_sign(t).len() > 0 && all_digits(strip_sign(t))
}

pub open spec fn is_e(b: u8) -> bool {
    b == 101 || b == 69
}

/// Index of the first `e` or `E`, or the length if there is none.
pub open spec fn first_e(t: Seq<u8>) -> int
    decreases t.len(),
{
    if t.len() == 0 {
        0
    } else if is_e(t[0]) {
        0
    } else {
        1 + first_e(t.skip(1))
    }
}

pub proof fn lemma_first_e_is(t: Seq<u8>, k: int)
    requires
        0 <= k <= t.len(),
        forall|i: int| 0 <= i < k ==> !is_e(t[i]),
        k == t.len() || is_e(t[k]),
    ensures
        first_e(t) == k,
    decreases t.len(),
{
    if k == 0 {
    } else {
        assert(!is_e(t[0]));
        let u = t.skip(1);
        assert forall|i: int| 0 <= i < k - 1 implies !is_e(u[i]) by {
            assert(u[i] == t[i + 1]);
        }
        if k - 1 < u.len() {
            assert(u[k - 1] == t[k]);
        }
        lemma_first_e_is(u, k - 1);
    }
}

/// The numeric grammar of scalar tokens, as `str::parse::<f32>` reads
/// them: an optional sign, a mantissa of digits with at most one point,
/// and an optional exponent. Every token of this shape parses as a
/// number; the named forms `inf` and `nan` are not model data and are
/// rejected.
pub open spec fn is_float_token(t: Seq<u8>) -> bool {
    let m = strip_sign(t);
    let k = first_e(m);
    if k == m.len() {
        mantissa_ok(m)
    } else {
        mantissa_ok(m.take(k)) && exp_ok(m.skip(k + 1))
    }
}

/// Checks a scalar token against the numeric grammar.
pub fn check_float_token(t: &[u8]) -> (r: bool)
    ensures
        r == is_float_token(t@),
{
    let n = t.len();
    let mut i: usize = 0;
    if n > 0 && (t[0] == 43 || t[0] == 45) {
        i = 1;
    }
    proof {
        assert(strip_sign(t@) =~= t@.skip(i as int));
    }
    let mut k: usize = i;
    while k < n && !(t[k] == 101 || t[k] == 69)
        invariant
            i <= k <= n,
            n == t@.len(),
            strip_sign(t@) == t@.skip(i as int),
            forall|j: int| i <= j < k ==> !is_e(t@[j]),
        decreases n - k,
    {
        k = k + 1;
    }
    proof {
        let m = strip_sign(t@);
        assert forall|j: int| 0 <= j < k - i implies !is_e(m[j]) by {
            assert(m[j] == t@[i + j]);
        }
        if k < n {
            assert(m[k - i] == t@[k as int]);
        }
        lemma_first_e_is(m, k - i);
    }
    // the mantissa stands in t[i..k]
    let mut dots: usize = 0;
    let mut digs: usize = 0;
    let mut p: usize = i;
    proof {
        assert(t@.subrange(i as int, i as int) =~= Seq::<u8>::empty());
    }
    while p < k
        invariant
            i <= p <= k <= n,
            n == t@.len(),
            strip_sign(t@) == t@.skip(i as int),
            first_e(strip_sign(t@)) == k - i,
            dots == count_dots(t@.subrange(i as int, p as int)),
            digs == count_digits(t@.subrange(i as int, p as int)),
            digits_or_dots(t@.subrange(i as int, p as int)),
        decreases k - p,
    {
        let b = t[p];
        proof {
            let pre = t@.subrange(i as int, p + 1);
            assert(pre.drop_last() =~= t@.subrange(i as int, p as int));
            assert(pre.last() == t@[p as int]);
            lemma_counts_bounds(t@.subrange(i as int, p as int));
        }
        if b == 46 {
            dots = dots + 1;
        } else if is_digit_byte(b) {
            digs = digs + 1;
        } else {
            proof {
                let m = strip_sign(t@);
                let mant = m.take(k - i);
                assert(mant =~= t@.subrange(i as int, k as int));
                assert(mant[p - i] == t@[p as int]);
                assert(!digits_or_dots(mant));
                if k - i == m.len() {
                    assert(m =~= mant);
                }
            }
            return false;
        }
        proof {
            let pre = t@.subrange(i as int, p + 1);
            assert(digits_or_dots(pre)) by {
                assert(forall|j: int| 0 <= j < pre.len() - 1 ==> pre[j] == t@.subrange(
                    i as int, p as int)[j]);
            }
        }
        p = p + 1;
    }
    proof {
        let m = strip_sign(t@);
        let mant = m.take(k - i);
        assert(mant =~= t@.subrange(i as int, k as int));
        if k - i == m.len() {
            assert(m =~= mant);
        }
    }
    if dots > 1 || digs == 0 {
        return false;
    }
    if k == n {
        return true;
    }
    // the exponent stands in t[k + 1 .. n]
    proof {
        assert(strip_sign(t@).skip(k - i + 1) =~= t@.subrange(k + 1, n as int));
    }
    let mut q: usize = k + 1;
    if q < n && (t[q] == 43 || t[q] == 45) {
        q = q + 1;
    }
    proof {
        assert(strip_sign(strip_sign(t@).skip(k - i + 1)) =~= t@.subrange(q as int, n as int));
    }
    if q == n {
        return false;
    }
    let mut w: usize = q;
    while w < n
        invariant
            i <= k < n,
            q <= w <= n,
            q < n,
            n == t@.len(),
            strip_sign(t@) == t@.skip(i as int),
            first_e(strip_sign(t@)) == k - i,
            mantissa_ok(strip_sign(t@).take(k - i)),
            strip_sign(strip_sign(t@).skip(k - i + 1)) == t@.subrange(q as int, n as int),
            all_digits(t@.subrange(q as int, w as int)),
        decreases n - w,
    {
        if !is_digit_byte(t[w]) {
            proof {
                let exd = strip_sign(strip_sign(t@).skip(k - i + 1));
                assert(exd[w - q] == t@[w as int]);
                assert(!all_digits(exd));
            }
            return false;
        }
        proof {
            let pre = t@.subrange(q as int, w + 1);
            assert(all_digits(pre)) by {
                assert(forall|j: int| 0 <= j < pre.len() - 1 ==> pre[j] == t@.subrange(
                    q as int, w as int)[j]);
                assert(pre[pre.len() - 1] == t@[w as int]);
            }
        }
        w = w + 1;
    }
    proof {
        let exd = strip_sign(strip_sign(t@).skip(k - i + 1));
        assert(exd =~= t@.subrange(q as int, n as int));
        assert(exd.len() > 0);
        assert(all_digits(exd));
    }
    true
}


/// Index of the first line feed, or the length if there is none.
pub open spec fn line_break(s: Seq<u8>) -> int
    decreases s.len(),
{
    if s.len() == 0 || s[0] == 10 {
        0
    } else {
        1 + line_break(s.skip(1))
    }
}

pub proof fn lemma_line_break_bounds(s: Seq<u8>)
    ensures
        0 <= line_break(s) <= s.len(),
    decreases s.len(),
{
    if s.len() != 0 && s[0] != 10 {
        lemma_line_break_bounds(s.skip(1));
    }
}

pub proof fn lemma_line_break_is(s: Seq<u8>, k: int)
    requires
        0 <= k <= s.len(),
        forall|i: int| 0 <= i < k ==> s[i] != 10,
        k == s.len() || s[k] == 10,
    ensures
        line_break(s) == k,
    decreases s.len(),
{
    if k == 0 {
    } else {
        assert(s[0] != 10);
        let u = s.skip(1);
        assert forall|i: int| 0 <= i < k - 1 implies u[i] != 10 by {
            assert(u[i] == s[i + 1]);
        }
        if k - 1 < u.len() {
            assert(u[k - 1] == s[k]);
        }
        lemma_line_break_is(u, k - 1);
    }
}

/// The lines of the input, split on line feeds; the final line needs no
/// trailing line feed. A carriage return before the line feed stays on
/// its line and is whitespace there.
pub open spec fn spec_lines(s: Seq<u8>) -> Seq<Seq<u8>>
    decreases s.len(),
    via spec_lines_decreases
{
    if s.len() == 0 {
        seq![]
    } else {
        let k = line_break(s);
        if k == s.len() {
            seq![s]
        } else {
            seq![s.take(k)] + spec_lines(s.skip(k + 1))
        }
    }
}

#[via_fn]
proof fn spec_lines_decreases(s: Seq<u8>) {
    if s.len() != 0 {
        lemma_line_break_bounds(s);
    }
}

/// Splits the whole input into its lines.
pub fn split_lines(s: &[u8]) -> (r: Vec<Vec<u8>>)
    ensures
        tokens_view(r@) == spec_lines(s@),
{
    let n = s.len();
    let mut out: Vec<Vec<u8>> = Vec::new();
    let mut i: usize = 0;
    proof {
        assert(s@.skip(0) =~= s@);
        assert(tokens_view(out@) =~= Seq::<Seq<u8>>::empty());
    }
    while i < n
        invariant
            i <= n,
            n == s@.len(),
            spec_lines(s@) == tokens_view(out@) + spec_lines(s@.skip(i as int)),
        decreases n - i,
    {
        let mut k: usize = i;
        let mut line: Vec<u8> = Vec::new();
        proof {
            assert(line@ =~= s@.subrange(i as int, i as int));
        }
        while k < n && s[k] != 10
            invariant
                i <= k <= n,
                n == s@.len(),
                forall|j: int| i <= j < k ==> s@[j] != 10,
                line@ =~= s@.subrange(i as int, k as int),
            decreases n - k,
        {
            line.push(s[k]);
            proof {
                assert(line@ =~= s@.subrange(i as int, k + 1));
            }
            k = k + 1;
        }
        proof {
            let rest = s@.skip(i as int);
            let b = k - i;
            assert forall|j: int| 0 <= j < b implies rest[j] != 10 by {
                assert(rest[j] == s@[i + j]);
            }
            if b < rest.len() {
                assert(rest[b] == s@[k as int]);
            }
            lemma_line_break_is(rest, b);
            assert(rest.take(b) =~= s@.subrange(i as int, k as int));
            if k == n {
                assert(rest =~= s@.subrange(i as int, k as int));
                assert(spec_lines(rest) == seq![line@]);
                assert(s@.skip(n as int) =~= Seq::<u8>::empty());
                assert(spec_lines(s@.skip(n as int)) == Seq::<Seq<u8>>::empty());
            } else {
                assert(rest.skip(b + 1) =~= s@.skip(k + 1));
                assert(spec_lines(rest) == seq![line@] + spec_lines(s@.skip(k + 1)));
            }
        }
        let ghost old_out = out@;
        out.push(line);
        proof {
            assert(tokens_view(out@) =~= tokens_view(old_out) + seq![out@[out@.len() - 1]@]);
        }
        if k == n {
            i = n;
            proof {
                assert(tokens_view(out@) + spec_lines(s@.skip(n as int)) =~= tokens_view(out@));
                assert(spec_lines(s@) == tokens_view(out@) + spec_lines(s@.skip(n as int)));
            }
        } else {
            proof {
                assert((tokens_view(old_out) + seq![out@[out@.len() - 1]@]) + spec_lines(s@.skip(
                    k + 1)) =~= tokens_view(old_out) + (seq![out@[out@.len() - 1]@] + spec_lines(
                    s@.skip(k + 1))));
            }
            i = k + 1;
        }
    }
    proof {
        assert(s@.skip(i as int) =~= s@.skip(n as int));
        assert(s@.skip(n as int) =~= Seq::<u8>::empty());
        assert(tokens_view(out@) + spec_lines(Seq::<u8>::empty()) =~= tokens_view(out@));
    }
    out
}

/// Index of the first `/`, or the length if there is none.
pub open spec fn slash_break(t: Seq<u8>) -> int
    decreases t.len(),
{
    if t.len() == 0 || t[0] == 47 {
        0
    } else {
        1 + slash_break(t.skip(1))
    }
}

pub proof fn lemma_slash_break_bounds(t: Seq<u8>)
    ensures
        0 <= slash_break(t) <= t.len(),
    decreases t.len(),
{
    if t.len() != 0 && t[0] != 47 {
        lemma_slash_break_bounds(t.skip(1));
    }
}

pub proof fn lemma_slash_break_is(t: Seq<u8>, k: int)
    requires
        0 <= k <= t.len(),
        forall|i: int| 0 <= i < k ==> t[i] != 47,
        k == t.len() || t[k] == 47,
    ensures
        slash_break(t) == k,
    decreases t.len(),
{
    if k == 0 {
    } else {
        assert(t[0] != 47);
        let u = t.skip(1);
        assert forall|i: int| 0 <= i < k - 1 implies u[i] != 47 by {
            assert(u[i] == t[i + 1]);
        }
        if k - 1 < u.len() {
            assert(u[k - 1] == t[k]);
        }
        lemma_slash_break_is(u, k - 1);
    }
}

/// The `/`-separated fields of a face-corner token, empties kept: the
/// split always yields one more field than there are separators.
pub open spec fn spec_split_slash(t: Seq<u8>) -> Seq<Seq<u8>>
    decreases t.len(),
    via spec_split_slash_decreases
{
    let k = slash_break(t);
    if k == t.len() {
        seq![t]
    } else {
        seq![t.take(k)] + spec_split_slash(t.skip(k + 1))
    }
}

#[via_fn]
proof fn spec_split_slash_decreases(t: Seq<u8>) {
    lemma_slash_break_bounds(t);
}

/// Splits a face-corner token on `/`, keeping empty fields.
pub fn split_slash(t: &[u8]) -> (r: Vec<Vec<u8>>)
    ensures
        tokens_view(r@) == spec_split_slash(t@),
{
    let n = t.len();
    let mut out: Vec<Vec<u8>> = Vec::new();
    let mut i: usize = 0;
    let mut done: bool = false;
    proof {
        assert(t@.skip(0) =~= t@);
        assert(tokens_view(out@) =~= Seq::<Seq<u8>>::empty());
    }
    while !done
        invariant
            i <= n,
            n == t@.len(),
            done ==> tokens_view(out@) == spec_split_slash(t@),
            !done ==> spec_split_slash(t@) == tokens_view(out@) + spec_split_slash(t@.skip(
                i as int)),
        decreases n - i + if done { 0int } else { 1int },
    {
        let mut k: usize = i;
        let mut field: Vec<u8> = Vec::new();
        proof {
            assert(field@ =~= t@.subrange(i as int, i as int));
        }
        while k < n && t[k] != 47
            invariant
                i <= k <= n,
                n == t@.len(),
                forall|j: int| i <= j < k ==> t@[j] != 47,
                field@ =~= t@.subrange(i as int, k as int),
            decreases n - k,
        {
            field.push(t[k]);
            proof {
                assert(field@ =~= t@.subrange(i as int, k + 1));
            }
            k = k + 1;
        }
        proof {
            let rest = t@.skip(i as int);
            let b = k - i;
            assert forall|j: int| 0 <= j < b implies rest[j] != 47 by {
                assert(rest[j] == t@[i + j]);
            }
            if b < rest.len() {
                assert(rest[b] == t@[k as int]);
            }
            lemma_slash_break_is(rest, b);
            assert(rest.take(b) =~= t@.subrange(i as int, k as int));
            if k == n {
                assert(rest =~= t@.subrange(i as int, k as int));
                assert(spec_split_slash(rest) == seq![field@]);
            } else {
                assert(rest.skip(b + 1) =~= t@.skip(k + 1));
                assert(spec_split_slash(rest) == seq![field@] + spec_split_slash(t@.skip(k + 1)));
            }
        }
        let ghost old_out = out@;
        out.push(field);
        proof {
            assert(tokens_view(out@) =~= tokens_view(old_out) + seq![out@[out@.len() - 1]@]);
        }
        if k == n {
            done = true;
            proof {
                assert(tokens_view(out@) =~= tokens_view(old_out) + spec_split_slash(t@.skip(
                    i as int)));
            }
        } else {
            proof {
                assert((tokens_view(old_out) + seq![out@[out@.len() - 1]@]) + spec_split_slash(
                    t@.skip(k + 1)) =~= tokens_view(old_out) + (seq![out@[out@.len() - 1]@]
                    + spec_split_slash(t@.skip(k + 1))));
            }
            i = k + 1;
        }
    }
    out
}

} // verus!
