//! Primitives of the document codec the stores persist with: literal
//! matching, string escaping and decimal numbers, each as a specification,
//! an executable form proved against it, and the inversion lemmas the
//! round-trip proof of the whole document format is built from.

use vstd::prelude::*;
use vstd::string::StrSliceExecFns;

verus! {

/// Relies on str::chars yielding exactly the characters of the string, in
/// order, which the collected vector then holds.
#[verifier::external_body]
pub fn chars_of(s: &str) -> (r: Vec<char>)
    ensures
        r@ == s@,
{
    s.chars().collect()
}

/// Relies on String implementing FromIterator over characters: collecting
/// yields the string of exactly those characters, in order.
#[verifier::external_body]
pub fn string_from_chars(v: &Vec<char>) -> (r: String)
    ensures
        r@ == v@,
{
    v.iter().collect()
}

/// Append the characters of `lit` to `out`.
pub fn push_str_chars(out: &mut Vec<char>, lit: &str)
    ensures
        final(out)@ == old(out)@ + lit@,
{
    let n = lit.unicode_len();
    let mut j: usize = 0;
    while j < n
        invariant
            0 <= j <= n,
            n == lit@.len(),
            out@ == old(out)@ + lit@.subrange(0, j as int),
        decreases n - j,
    {
        let c = lit.get_char(j);
        out.push(c);
        proof {
            assert(out@ =~= old(out)@ + lit@.subrange(0, j + 1));
        }
        j = j + 1;
    }
    proof {
        assert(out@ =~= old(out)@ + lit@);
    }
}

/// The characters of `lit` stand in `s` at `pos`.
pub open spec fn lit_at(s: Seq<char>, pos: int, lit: Seq<char>) -> bool {
    &&& 0 <= pos
    &&& pos + lit.len() <= s.len()
    &&& s.subrange(pos, pos + lit.len()) == lit
}

/// Match the characters of `lit` in `s` at `pos`; on success the position
/// just past them.
pub fn eat_str(s: &Vec<char>, pos: usize, lit: &str) -> (r: Option<usize>)
    ensures
        match r {
            Option::Some(p) => p == pos + lit@.len() && lit_at(s@, pos as int, lit@),
            Option::None => !lit_at(s@, pos as int, lit@),
        },
{
    let n = lit.unicode_len();
    let slen = s.len();
    if slen < pos || slen - pos < n {
        return None;
    }
    let mut j: usize = 0;
    while j < n
        invariant
            0 <= j <= n,
            n == lit@.len(),
            pos + n <= slen,
            slen == s@.len(),
            forall|i: int| 0 <= i < j ==> s@[pos + i] == lit@[i],
        decreases n - j,
    {
        let c = lit.get_char(j);
        if s[pos + j] != c {
            proof {
                if lit_at(s@, pos as int, lit@) {
                    assert(s@.subrange(pos as int, pos + lit@.len())[j as int] == lit@[j as int]);
                }
            }
            return None;
        }
        j = j + 1;
    }
    proof {
        assert(s@.subrange(pos as int, pos + lit@.len()) =~= lit@);
    }
    Some(pos + n)
}

/// A prefix of two concatenated pieces splits into the pieces.
pub proof fn lemma_subrange_split(s: Seq<char>, pos: int, a: Seq<char>, b: Seq<char>)
    requires
        0 <= pos,
        pos + a.len() + b.len() <= s.len(),
        s.subrange(pos, pos + a.len() + b.len()) == a + b,
    ensures
        s.subrange(pos, pos + a.len()) == a,
        s.subrange(pos + a.len(), pos + a.len() + b.len()) == b,
{
    assert forall|i: int| 0 <= i < a.len() + b.len() implies #[trigger] s[pos + i] == (a + b)[i] by {
        assert(s.subrange(pos, pos + a.len() + b.len())[i] == s[pos + i]);
    };
    assert(s.subrange(pos, pos + a.len()) =~= a) by {
        assert forall|i: int| 0 <= i < a.len() implies #[trigger] s.subrange(pos, pos + a.len())[i]
            == a[i] by {
            assert(s[pos + i] == (a + b)[i]);
        };
    };
    assert(s.subrange(pos + a.len(), pos + a.len() + b.len()) =~= b) by {
        assert forall|i: int| 0 <= i < b.len() implies #[trigger] s.subrange(
            pos + a.len(),
            pos + a.len() + b.len(),
        )[i] == b[i] by {
            assert(s[pos + (a.len() + i)] == (a + b)[a.len() + i]);
        };
    };
}

// ---------------------------------------------------------------------------
// String escaping
// ---------------------------------------------------------------------------
/// The escape of one character: quote, backslash and the three common
/// whitespace controls get a two-character escape, everything else stands as
/// itself.
pub open spec fn esc_char(c: char) -> Seq<char> {
    if c == '"' {
        seq!['\\', '"']
    } else if c == '\\' {
        seq!['\\', '\\']
    } else if c == '\n' {
        seq!['\\', 'n']
    } else if c == '\r' {
        seq!['\\', 'r']
    } else if c == '\t' {
        seq!['\\', 't']
    } else {
        seq![c]
    }
}

/// The escaped form of a whole string.
pub open spec fn esc_str(t: Seq<char>) -> Seq<char>
    decreases t.len(),
{
    if t.len() == 0 {
        Seq::empty()
    } else {
        esc_char(t[0]) + esc_str(t.drop_first())
    }
}

/// The character an escape code stands for, if it is one of the five.
pub open spec fn unesc_char(c: char) -> Option<char> {
    if c == '"' {
        Option::Some('"')
    } else if c == '\\' {
        Option::Some('\\')
    } else if c == 'n' {
        Option::Some('\n')
    } else if c == 'r' {
        Option::Some('\r')
    } else if c == 't' {
        Option::Some('\t')
    } else {
        Option::None
    }
}

pub proof fn lemma_esc_str_push(t: Seq<char>, c: char)
    ensures
        esc_str(t.push(c)) == esc_str(t) + esc_char(c),
    decreases t.len(),
{
    if t.len() == 0 {
        assert(t =~= Seq::<char>::empty());
        assert(t.push(c)[0] == c);
        assert(t.push(c).drop_first() =~= t);
        assert(esc_str(t.push(c)) == esc_char(c) + esc_str(t));
        assert(esc_str(t.push(c)) =~= esc_str(t) + esc_char(c));
    } else {
        assert(t.push(c).drop_first() =~= t.drop_first().push(c));
        lemma_esc_str_push(t.drop_first(), c);
        assert(t.push(c)[0] == t[0]);
        assert(esc_str(t.push(c)) == esc_char(t[0]) + esc_str(t.drop_first().push(c)));
        assert(esc_str(t.push(c)) == esc_char(t[0]) + (esc_str(t.drop_first()) + esc_char(c)));
        assert(esc_str(t) == esc_char(t[0]) + esc_str(t.drop_first()));
        assert(esc_char(t[0]) + (esc_str(t.drop_first()) + esc_char(c)) =~= (esc_char(t[0])
            + esc_str(t.drop_first())) + esc_char(c));
    }
}

/// Append the escape of one character to `out`.
pub fn push_esc_char(out: &mut Vec<char>, c: char)
    ensures
        final(out)@ == old(out)@ + esc_char(c),
{
    if c == '"' {
        out.push('\\');
        out.push('"');
    } else if c == '\\' {
        out.push('\\');
        out.push('\\');
    } else if c == '\n' {
        out.push('\\');
        out.push('n');
    } else if c == '\r' {
        out.push('\\');
        out.push('r');
    } else if c == '\t' {
        out.push('\\');
        out.push('t');
    } else {
        out.push(c);
    }
    proof {
        assert(out@ =~= old(out)@ + esc_char(c));
    }
}

/// Append the escaped form of a string to `out`.
pub fn push_escaped(out: &mut Vec<char>, t: &str)
    ensures
        final(out)@ == old(out)@ + esc_str(t@),
{
    let cs = chars_of(t);
    let mut i: usize = 0;
    proof {
        assert(cs@.subrange(0, 0) =~= Seq::<char>::empty());
    }
    while i < cs.len()
        invariant
            0 <= i <= cs@.len(),
            cs@ == t@,
            out@ == old(out)@ + esc_str(cs@.subrange(0, i as int)),
        decreases cs@.len() - i,
    {
        push_esc_char(out, cs[i]);
        proof {
            assert(cs@.subrange(0, i + 1) =~= cs@.subrange(0, i as int).push(cs@[i as int]));
            lemma_esc_str_push(cs@.subrange(0, i as int), cs@[i as int]);
            assert(out@ =~= old(out)@ + esc_str(cs@.subrange(0, i + 1)));
        }
        i = i + 1;
    }
    proof {
        assert(cs@.subrange(0, cs@.len() as int) =~= cs@);
    }
}

/// Parse an escaped string body up to and including its closing quote,
/// starting at `pos`; on success the string's characters and the position
/// just past the quote.
pub open spec fn parse_str(s: Seq<char>, pos: int) -> Option<(Seq<char>, int)>
    decreases s.len() - pos,
{
    if pos < 0 || pos >= s.len() {
        Option::None
    } else if s[pos] == '"' {
        Option::Some((Seq::empty(), pos + 1))
    } else if s[pos] == '\\' {
        if pos + 1 >= s.len() {
            Option::None
        } else {
            match unesc_char(s[pos + 1]) {
                Option::None => Option::None,
                Option::Some(c) => match parse_str(s, pos + 2) {
                    Option::None => Option::None,
                    Option::Some((t, p)) => Option::Some((seq![c] + t, p)),
                },
            }
        }
    } else {
        match parse_str(s, pos + 1) {
            Option::None => Option::None,
            Option::Some((t, p)) => Option::Some((seq![s[pos]] + t, p)),
        }
    }
}

/// Parsing inverts escaping: at the escape of `t` followed by a quote, the
/// parser returns exactly `t` and stops just past the quote.
pub proof fn lemma_parse_esc_str(s: Seq<char>, pos: int, t: Seq<char>)
    requires
        0 <= pos,
        pos + esc_str(t).len() + 1 <= s.len(),
        s.subrange(pos, pos + esc_str(t).len()) == esc_str(t),
        s[pos + esc_str(t).len()] == '"',
    ensures
        parse_str(s, pos) == Option::Some((t, pos + esc_str(t).len() + 1)),
    decreases t.len(),
{
    if t.len() == 0 {
        assert(s[pos] == '"');
        assert(parse_str(s, pos) == Option::Some((Seq::<char>::empty(), pos + 1)));
        assert(Seq::<char>::empty() =~= t);
    } else {
        let c = t[0];
        let e = esc_char(c);
        let rest = esc_str(t.drop_first());
        assert(esc_str(t) == e + rest);
        lemma_subrange_split(s, pos, e, rest);
        assert forall|i: int| 0 <= i < e.len() implies #[trigger] s[pos + i] == e[i] by {
            assert(s.subrange(pos, pos + e.len())[i] == s[pos + i]);
        };
        assert(s[pos + 0] == e[0]);
        assert(s[pos] == e[0]);
        if c == '"' || c == '\\' || c == '\n' || c == '\r' || c == '\t' {
            assert(e.len() == 2);
            assert(s[pos] == '\\');
            assert(s[pos + 1] == e[1]);
            assert(unesc_char(s[pos + 1]) == Option::Some(c));
            lemma_parse_esc_str(s, pos + 2, t.drop_first());
            let p = pos + 2 + rest.len() + 1;
            assert(parse_str(s, pos + 2) == Option::Some((t.drop_first(), p)));
            assert(seq![c] + t.drop_first() =~= t);
        } else {
            assert(e.len() == 1);
            assert(s[pos] == c);
            assert(c != '"' && c != '\\');
            lemma_parse_esc_str(s, pos + 1, t.drop_first());
            assert(parse_str(s, pos + 1) == Option::Some(
                (t.drop_first(), pos + 1 + rest.len() + 1),
            ));
            assert(seq![s[pos]] + t.drop_first() =~= t);
        }
    }
}

/// Parse an escaped string body, executably.
pub fn parse_str_exec(s: &Vec<char>, pos: usize) -> (r: Option<(Vec<char>, usize)>)
    ensures
        match r {
            Option::Some((t, p)) => parse_str(s@, pos as int) == Option::Some((t@, p as int))
                && pos < p <= s@.len(),
            Option::None => parse_str(s@, pos as int) is None,
        },
    decreases s@.len() - pos,
{
    if pos >= s.len() {
        return None;
    }
    let c = s[pos];
    if c == '"' {
        let t: Vec<char> = Vec::new();
        proof {
            assert(t@ =~= Seq::<char>::empty());
        }
        return Some((t, pos + 1));
    }
    if c == '\\' {
        if pos + 1 >= s.len() {
            return None;
        }
        let e = s[pos + 1];
        let u: char = if e == '"' {
            '"'
        } else if e == '\\' {
            '\\'
        } else if e == 'n' {
            '\n'
        } else if e == 'r' {
            '\r'
        } else if e == 't' {
            '\t'
        } else {
            return None;
        };
        proof {
            assert(unesc_char(s@[pos + 1]) == Option::Some(u));
        }
        match parse_str_exec(s, pos + 2) {
            None => return None,
            Some((rest, p)) => {
                let mut t: Vec<char> = Vec::new();
                t.push(u);
                let mut rest = rest;
                let ghost restv = rest@;
                append_chars(&mut t, &mut rest);
                proof {
                    assert(t@ =~= seq![u] + restv);
                }
                return Some((t, p));
            },
        }
    }
    match parse_str_exec(s, pos + 1) {
        None => None,
        Some((rest, p)) => {
            let mut t: Vec<char> = Vec::new();
            t.push(c);
            let mut rest = rest;
            let ghost restv = rest@;
            append_chars(&mut t, &mut rest);
            proof {
                assert(t@ =~= seq![c] + restv);
            }
            Some((t, p))
        },
    }
}

/// Append the characters of `src` to `dst`, draining `src`.
pub fn append_chars(dst: &mut Vec<char>, src: &mut Vec<char>)
    ensures
        final(dst)@ == old(dst)@ + old(src)@,
{
    let mut i: usize = 0;
    proof {
        assert(dst@ =~= old(dst)@ + old(src)@.subrange(0, 0));
    }
    while i < src.len()
        invariant
            0 <= i <= src@.len(),
            src@ == old(src)@,
            dst@ == old(dst)@ + src@.subrange(0, i as int),
        decreases src@.len() - i,
    {
        let c = src[i];
        dst.push(c);
        proof {
            assert(dst@ =~= old(dst)@ + src@.subrange(0, i + 1));
        }
        i = i + 1;
    }
    proof {
        assert(dst@ =~= old(dst)@ + old(src)@);
    }
}

// ---------------------------------------------------------------------------
// Decimal numbers
// ---------------------------------------------------------------------------
/// The character of one decimal digit.
pub open spec fn digit_char(d: int) -> char {
    if d == 0 {
        '0'
    } else if d == 1 {
        '1'
    } else if d == 2 {
        '2'
    } else if d == 3 {
        '3'
    } else if d == 4 {
        '4'
    } else if d == 5 {
        '5'
    } else if d == 6 {
        '6'
    } else if d == 7 {
        '7'
    } else if d == 8 {
        '8'
    } else {
        '9'
    }
}

pub open spec fn is_digit(c: char) -> bool {
    '0' <= c <= '9'
}

/// The value of one digit character.
pub open spec fn digit_val(c: char) -> nat {
    if c == '0' {
        0
    } else if c == '1' {
        1
    } else if c == '2' {
        2
    } else if c == '3' {
        3
    } else if c == '4' {
        4
    } else if c == '5' {
        5
    } else if c == '6' {
        6
    } else if c == '7' {
        7
    } else if c == '8' {
        8
    } else {
        9
    }
}

/// The decimal digits of `n`, most significant first, without leading zeros.
pub open spec fn dec_digits(n: nat) -> Seq<char>
    decreases n,
{
    if n < 10 {
        seq![digit_char(n as int)]
    } else {
        dec_digits(n / 10).push(digit_char((n % 10) as int))
    }
}

/// The value of a digit string.
pub open spec fn dec_val(ds: Seq<char>) -> nat
    decreases ds.len(),
{
    if ds.len() == 0 {
        0
    } else {
        dec_val(ds.drop_last()) * 10 + digit_val(ds.last())
    }
}

pub open spec fn pow10(k: nat) -> nat
    decreases k,
{
    if k == 0 {
        1
    } else {
        10 * pow10((k - 1) as nat)
    }
}

pub proof fn lemma_dec_digits_props(n: nat)
    ensures
        dec_digits(n).len() >= 1,
        forall|i: int| 0 <= i < dec_digits(n).len() ==> is_digit(#[trigger] dec_digits(n)[i]),
        dec_val(dec_digits(n)) == n,
        n < pow10(dec_digits(n).len() as nat),
    decreases n,
{
    if n < 10 {
        let ds = dec_digits(n);
        assert(ds == seq![digit_char(n as int)]);
        assert(ds.drop_last() =~= Seq::<char>::empty());
        assert(ds.last() == digit_char(n as int));
        assert(dec_val(ds) == dec_val(Seq::<char>::empty()) * 10 + digit_val(ds.last()));
        assert(digit_val(digit_char(n as int)) == n);
        assert(pow10(0) == 1);
        assert(pow10(1) == 10);
    } else {
        lemma_dec_digits_props(n / 10);
        let ds = dec_digits(n);
        let prev = dec_digits(n / 10);
        assert(ds.drop_last() =~= prev);
        assert(ds.last() == digit_char((n % 10) as int));
        assert(digit_val(digit_char((n % 10) as int)) == n % 10);
        assert(dec_val(ds) == dec_val(prev) * 10 + n % 10);
        assert(dec_val(ds) == (n / 10) * 10 + n % 10);
        assert((n / 10) * 10 + n % 10 == n) by (nonlinear_arith);
        assert forall|i: int| 0 <= i < ds.len() implies is_digit(#[trigger] ds[i]) by {
            if i < prev.len() {
                assert(ds[i] == prev[i]);
            }
        };
        assert(n / 10 < pow10(prev.len() as nat));
        assert(pow10(ds.len() as nat) == 10 * pow10(prev.len() as nat));
        assert(n < 10 * pow10(prev.len() as nat)) by (nonlinear_arith)
            requires
                n / 10 < pow10(prev.len() as nat),
                n >= 10,
        ;
    }
}

/// The value of a digit string is below ten to its length.
pub proof fn lemma_dec_val_bound(ds: Seq<char>)
    ensures
        dec_val(ds) < pow10(ds.len() as nat),
    decreases ds.len(),
{
    if ds.len() == 0 {
    } else {
        lemma_dec_val_bound(ds.drop_last());
        assert(digit_val(ds.last()) <= 9);
        assert(pow10(ds.len() as nat) == 10 * pow10((ds.len() - 1) as nat));
        assert(dec_val(ds.drop_last()) * 10 + 9 < 10 * pow10((ds.len() - 1) as nat))
            by (nonlinear_arith)
            requires
                dec_val(ds.drop_last()) < pow10((ds.len() - 1) as nat),
        ;
    }
}

/// Append the decimal digits of `n` to `out`.
pub fn push_dec_u64(out: &mut Vec<char>, n: u64)
    ensures
        final(out)@ == old(out)@ + dec_digits(n as nat),
    decreases n,
{
    if n < 10 {
        let c: char = match n {
            0 => '0',
            1 => '1',
            2 => '2',
            3 => '3',
            4 => '4',
            5 => '5',
            6 => '6',
            7 => '7',
            8 => '8',
            _ => '9',
        };
        proof {
            assert(c == digit_char(n as int));
        }
        out.push(c);
        proof {
            assert(out@ =~= old(out)@ + dec_digits(n as nat));
        }
    } else {
        push_dec_u64(out, n / 10);
        let d = n % 10;
        let c: char = match d {
            0 => '0',
            1 => '1',
            2 => '2',
            3 => '3',
            4 => '4',
            5 => '5',
            6 => '6',
            7 => '7',
            8 => '8',
            _ => '9',
        };
        proof {
            assert(c == digit_char((n % 10) as int));
        }
        out.push(c);
        proof {
            assert(out@ =~= old(out)@ + dec_digits(n as nat));
        }
    }
}

/// The run of digit characters in `s` from `pos` on.
pub open spec fn digit_run(s: Seq<char>, pos: int) -> Seq<char>
    decreases s.len() - pos,
{
    if 0 <= pos < s.len() && is_digit(s[pos]) {
        seq![s[pos]] + digit_run(s, pos + 1)
    } else {
        Seq::empty()
    }
}

/// Parse a decimal number at `pos`: its run of digits read as a value, which
/// must be one to nineteen digits long so that it fits the machine word.
pub open spec fn parse_number(s: Seq<char>, pos: int) -> Option<(nat, int)> {
    let run = digit_run(s, pos);
    if run.len() == 0 || run.len() > 19 {
        Option::None
    } else {
        Option::Some((dec_val(run), pos + run.len()))
    }
}

/// A stretch of digits with a non-digit (or the end) after it is exactly the
/// digit run.
pub proof fn lemma_digit_run_exact(s: Seq<char>, pos: int, end: int)
    requires
        0 <= pos <= end <= s.len(),
        forall|j: int| pos <= j < end ==> is_digit(#[trigger] s[j]),
        end == s.len() || !is_digit(s[end]),
    ensures
        digit_run(s, pos) == s.subrange(pos, end),
    decreases end - pos,
{
    if pos == end {
        if pos < s.len() {
            assert(!is_digit(s[pos]));
        }
        assert(digit_run(s, pos) =~= s.subrange(pos, end));
    } else {
        assert(is_digit(s[pos]));
        lemma_digit_run_exact(s, pos + 1, end);
        assert(digit_run(s, pos) =~= s.subrange(pos, end));
    }
}

/// Parsing inverts decimal formatting, for values of at most nineteen digits.
pub proof fn lemma_parse_dec(s: Seq<char>, pos: int, n: nat)
    requires
        0 <= pos,
        n < pow10(19),
        pos + dec_digits(n).len() <= s.len(),
        s.subrange(pos, pos + dec_digits(n).len()) == dec_digits(n),
        pos + dec_digits(n).len() == s.len() || !is_digit(s[pos + dec_digits(n).len()]),
    ensures
        parse_number(s, pos) == Option::Some((n, pos + dec_digits(n).len())),
{
    let ds = dec_digits(n);
    lemma_dec_digits_props(n);
    assert forall|j: int| pos <= j < pos + ds.len() implies is_digit(#[trigger] s[j]) by {
        assert(s.subrange(pos, pos + ds.len())[j - pos] == s[j]);
        assert(is_digit(ds[j - pos]));
    };
    lemma_digit_run_exact(s, pos, pos + ds.len());
    assert(digit_run(s, pos) == ds);
    lemma_dec_digits_len_le(n, 19);
}

/// Ten to a larger power is at least ten to a smaller one.
pub proof fn lemma_pow10_monotone(a: nat, b: nat)
    requires
        a <= b,
    ensures
        pow10(a) <= pow10(b),
    decreases b,
{
    if a < b {
        lemma_pow10_monotone(a, (b - 1) as nat);
        assert(pow10(b) == 10 * pow10((b - 1) as nat));
    }
}

/// A value below ten to the `k` has at most `k` digits.
pub proof fn lemma_dec_digits_len_le(n: nat, k: nat)
    requires
        n < pow10(k),
        k >= 1,
    ensures
        dec_digits(n).len() <= k,
    decreases n,
{
    if n < 10 {
        assert(dec_digits(n).len() == 1);
    } else {
        assert(k >= 2) by {
            if k == 1 {
                assert(pow10(1) == 10 * pow10(0));
                assert(pow10(0) == 1);
            }
        };
        assert(pow10(k) == 10 * pow10((k - 1) as nat));
        assert(n / 10 < pow10((k - 1) as nat)) by (nonlinear_arith)
            requires
                n < 10 * pow10((k - 1) as nat),
        ;
        lemma_dec_digits_len_le(n / 10, (k - 1) as nat);
        assert(dec_digits(n).len() == dec_digits(n / 10).len() + 1);
    }
}

/// Parse a decimal number, executably.
pub fn parse_number_exec(s: &Vec<char>, pos: usize) -> (r: Option<(u64, usize)>)
    ensures
        match r {
            Option::Some((v, p)) => parse_number(s@, pos as int) == Option::Some(
                (v as nat, p as int),
            ) && pos < p <= s@.len(),
            Option::None => parse_number(s@, pos as int) is None,
        },
{
    if pos > s.len() {
        proof {
            assert(digit_run(s@, pos as int).len() == 0);
        }
        return None;
    }
    let mut end: usize = pos;
    while end < s.len() && is_digit_exec(s[end])
        invariant
            pos <= end <= s@.len(),
            forall|j: int| pos <= j < end ==> is_digit(#[trigger] s@[j]),
        decreases s@.len() - end,
    {
        end = end + 1;
    }
    proof {
        lemma_digit_run_exact(s@, pos as int, end as int);
    }
    let count = end - pos;
    if count == 0 || count > 19 {
        proof {
            assert(digit_run(s@, pos as int).len() == end - pos);
        }
        return None;
    }
    let ghost run = digit_run(s@, pos as int);
    let mut acc: u64 = 0;
    let mut i: usize = pos;
    proof {
        assert(run =~= s@.subrange(pos as int, end as int));
        assert(run.subrange(0, 0) =~= Seq::<char>::empty());
    }
    while i < end
        invariant
            pos <= i <= end <= s@.len(),
            end - pos <= 19,
            run == s@.subrange(pos as int, end as int),
            forall|j: int| pos <= j < end ==> is_digit(#[trigger] s@[j]),
            acc as nat == dec_val(run.subrange(0, i - pos)),
            (acc as nat) < pow10((i - pos) as nat),
        decreases end - i,
    {
        let c = s[i];
        let d: u64 = digit_val_exec(c);
        proof {
            assert(is_digit(s@[i as int]));
            lemma_pow10_monotone((i - pos) as nat, 18);
            assert(pow10(18) == 1000000000000000000) by {
                reveal_with_fuel(pow10, 19);
            };
            assert(acc * 10 + 9 < 10000000000000000000) by (nonlinear_arith)
                requires
                    acc < 1000000000000000000,
            ;
        }
        acc = acc * 10 + d;
        proof {
            let k = i - pos;
            assert(run.subrange(0, k + 1).drop_last() =~= run.subrange(0, k));
            assert(run.subrange(0, k + 1).last() == run[k]);
            assert(run[k] == s@[i as int]);
            assert(digit_val(run[k]) == d as nat);
            assert(acc as nat == dec_val(run.subrange(0, k + 1)));
            lemma_dec_val_bound(run.subrange(0, k + 1));
        }
        i = i + 1;
    }
    proof {
        assert(run.subrange(0, end - pos) =~= run);
        assert(parse_number(s@, pos as int) == Option::Some((acc as nat, end as int)));
    }
    Some((acc, end))
}

/// Whether a character is a decimal digit.
pub fn is_digit_exec(c: char) -> (r: bool)
    ensures
        r == is_digit(c),
{
    c >= '0' && c <= '9'
}

/// The value of a digit character.
fn digit_val_exec(c: char) -> (r: u64)
    requires
        is_digit(c),
    ensures
        r as nat == digit_val(c),
        r <= 9,
{
    if c == '0' {
        0
    } else if c == '1' {
        1
    } else if c == '2' {
        2
    } else if c == '3' {
        3
    } else if c == '4' {
        4
    } else if c == '5' {
        5
    } else if c == '6' {
        6
    } else if c == '7' {
        7
    } else if c == '8' {
        8
    } else {
        9
    }
}

} // verus!
