//! Character-level text processing: splitting a script into lines, lines
//! into whitespace-separated tokens, and parsing numeric literals.
//!
//! Tokens are separated by ASCII blanks (space, tab, carriage return); a
//! line break is a line feed.  A comment is a line that, once trimmed,
//! begins with `// `.
use crate::num::{Num, MICRO_MAX, SCALE};
use vstd::prelude::*;

verus! {

/// An ASCII blank that separates tokens within a line.
pub open spec fn is_space(c: char) -> bool {
    c == ' ' || c == '\t' || c == '\r'
}

/// First index at or after `i` holding a non-blank, or the length.
pub open spec fn skip_ws(s: Seq<char>, i: int) -> int
    decreases s.len() - i,
{
    if !(0 <= i < s.len()) {
        s.len() as int
    } else if !is_space(s[i]) {
        i
    } else {
        skip_ws(s, i + 1)
    }
}

/// First index at or after `i` holding a blank, or the length.
pub open spec fn token_end(s: Seq<char>, i: int) -> int
    decreases s.len() - i,
{
    if !(0 <= i < s.len()) {
        s.len() as int
    } else if is_space(s[i]) {
        i
    } else {
        token_end(s, i + 1)
    }
}

/// First index at or after `i` holding a line feed, or the length.
pub open spec fn line_end(s: Seq<char>, i: int) -> int
    decreases s.len() - i,
{
    if !(0 <= i < s.len()) {
        s.len() as int
    } else if s[i] == '\n' {
        i
    } else {
        line_end(s, i + 1)
    }
}

pub proof fn lemma_skip_ws_bounds(s: Seq<char>, i: int)
    requires
        0 <= i <= s.len(),
    ensures
        i <= skip_ws(s, i) <= s.len(),
        skip_ws(s, i) < s.len() ==> !is_space(s[skip_ws(s, i)]),
    decreases s.len() - i,
{
    if i < s.len() && is_space(s[i]) {
        lemma_skip_ws_bounds(s, i + 1);
    }
}

pub proof fn lemma_token_end_bounds(s: Seq<char>, i: int)
    requires
        0 <= i <= s.len(),
    ensures
        i <= token_end(s, i) <= s.len(),
        token_end(s, i) < s.len() ==> is_space(s[token_end(s, i)]),
        i < s.len() && !is_space(s[i]) ==> token_end(s, i) > i,
    decreases s.len() - i,
{
    if i < s.len() && !is_space(s[i]) {
        lemma_token_end_bounds(s, i + 1);
    }
}

pub proof fn lemma_line_end_bounds(s: Seq<char>, i: int)
    requires
        0 <= i <= s.len(),
    ensures
        i <= line_end(s, i) <= s.len(),
        line_end(s, i) < s.len() ==> s[line_end(s, i)] == '\n',
    decreases s.len() - i,
{
    if i < s.len() && s[i] != '\n' {
        lemma_line_end_bounds(s, i + 1);
    }
}

/// The tokens of `s` from position `i` on.
pub open spec fn tokens_from(s: Seq<char>, i: int) -> Seq<Seq<char>>
    decreases s.len() - i,
{
    let j = skip_ws(s, i);
    if !(i <= j < s.len()) {
        Seq::empty()
    } else {
        let e = token_end(s, j);
        if e <= i || e > s.len() {
            Seq::empty()
        } else {
            seq![s.subrange(j, e)] + tokens_from(s, e)
        }
    }
}

/// The whitespace-separated tokens of a whole line.
pub open spec fn tokenize(s: Seq<char>) -> Seq<Seq<char>> {
    tokens_from(s, 0)
}

/// `s` with leading and trailing blanks removed.
pub open spec fn trim(s: Seq<char>) -> Seq<char> {
    let l = skip_ws(s, 0);
    let r = rtrim_idx(s, s.len() as int);
    if l >= r {
        Seq::empty()
    } else {
        s.subrange(l, r)
    }
}

/// Last index `j <= i` such that `s[j - 1]` is not a blank, or zero.
pub open spec fn rtrim_idx(s: Seq<char>, i: int) -> int
    decreases i,
{
    if i <= 0 || i > s.len() {
        0
    } else if is_space(s[i - 1]) {
        rtrim_idx(s, i - 1)
    } else {
        i
    }
}

pub proof fn lemma_rtrim_bounds(s: Seq<char>, i: int)
    requires
        0 <= i <= s.len(),
    ensures
        0 <= rtrim_idx(s, i) <= i,
        rtrim_idx(s, i) > 0 ==> !is_space(s[rtrim_idx(s, i) - 1]),
    decreases i,
{
    if 0 < i && is_space(s[i - 1]) {
        lemma_rtrim_bounds(s, i - 1);
    }
}

/// A trimmed line that the interpreter ignores: blank, or a comment.
pub open spec fn is_ignored_line(t: Seq<char>) -> bool {
    t.len() == 0 || (t.len() >= 3 && t[0] == '/' && t[1] == '/' && t[2] == ' ')
}

/// The trimmed, non-ignored lines of a script, from position `i` on.
pub open spec fn clean_lines_from(s: Seq<char>, i: int) -> Seq<Seq<char>>
    decreases s.len() - i,
{
    if !(0 <= i <= s.len()) {
        Seq::empty()
    } else {
        let e = line_end(s, i);
        if e < i {
            Seq::empty()
        } else {
            let t = trim(s.subrange(i, e));
            let rest = if e + 1 > s.len() {
                Seq::empty()
            } else {
                clean_lines_from(s, e + 1)
            };
            if is_ignored_line(t) {
                rest
            } else {
                seq![t] + rest
            }
        }
    }
}

/// The statement lines of a script: split at line feeds, trimmed, with
/// blank lines and comments dropped.
pub open spec fn clean_lines(s: Seq<char>) -> Seq<Seq<char>> {
    clean_lines_from(s, 0)
}

fn is_space_exec(c: char) -> (r: bool)
    ensures
        r == is_space(c),
{
    c == ' ' || c == '\t' || c == '\r'
}

/// Index of the first non-blank at or after `i`.
fn scan_space(s: &str, i: usize, n: usize) -> (r: usize)
    requires
        n == s@.len(),
        i <= n,
    ensures
        r == skip_ws(s@, i as int),
        i <= r <= n,
{
    let mut j = i;
    while j < n && is_space_exec(s.get_char(j))
        invariant
            i <= j <= n,
            n == s@.len(),
            skip_ws(s@, i as int) == skip_ws(s@, j as int),
        decreases n - j,
    {
        j = j + 1;
    }
    proof {
        lemma_skip_ws_bounds(s@, j as int);
    }
    j
}

/// Index of the first blank at or after `i`.
fn scan_token(s: &str, i: usize, n: usize) -> (r: usize)
    requires
        n == s@.len(),
        i <= n,
    ensures
        r == token_end(s@, i as int),
        i <= r <= n,
{
    let mut j = i;
    while j < n && !is_space_exec(s.get_char(j))
        invariant
            i <= j <= n,
            n == s@.len(),
            token_end(s@, i as int) == token_end(s@, j as int),
        decreases n - j,
    {
        j = j + 1;
    }
    proof {
        lemma_token_end_bounds(s@, j as int);
    }
    j
}

/// Index of the first line feed at or after `i`.
fn scan_line(s: &str, i: usize, n: usize) -> (r: usize)
    requires
        n == s@.len(),
        i <= n,
    ensures
        r == line_end(s@, i as int),
        i <= r <= n,
{
    let mut j = i;
    while j < n && s.get_char(j) != '\n'
        invariant
            i <= j <= n,
            n == s@.len(),
            line_end(s@, i as int) == line_end(s@, j as int),
        decreases n - j,
    {
        j = j + 1;
    }
    proof {
        lemma_line_end_bounds(s@, j as int);
    }
    j
}

/// Splits a line into its whitespace-separated tokens.
pub fn split_tokens(line: &str) -> (r: Vec<String>)
    ensures
        r.deep_view() == tokenize(line@),
{
    let n = line.unicode_len();
    let mut out: Vec<String> = Vec::new();
    let mut i: usize = 0;
    while i < n
        invariant
            i <= n,
            n == line@.len(),
            tokenize(line@) == out.deep_view() + tokens_from(line@, i as int),
        decreases n - i,
    {
        let ghost i0 = i as int;
        let j = scan_space(line, i, n);
        if j >= n {
            proof {
                assert(tokens_from(line@, i0) =~= Seq::<Seq<char>>::empty());
                assert(out.deep_view() + tokens_from(line@, i0) =~= out.deep_view());
            }
            i = n;
        } else {
            let e = scan_token(line, j, n);
            proof {
                lemma_token_end_bounds(line@, j as int);
                lemma_skip_ws_bounds(line@, i0);
            }
            let tok = line.substring_char(j, e).to_owned();
            let ghost old_out = out.deep_view();
            out.push(tok);
            proof {
                assert(out.deep_view() =~= old_out + seq![line@.subrange(j as int, e as int)]);
                assert(tokens_from(line@, i0) == seq![line@.subrange(j as int, e as int)]
                    + tokens_from(line@, e as int));
                assert(out.deep_view() + tokens_from(line@, e as int) =~= old_out + tokens_from(
                    line@,
                    i0,
                ));
            }
            i = e;
        }
    }
    proof {
        assert(tokens_from(line@, n as int) =~= Seq::<Seq<char>>::empty());
        assert(out.deep_view() + tokens_from(line@, n as int) =~= out.deep_view());
    }
    out
}

/// Trims a line and reports it, or nothing for a blank or comment line.
fn clean_one_line(s: &str, from: usize, to: usize) -> (r: Option<String>)
    requires
        from <= to <= s@.len(),
    ensures
        ({
            let t = trim(s@.subrange(from as int, to as int));
            match r {
                Some(x) => x@ == t && !is_ignored_line(t),
                None => is_ignored_line(t),
            }
        }),
{
    let raw = s.substring_char(from, to).to_owned();
    let n = raw.as_str().unicode_len();
    let l = scan_space(raw.as_str(), 0, n);
    let mut r_end = n;
    while r_end > 0 && is_space_exec(raw.as_str().get_char(r_end - 1))
        invariant
            r_end <= n,
            n == raw@.len(),
            rtrim_idx(raw@, n as int) == rtrim_idx(raw@, r_end as int),
        decreases r_end,
    {
        r_end = r_end - 1;
    }
    proof {
        lemma_rtrim_bounds(raw@, r_end as int);
    }
    if l >= r_end {
        proof {
            assert(trim(raw@) =~= Seq::<char>::empty());
        }
        None
    } else {
        let t = raw.as_str().substring_char(l, r_end).to_owned();
        proof {
            assert(t@ =~= trim(raw@));
        }
        let tlen = r_end - l;
        if tlen >= 3 && t.as_str().get_char(0) == '/' && t.as_str().get_char(1) == '/'
            && t.as_str().get_char(2) == ' ' {
            None
        } else {
            Some(t)
        }
    }
}

/// Splits a whole script into its statement lines: trimmed, with blank
/// lines and comments dropped.
pub fn preprocess(text: &str) -> (r: Vec<String>)
    ensures
        r.deep_view() == clean_lines(text@),
{
    let n = text.unicode_len();
    let mut out: Vec<String> = Vec::new();
    let mut i: usize = 0;
    let mut done = false;
    while !done
        invariant
            i <= n,
            n == text@.len(),
            !done ==> clean_lines(text@) == out.deep_view() + clean_lines_from(text@, i as int),
            done ==> clean_lines(text@) == out.deep_view(),
        decreases n - i + 1, (if done {
            0int
        } else {
            1int
        }),
    {
        let ghost i0 = i as int;
        let e = scan_line(text, i, n);
        let ghost old_out = out.deep_view();
        match clean_one_line(text, i, e) {
            Some(line) => {
                out.push(line);
                proof {
                    assert(out.deep_view() =~= old_out + seq![
                        trim(text@.subrange(i0, e as int)),
                    ]);
                }
            },
            None => {
            },
        }
        proof {
            lemma_line_end_bounds(text@, i0);
        }
        if e >= n {
            proof {
                assert(clean_lines_from(text@, i0) == (if is_ignored_line(
                    trim(text@.subrange(i0, e as int)),
                ) {
                    Seq::<Seq<char>>::empty()
                } else {
                    seq![trim(text@.subrange(i0, e as int))] + Seq::<Seq<char>>::empty()
                }));
                // Close the accounting: nothing remains after this line.
                if is_ignored_line(trim(text@.subrange(i0, e as int))) {
                    assert(out.deep_view() =~= old_out);
                    assert(old_out + clean_lines_from(text@, i0) =~= old_out);
                } else {
                    assert(old_out + clean_lines_from(text@, i0) =~= out.deep_view());
                }
            }
            done = true;
        } else {
            proof {
                if is_ignored_line(trim(text@.subrange(i0, e as int))) {
                    assert(out.deep_view() + clean_lines_from(text@, e as int + 1) =~= old_out
                        + clean_lines_from(text@, i0));
                } else {
                    assert(out.deep_view() + clean_lines_from(text@, e as int + 1) =~= old_out
                        + clean_lines_from(text@, i0));
                }
            }
            i = e + 1;
        }
    }
    out
}

/// A decimal digit.
pub open spec fn is_digit(c: char) -> bool {
    48 <= c as int <= 57
}

/// The numeric value of a decimal digit.
pub open spec fn digit_val(c: char) -> int {
    c as int - 48
}

/// The value of a run of decimal digits; meaningful only when every
/// character is a digit.
pub open spec fn digits_val(t: Seq<char>) -> int
    decreases t.len(),
{
    if t.len() == 0 {
        0
    } else {
        digits_val(t.drop_last()) * 10 + digit_val(t.last())
    }
}

pub open spec fn all_digits(t: Seq<char>) -> bool {
    forall|k: int| 0 <= k < t.len() ==> is_digit(#[trigger] t[k])
}

/// First index at or after `i` holding a dot, or the length.
pub open spec fn dot_end(s: Seq<char>, i: int) -> int
    decreases s.len() - i,
{
    if !(0 <= i < s.len()) {
        s.len() as int
    } else if s[i] == '.' {
        i
    } else {
        dot_end(s, i + 1)
    }
}

pub proof fn lemma_dot_end_bounds(s: Seq<char>, i: int)
    requires
        0 <= i <= s.len(),
    ensures
        i <= dot_end(s, i) <= s.len(),
        dot_end(s, i) < s.len() ==> s[dot_end(s, i)] == '.',
    decreases s.len() - i,
{
    if i < s.len() && s[i] != '.' {
        lemma_dot_end_bounds(s, i + 1);
    }
}

pub open spec fn pow10(k: nat) -> int
    decreases k,
{
    if k == 0 {
        1
    } else {
        10 * pow10((k - 1) as nat)
    }
}

/// The number of digits the integer part of a literal may carry.
pub const MAX_INT_DIGITS: usize = 18;

/// The value, in millionths, of a numeric literal: an optional sign, then
/// decimal digits with at most one dot.  Fraction digits beyond the sixth
/// are read but do not contribute.  `None` when the text is not a number
/// or the value is out of range.  This grammar is deliberately plain
/// decimal: exponent notation and the special float words are not
/// numbers here, so every accepted literal is exact in fixed point.
pub open spec fn parse_num_micro(t: Seq<char>) -> Option<int> {
    if t.len() == 0 {
        None
    } else {
        let neg = t[0] == '-';
        let signed = t[0] == '-' || t[0] == '+';
        let body = if signed {
            t.drop_first()
        } else {
            t
        };
        let d0 = dot_end(body, 0);
        let d = if d0 > body.len() {
            body.len() as int
        } else {
            d0
        };
        let ip = body.subrange(0, d);
        let fp = if d >= body.len() {
            Seq::<char>::empty()
        } else {
            body.subrange(d + 1, body.len() as int)
        };
        if ip.len() + fp.len() == 0 {
            None
        } else if !all_digits(ip) || !all_digits(fp) {
            None
        } else if ip.len() > MAX_INT_DIGITS {
            None
        } else {
            let fp6 = if fp.len() > 6 {
                fp.subrange(0, 6)
            } else {
                fp
            };
            let m = digits_val(ip) * (SCALE as int) + digits_val(fp6) * pow10(
                (6 - fp6.len()) as nat,
            );
            if m > MICRO_MAX as int {
                None
            } else if neg {
                Some(-m)
            } else {
                Some(m)
            }
        }
    }
}

/// Whether the character at `i` is a decimal digit.
fn digit_at(s: &str, i: usize) -> (r: bool)
    requires
        i < s@.len(),
    ensures
        r == is_digit(s@[i as int]),
{
    let c = s.get_char(i);
    let cu = c as u32;
    48 <= cu && cu <= 57
}

fn pow10_u64(k: u64) -> (r: u64)
    requires
        k <= 6,
    ensures
        r == pow10(k as nat),
{
    let mut r: u64 = 1;
    let mut i: u64 = 0;
    while i < k
        invariant
            i <= k <= 6,
            r == pow10(i as nat),
        decreases k - i,
    {
        proof {
            lemma_pow10_mono((i + 1) as nat, 6);
            assert(pow10(6) == 1_000_000) by {
                reveal_with_fuel(pow10, 7);
            };
        }
        i = i + 1;
        r = r * 10;
    }
    r
}

/// Parses the numeric literal standing in `s` from position `start` on.
#[verifier::rlimit(100)]
#[verifier::spinoff_prover]
pub fn parse_number_token(s: &str, start: usize) -> (r: Option<Num>)
    requires
        start <= s@.len(),
    ensures
        match r {
            Some(v) => parse_num_micro(s@.subrange(start as int, s@.len() as int)) == Some(
                v.as_int(),
            ) && v.wf(),
            None => parse_num_micro(s@.subrange(start as int, s@.len() as int)) is None,
        },
{
    let n = s.unicode_len();
    let ghost t = s@.subrange(start as int, n as int);
    if start >= n {
        return None;
    }
    let first = s.get_char(start);
    let neg = first == '-';
    let signed = neg || first == '+';
    let b0: usize = if signed {
        start + 1
    } else {
        start
    };
    let ghost body = s@.subrange(b0 as int, n as int);
    proof {
        assert(t[0] == s@[start as int]);
        if signed {
            assert(body =~= t.drop_first());
        } else {
            assert(body =~= t);
        }
    }
    // Integer part: a run of digits, at most MAX_INT_DIGITS long.
    let mut i = b0;
    let mut acc: u64 = 0;
    let mut cnt: usize = 0;
    let mut overlong = false;
    while i < n && digit_at(s, i)
        invariant
            b0 <= i <= n,
            n == s@.len(),
            body == s@.subrange(b0 as int, n as int),
            cnt == i - b0,
            dot_end(body, 0) == dot_end(body, i - b0),
            all_digits(body.subrange(0, i - b0)),
            !overlong ==> cnt <= MAX_INT_DIGITS && acc == digits_val(
                body.subrange(0, i - b0),
            ) && acc < pow10(cnt as nat),
            overlong ==> cnt > MAX_INT_DIGITS,
            pow10(cnt as nat) >= 1,
        decreases n - i,
    {
        let c = s.get_char(i);
        let d = (c as u32 - 48) as u64;
        proof {
            assert(body[i - b0] == s@[i as int]);
            assert(body.subrange(0, i - b0 + 1).drop_last() =~= body.subrange(0, i - b0));
            assert(digits_val(body.subrange(0, i - b0 + 1)) == digits_val(
                body.subrange(0, i - b0),
            ) * 10 + digit_val(body[i - b0]));
        }
        if cnt >= MAX_INT_DIGITS {
            overlong = true;
            acc = 0;
        } else if !overlong {
            proof {
                assert(pow10((cnt + 1) as nat) == 10 * pow10(cnt as nat));
                assert(acc * 10 + 9 < 10 * pow10(cnt as nat)) by (nonlinear_arith)
                    requires
                        acc < pow10(cnt as nat),
                ;
                assert(pow10(cnt as nat) <= pow10(18)) by {
                    lemma_pow10_mono(cnt as nat, 18);
                };
                assert(pow10(18) == 1_000_000_000_000_000_000) by {
                    reveal_with_fuel(pow10, 19);
                };
            }
            acc = acc * 10 + d;
        }
        cnt = cnt + 1;
        i = i + 1;
        proof {
            if overlong {
                assert(cnt > MAX_INT_DIGITS);
            }
        }
    }
    let ip_len = i - b0;
    let ghost has_dot = i < n;
    proof {
        lemma_dot_end_bounds(body, i - b0);
    }
    // The integer part ends here: at a dot, at the end, or at a bad
    // character that the specification also rejects.
    if i < n && s.get_char(i) != '.' {
        proof {
            assert(body[i - b0] == s@[i as int]);
            assert(dot_end(body, i - b0) > i - b0);
            let d0 = dot_end(body, 0);
            let d = if d0 > body.len() {
                body.len() as int
            } else {
                d0
            };
            assert(d > i - b0);
            assert(!is_digit(body.subrange(0, d)[i - b0]));
        }
        return None;
    }
    // From here on the dot index of the specification is the scan position.
    let ghost d_g: int = ip_len as int;
    proof {
        if i < n {
            assert(body[i - b0] == s@[i as int]);
            assert(dot_end(body, i - b0) == i - b0);
        }
        assert(dot_end(body, 0) == if has_dot {
            ip_len as int
        } else {
            body.len() as int
        });
    }
    if overlong {
        proof {
            assert(body.subrange(0, d_g).len() > MAX_INT_DIGITS);
        }
        return None;
    }
    let mut facc: u64 = 0;
    let mut fcnt: u64 = 0;
    let mut fp_len: usize = 0;
    if i < n {
        // Fraction part: everything after the dot must be a digit; only
        // the first six digits contribute to the value.
        let dpos = i;
        let mut j = i + 1;
        while j < n
            invariant
                dpos == i,
                start <= b0 <= i < j <= n,
                n == s@.len(),
                t == s@.subrange(start as int, n as int),
                t.len() > 0,
                signed == (t[0] == '-' || t[0] == '+'),
                b0 == start + (if signed {
                    1int
                } else {
                    0int
                }),
                body == (if signed {
                    t.drop_first()
                } else {
                    t
                }),
                body == s@.subrange(b0 as int, n as int),
                dot_end(body, 0) == i - b0,
                all_digits(body.subrange(i - b0 + 1, j as int - b0)),
                fcnt == if j - i - 1 <= 6 {
                    (j - i - 1) as int
                } else {
                    6int
                },
                facc == digits_val(body.subrange(i - b0 + 1, i - b0 + 1 + fcnt as int)),
                facc < pow10(fcnt as nat),
            decreases n - j,
        {
            let c = s.get_char(j);
            let cu = c as u32;
            if !(48 <= cu && cu <= 57) {
                proof {
                    let d = i - b0;
                    let fp = body.subrange(d + 1, body.len() as int);
                    assert(fp[j - b0 - d - 1] == body[j - b0]);
                    assert(body[j - b0] == s@[j as int]);
                    assert(!is_digit(fp[j - b0 - d - 1]));
                    assert(!all_digits(fp));
                    assert(dot_end(body, 0) == d);
                    assert(parse_num_micro(t) is None);
                }
                return None;
            }
            proof {
                assert(body[j - b0] == s@[j as int]);
            }
            if fcnt < 6 {
                proof {
                    assert(body.subrange(i - b0 + 1, i - b0 + 1 + (fcnt + 1) as int).drop_last()
                        =~= body.subrange(i - b0 + 1, i - b0 + 1 + fcnt as int));
                    lemma_pow10_pos(fcnt as nat);
                    assert(pow10((fcnt + 1) as nat) == 10 * pow10(fcnt as nat));
                    assert(facc * 10 + 9 < 10 * pow10(fcnt as nat)) by (nonlinear_arith)
                        requires
                            facc < pow10(fcnt as nat),
                    ;
                    lemma_pow10_mono((fcnt + 1) as nat, 6);
                    assert(pow10(6) == 1_000_000) by {
                        reveal_with_fuel(pow10, 7);
                    };
                }
                facc = facc * 10 + ((cu - 48) as u64);
                fcnt = fcnt + 1;
            }
            proof {
                assert(all_digits(body.subrange(i - b0 + 1, j as int - b0 + 1)));
            }
            j = j + 1;
        }
        fp_len = n - dpos - 1;
    }
    // The pieces of the specification's reading of the token.
    let ghost ip = body.subrange(0, d_g);
    let ghost fp = if d_g >= body.len() {
        Seq::<char>::empty()
    } else {
        body.subrange(d_g + 1, body.len() as int)
    };
    let ghost fp6 = if fp.len() > 6 {
        fp.subrange(0, 6)
    } else {
        fp
    };
    proof {
        assert(ip =~= body.subrange(0, ip_len as int));
        assert(acc == digits_val(ip));
        if has_dot {
            assert(fp.len() == fp_len);
            assert(all_digits(fp)) by {
                assert(fp =~= body.subrange(i - b0 + 1, n as int - b0));
            };
            assert(fp6 =~= body.subrange(i - b0 + 1, i - b0 + 1 + fcnt as int));
            assert(fp6.len() == fcnt);
        } else {
            assert(fp.len() == 0 && fp_len == 0 && fcnt == 0 && facc == 0);
            assert(fp6.len() == 0);
            assert(digits_val(fp6) == 0);
        }
        assert(facc == digits_val(fp6));
    }
    // Nothing but a sign or a lone dot is not a number.
    if ip_len == 0 && fp_len == 0 {
        return None;
    }
    let pad = pow10_u64(6 - fcnt);
    proof {
        lemma_pow10_add(fcnt as nat, (6 - fcnt) as nat);
        lemma_pow10_pos((6 - fcnt) as nat);
        assert(pow10(6) == 1_000_000) by {
            reveal_with_fuel(pow10, 7);
        };
        assert(facc * pad <= 999_999) by (nonlinear_arith)
            requires
                facc < pow10(fcnt as nat),
                pad == pow10((6 - fcnt) as nat),
                pow10(fcnt as nat) * pow10((6 - fcnt) as nat) == 1_000_000,
                pow10((6 - fcnt) as nat) >= 1,
        ;
    }
    let frac: u64 = facc * pad;
    proof {
        lemma_pow10_mono(cnt as nat, 18);
        assert(pow10(18) == 1_000_000_000_000_000_000) by {
            reveal_with_fuel(pow10, 19);
        };
        assert(acc as int * (SCALE as int) <= (pow10(18) - 1) * (SCALE as int))
            by (nonlinear_arith)
            requires
                acc as int <= pow10(18) - 1,
                SCALE > 0,
        ;
    }
    let m: u128 = (acc as u128) * (SCALE as u128) + (frac as u128);
    proof {
        assert(m == digits_val(ip) * (SCALE as int) + digits_val(fp6) * pow10(
            (6 - fp6.len()) as nat,
        ));
    }
    if m > MICRO_MAX as u128 {
        return None;
    }
    let micro: i64 = if neg {
        -(m as i64)
    } else {
        m as i64
    };
    Some(Num { micro })
}

pub proof fn lemma_pow10_pos(a: nat)
    ensures
        pow10(a) >= 1,
    decreases a,
{
    if a > 0 {
        lemma_pow10_pos((a - 1) as nat);
    }
}

pub proof fn lemma_pow10_mono(a: nat, b: nat)
    requires
        a <= b,
    ensures
        pow10(a) <= pow10(b),
    decreases b - a,
{
    if a < b {
        lemma_pow10_mono(a, (b - 1) as nat);
        lemma_pow10_pos((b - 1) as nat);
        assert(pow10(b) == 10 * pow10((b - 1) as nat));
    }
}

pub proof fn lemma_pow10_add(a: nat, b: nat)
    ensures
        pow10(a) * pow10(b) == pow10(a + b),
    decreases a,
{
    if a == 0 {
        assert(pow10(0) * pow10(b) == pow10(b)) by (nonlinear_arith)
            requires
                pow10(0) == 1,
        ;
    } else {
        lemma_pow10_add((a - 1) as nat, b);
        assert(pow10(a) == 10 * pow10((a - 1) as nat));
        assert((10 * pow10((a - 1) as nat)) * pow10(b) == 10 * (pow10((a - 1) as nat) * pow10(
            b,
        ))) by (nonlinear_arith);
        assert(pow10(a + b) == 10 * pow10((a + b - 1) as nat));
    }
}

/// Compares two string slices character by character.
pub fn str_eq(a: &str, b: &str) -> (r: bool)
    ensures
        r == (a@ == b@),
{
    let n = a.unicode_len();
    let m = b.unicode_len();
    if n != m {
        return false;
    }
    let mut i: usize = 0;
    while i < n
        invariant
            i <= n,
            n == a@.len(),
            n == b@.len(),
            forall|k: int| 0 <= k < i ==> a@[k] == b@[k],
        decreases n - i,
    {
        if a.get_char(i) != b.get_char(i) {
            return false;
        }
        i = i + 1;
    }
    proof {
        assert(a@ =~= b@);
    }
    true
}

} // verus!
