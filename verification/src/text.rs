use vstd::prelude::*;
use vstd::string::StrSliceExecFns;
use vstd::string::StringExecFns;

verus! {

// ---------------------------------------------------------------------------
// Splitting a line on single spaces, as `str::split(" ")` does: every space
// is a separator, and consecutive spaces produce empty pieces.
// ---------------------------------------------------------------------------
/// Index of the first space in `s`, or `s.len()` if there is none.
pub open spec fn first_sp(s: Seq<char>) -> int
    decreases s.len(),
{
    if s.len() == 0 {
        0
    } else if s[0] == ' ' {
        0
    } else {
        1 + first_sp(s.skip(1))
    }
}

/// The pieces of `s` between its spaces, in order, empty pieces kept.
pub open spec fn split_sp(s: Seq<char>) -> Seq<Seq<char>>
    decreases s.len(),
{
    let f = first_sp(s);
    if 0 <= f < s.len() {
        seq![s.take(f)] + split_sp(s.skip(f + 1))
    } else {
        seq![s]
    }
}

proof fn lemma_first_sp_bounds(s: Seq<char>)
    ensures
        0 <= first_sp(s) <= s.len(),
        forall|j: int| 0 <= j < first_sp(s) ==> s[j] != ' ',
        first_sp(s) < s.len() ==> s[first_sp(s)] == ' ',
    decreases s.len(),
{
    if s.len() == 0 || s[0] == ' ' {
    } else {
        lemma_first_sp_bounds(s.skip(1));
        assert forall|j: int| 0 <= j < first_sp(s) implies s[j] != ' ' by {
            if j > 0 {
                assert(s.skip(1)[j - 1] == s[j]);
            }
        }
        if first_sp(s) < s.len() {
            assert(s.skip(1)[first_sp(s) - 1] == s[first_sp(s)]);
        }
    }
}

/// If `s` has no space before `k`, and `k` is a space or the end, then `k` is
/// the first space position.
proof fn lemma_first_sp_at(s: Seq<char>, k: int)
    requires
        0 <= k <= s.len(),
        forall|j: int| 0 <= j < k ==> s[j] != ' ',
        k < s.len() ==> s[k] == ' ',
    ensures
        first_sp(s) == k,
    decreases k,
{
    if k == 0 {
        if s.len() > 0 && s[0] != ' ' {
            lemma_first_sp_bounds(s.skip(1));
        }
    } else {
        assert(s[0] != ' ');
        assert forall|j: int| 0 <= j < k - 1 implies s.skip(1)[j] != ' ' by {
            assert(s.skip(1)[j] == s[j + 1]);
        }
        if k - 1 < s.skip(1).len() {
            assert(s.skip(1)[k - 1] == s[k]);
        }
        lemma_first_sp_at(s.skip(1), k - 1);
    }
}

/// Split a line at every space, keeping empty pieces, as the standard
/// single-character `split` does.
pub fn tokenize(line: &str) -> (toks: Vec<String>)
    ensures
        toks@.map_values(|t: String| t@) == split_sp(line@),
{
    let n = line.unicode_len();
    let mut toks: Vec<String> = Vec::new();
    let mut start: usize = 0;
    let mut i: usize = 0;
    proof {
        assert(line@.skip(0) =~= line@);
        assert(toks@.map_values(|t: String| t@) + split_sp(line@) =~= split_sp(line@));
    }
    while i < n
        invariant
            0 <= start <= i <= n == line@.len(),
            forall|j: int| start <= j < i ==> line@[j] != ' ',
            split_sp(line@) =~= toks@.map_values(|t: String| t@) + split_sp(line@.skip(
                start as int,
            )),
        decreases n - i,
    {
        if line.get_char(i) == ' ' {
            let piece = line.substring_char(start, i);
            proof {
                let rest = line@.skip(start as int);
                assert forall|j: int| 0 <= j < i - start implies rest[j] != ' ' by {
                    assert(rest[j] == line@[start + j]);
                }
                assert(rest[i - start] == line@[i as int]);
                lemma_first_sp_at(rest, i - start);
                assert(rest.take(i - start) =~= line@.subrange(start as int, i as int));
                assert(rest.skip(i - start + 1) =~= line@.skip(i + 1));
                assert(split_sp(rest) == seq![line@.subrange(start as int, i as int)] + split_sp(
                    line@.skip(i + 1),
                ));
            }
            toks.push(<String as StringExecFns>::from_str(piece));
            proof {
                assert(toks@.map_values(|t: String| t@) =~= toks@.drop_last().map_values(
                    |t: String| t@,
                ).push(piece@));
            }
            start = i + 1;
        }
        i += 1;
    }
    let piece = line.substring_char(start, n);
    proof {
        let rest = line@.skip(start as int);
        assert forall|j: int| 0 <= j < rest.len() implies rest[j] != ' ' by {
            assert(rest[j] == line@[start + j]);
        }
        lemma_first_sp_at(rest, rest.len() as int);
        assert(rest =~= line@.subrange(start as int, n as int));
        assert(split_sp(rest) == seq![rest]);
    }
    toks.push(<String as StringExecFns>::from_str(piece));
    proof {
        assert(toks@.map_values(|t: String| t@) =~= toks@.drop_last().map_values(
            |t: String| t@,
        ).push(piece@));
        assert(toks@.map_values(|t: String| t@) =~= split_sp(line@));
    }
    toks
}

// ---------------------------------------------------------------------------
// Decimal digits.
// ---------------------------------------------------------------------------
pub open spec fn is_digit(c: char) -> bool {
    48 <= c as u32 <= 57
}

pub open spec fn digit_val(c: char) -> int {
    c as u32 - 48
}

pub open spec fn all_digits(s: Seq<char>) -> bool {
    forall|i: int| 0 <= i < s.len() ==> is_digit(#[trigger] s[i])
}

/// Value of a sequence of decimal digits, most significant first.
pub open spec fn dec_val(s: Seq<char>) -> int
    decreases s.len(),
{
    if s.len() == 0 {
        0
    } else {
        dec_val(s.drop_last()) * 10 + digit_val(s.last())
    }
}

proof fn lemma_dec_val_nonneg(s: Seq<char>)
    requires
        all_digits(s),
    ensures
        dec_val(s) >= 0,
    decreases s.len(),
{
    if s.len() > 0 {
        assert(all_digits(s.drop_last())) by {
            assert(forall|i: int| 0 <= i < s.len() - 1 ==> s.drop_last()[i] == s[i]);
        }
        lemma_dec_val_nonneg(s.drop_last());
    }
}

/// Digit values only grow a number: the value of the whole is at least the
/// value of any prefix.
proof fn lemma_dec_val_prefix(s: Seq<char>, k: int)
    requires
        all_digits(s),
        0 <= k <= s.len(),
    ensures
        dec_val(s) >= dec_val(s.take(k)),
    decreases s.len() - k,
{
    if k < s.len() {
        lemma_dec_val_prefix(s, k + 1);
        assert(s.take(k + 1).drop_last() =~= s.take(k));
        assert(all_digits(s.take(k))) by {
            assert(forall|i: int| 0 <= i < k ==> s.take(k)[i] == s[i]);
        }
        lemma_dec_val_nonneg(s.take(k));
        assert(s.take(k + 1).last() == s[k]);
        assert(dec_val(s.take(k + 1)) == dec_val(s.take(k)) * 10 + digit_val(s[k]));
        assert(dec_val(s.take(k)) * 10 >= dec_val(s.take(k))) by (nonlinear_arith)
            requires
                dec_val(s.take(k)) >= 0,
        ;
    } else {
        assert(s.take(k) =~= s);
    }
}

// ---------------------------------------------------------------------------
// Parsing unsigned and signed decimal numbers, as `usize::from_str` and
// `i32::from_str` do: an optional sign, then one or more digits, nothing
// else; out-of-range values are rejected.  The one difference: a signed
// value must have magnitude at most `i32::MAX`, so that negating it into the
// absolute score frame can never leave the type's range.
// ---------------------------------------------------------------------------
/// The digit part of a number token: everything after an optional leading
/// sign.
pub open spec fn digits_of(s: Seq<char>, signs: Seq<char>) -> Seq<char> {
    if s.len() > 0 && signs.contains(s[0]) {
        s.skip(1)
    } else {
        s
    }
}

pub open spec fn parse_usize_spec(s: Seq<char>) -> Option<usize> {
    let d = digits_of(s, seq!['+']);
    if d.len() > 0 && all_digits(d) && dec_val(d) <= usize::MAX {
        Some(dec_val(d) as usize)
    } else {
        None
    }
}

pub open spec fn parse_i32_spec(s: Seq<char>) -> Option<i32> {
    let d = digits_of(s, seq!['+', '-']);
    let neg = s.len() > 0 && s[0] == '-';
    if d.len() > 0 && all_digits(d) && dec_val(d) <= i32::MAX {
        Some(
            if neg {
                (-dec_val(d)) as i32
            } else {
                dec_val(d) as i32
            },
        )
    } else {
        None
    }
}

/// Value of the digit run of `s` from position `from` to the end, or `None`
/// on a non-digit or on a value past `limit`.
fn digits_value(s: &str, from: usize, limit: usize) -> (r: Option<usize>)
    requires
        from as int <= s@.len(),
        limit >= 9,
    ensures
        ({
            let d = s@.skip(from as int);
            match r {
                Some(v) => all_digits(d) && dec_val(d) == v && v <= limit,
                None => !(all_digits(d) && dec_val(d) <= limit),
            }
        }),
{
    let ghost d = s@.skip(from as int);
    let n = s.unicode_len();
    let mut acc: usize = 0;
    let mut i: usize = from;
    while i < n
        invariant
            from <= i <= n == s@.len(),
            d == s@.skip(from as int),
            all_digits(d.take(i - from)),
            acc == dec_val(d.take(i - from)),
            acc <= limit,
            limit >= 9,
        decreases n - i,
    {
        let c = s.get_char(i);
        let v = c as u32;
        proof {
            assert(d[i - from] == s@[i as int]);
            assert(d.take(i - from + 1).drop_last() =~= d.take(i - from));
            assert(d.take(i - from + 1).last() == d[i - from]);
        }
        if v < 48 || v > 57 {
            proof {
                assert(!is_digit(d[i - from]));
            }
            return None;
        }
        let dv = (v - 48) as usize;
        if acc > (limit - dv) / 10 {
            proof {
                assert(acc * 10 + dv > limit) by (nonlinear_arith)
                    requires
                        acc > (limit - dv) / 10,
                        dv <= limit,
                        acc >= 0,
                ;
                assert(dec_val(d.take(i - from + 1)) > limit);
                if all_digits(d) {
                    lemma_dec_val_prefix(d, i - from + 1);
                }
            }
            return None;
        }
        proof {
            assert(acc * 10 + dv <= limit) by (nonlinear_arith)
                requires
                    acc <= (limit - dv) / 10,
                    dv <= limit,
                    acc >= 0,
            ;
        }
        acc = acc * 10 + dv;
        i += 1;
    }
    proof {
        assert(d.take(n - from) =~= d);
    }
    Some(acc)
}

/// Parse an unsigned decimal number: an optional `+`, then digits.
pub fn parse_usize(s: &str) -> (r: Option<usize>)
    ensures
        r == parse_usize_spec(s@),
{
    let n = s.unicode_len();
    if n == 0 {
        return None;
    }
    let first = s.get_char(0);
    let start: usize = if first == '+' {
        1
    } else {
        0
    };
    let ghost d = digits_of(s@, seq!['+']);
    proof {
        assert(seq!['+'][0] == '+');
        if start == 1 {
            assert(seq!['+'].contains(s@[0]));
        } else {
            assert(!seq!['+'].contains(s@[0])) by {
                assert(forall|k: int| 0 <= k < seq!['+'].len() ==> seq!['+'][k] == '+');
            }
            assert(d =~= s@.skip(0));
        }
    }
    if start == n {
        proof {
            assert(d.len() == 0);
        }
        return None;
    }
    let r = digits_value(s, start, usize::MAX);
    proof {
        if start == 0 {
            assert(d =~= s@.skip(0));
        }
    }
    r
}

/// Parse a signed decimal number: an optional `+` or `-`, then digits, with
/// magnitude at most `i32::MAX`.
pub fn parse_i32(s: &str) -> (r: Option<i32>)
    ensures
        r == parse_i32_spec(s@),
{
    let n = s.unicode_len();
    if n == 0 {
        return None;
    }
    let first = s.get_char(0);
    let neg = first == '-';
    let signed = neg || first == '+';
    let ghost d = digits_of(s@, seq!['+', '-']);
    proof {
        assert(seq!['+', '-'][0] == '+');
        assert(seq!['+', '-'][1] == '-');
        if signed {
            assert(seq!['+', '-'].contains(s@[0]));
        } else {
            assert(!seq!['+', '-'].contains(s@[0])) by {
                assert(forall|k: int|
                    0 <= k < seq!['+', '-'].len() ==> (seq!['+', '-'][k] == '+' || seq![
                        '+',
                        '-',
                    ][k] == '-'));
            }
            assert(d =~= s@.skip(0));
        }
    }
    let limit: usize = i32::MAX as usize;
    if signed && n == 1 {
        proof {
            assert(d.len() == 0);
        }
        return None;
    }
    let start: usize = if signed {
        1
    } else {
        0
    };
    let mag = digits_value(s, start, limit);
    proof {
        if start == 0 {
            assert(d =~= s@.skip(0));
        }
    }
    match mag {
        None => None,
        Some(v) => {
            let w = v as i32;
            if neg {
                Some(-w)
            } else {
                Some(w)
            }
        },
    }
}

/// A parsed signed value always has magnitude at most `i32::MAX`.
pub(crate) proof fn lemma_parse_i32_range(s: Seq<char>)
    ensures
        parse_i32_spec(s) matches Some(v) ==> -i32::MAX <= v <= i32::MAX,
{
    let d = digits_of(s, seq!['+', '-']);
    if parse_i32_spec(s) is Some {
        lemma_dec_val_nonneg(d);
    }
}

// ---------------------------------------------------------------------------
// Printing an unsigned decimal number.
// ---------------------------------------------------------------------------
/// The decimal digit character for `d`.
pub open spec fn digit_char(d: int) -> char {
    if d == 0 {
        '0'
    } else if d == 1 {
        '1'
    } else if d == 2 {
        '2'
    } else if d == 3 {
        '3'
    } else if d == 4 {
        '4'
    } else if d == 5 {
        '5'
    } else if d == 6 {
        '6'
    } else if d == 7 {
        '7'
    } else if d == 8 {
        '8'
    } else {
        '9'
    }
}

/// The decimal representation of `n`, most significant digit first.
pub open spec fn dec_str(n: int) -> Seq<char>
    decreases n,
{
    if n < 10 {
        seq![digit_char(n)]
    } else {
        dec_str(n / 10).push(digit_char(n % 10))
    }
}

fn digit_str(d: usize) -> (r: &'static str)
    requires
        d < 10,
    ensures
        r@ =~= seq![digit_char(d as int)],
{
    proof {
        reveal_strlit("0");
        reveal_strlit("1");
        reveal_strlit("2");
        reveal_strlit("3");
        reveal_strlit("4");
        reveal_strlit("5");
        reveal_strlit("6");
        reveal_strlit("7");
        reveal_strlit("8");
        reveal_strlit("9");
    }
    if d == 0 {
        "0"
    } else if d == 1 {
        "1"
    } else if d == 2 {
        "2"
    } else if d == 3 {
        "3"
    } else if d == 4 {
        "4"
    } else if d == 5 {
        "5"
    } else if d == 6 {
        "6"
    } else if d == 7 {
        "7"
    } else if d == 8 {
        "8"
    } else {
        "9"
    }
}

/// Render `n` in decimal.
pub fn usize_to_string(n: usize) -> (r: String)
    ensures
        r@ == dec_str(n as int),
    decreases n,
{
    if n < 10 {
        <String as StringExecFns>::from_str(digit_str(n))
    } else {
        proof {
            assert(n / 10 < n) by (nonlinear_arith)
                requires
                    n >= 10,
            ;
        }
        let mut s = usize_to_string(n / 10);
        s.append(digit_str(n % 10));
        proof {
            assert(s@ =~= dec_str(n as int / 10).push(digit_char(n as int % 10)));
        }
        s
    }
}

} // verus!
