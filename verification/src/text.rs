//! Decimal text: rendering integers and parsing scalar tokens.
//!
//! The textual forms here are the native ones: decimal digits with an
//! optional sign for integers, `true`/`false` for bools.  Parsing follows
//! the same grammar and rejects anything else, including values outside
//! the target type's range.

use vstd::prelude::*;

verus! {

/// The character for one decimal digit.
pub open spec fn digit_char(d: nat) -> char {
    if d == 0 {
        '0'
    } else if d == 1 {
        '1'
    } else if d == 2 {
        '2'
    } else if d == 3 {
        '3'
    } else if d == 4 {
        '4'
    } else if d == 5 {
        '5'
    } else if d == 6 {
        '6'
    } else if d == 7 {
        '7'
    } else if d == 8 {
        '8'
    } else {
        '9'
    }
}

/// The decimal rendering of a natural number, most significant digit
/// first, with no sign and no leading zeros.
pub open spec fn spec_udec(n: nat) -> Seq<char>
    decreases n,
{
    if n < 10 {
        seq![digit_char(n)]
    } else {
        spec_udec(n / 10) + seq![digit_char(n % 10)]
    }
}

/// The decimal rendering of an integer: a minus sign for negatives, then
/// the magnitude.
pub open spec fn spec_idec(v: int) -> Seq<char> {
    if v < 0 {
        seq!['-'] + spec_udec((-v) as nat)
    } else {
        spec_udec(v as nat)
    }
}

/// One decimal digit as a string slice.
fn digit_str(d: u32) -> (out: &'static str)
    requires
        d < 10,
    ensures
        out@ == seq![digit_char(d as nat)],
{
    let out: &'static str = if d == 0 {
        "0"
    } else if d == 1 {
        "1"
    } else if d == 2 {
        "2"
    } else if d == 3 {
        "3"
    } else if d == 4 {
        "4"
    } else if d == 5 {
        "5"
    } else if d == 6 {
        "6"
    } else if d == 7 {
        "7"
    } else if d == 8 {
        "8"
    } else {
        "9"
    };
    proof {
        reveal_strlit("0");
        reveal_strlit("1");
        reveal_strlit("2");
        reveal_strlit("3");
        reveal_strlit("4");
        reveal_strlit("5");
        reveal_strlit("6");
        reveal_strlit("7");
        reveal_strlit("8");
        reveal_strlit("9");
        assert(out@ =~= seq![digit_char(d as nat)]);
    }
    out
}

/// Renders an unsigned 32-bit integer in decimal.
pub fn u32_dec(n: u32) -> (out: String)
    ensures
        out@ == spec_udec(n as nat),
    decreases n,
{
    if n < 10 {
        digit_str(n).to_owned()
    } else {
        let mut s = u32_dec(n / 10);
        s.append(digit_str(n % 10));
        proof {
            assert(s@ =~= spec_udec(n as nat));
        }
        s
    }
}

/// Renders a signed 32-bit integer in decimal.
pub fn i32_dec(v: i32) -> (out: String)
    ensures
        out@ == spec_idec(v as int),
{
    if v >= 0 {
        u32_dec(v as u32)
    } else {
        let m64: i64 = -(v as i64);
        let m: u32 = m64 as u32;
        let mut s = "-".to_owned();
        let digits = u32_dec(m);
        s.append(digits.as_str());
        proof {
            reveal_strlit("-");
            assert(s@ =~= spec_idec(v as int));
        }
        s
    }
}

/// Whether a character is a decimal digit.
pub open spec fn is_digit(c: char) -> bool {
    c == '0' || c == '1' || c == '2' || c == '3' || c == '4' || c == '5' || c == '6' || c == '7'
        || c == '8' || c == '9'
}

/// The value of a decimal digit character.
pub open spec fn digit_val(c: char) -> nat {
    if c == '0' {
        0
    } else if c == '1' {
        1
    } else if c == '2' {
        2
    } else if c == '3' {
        3
    } else if c == '4' {
        4
    } else if c == '5' {
        5
    } else if c == '6' {
        6
    } else if c == '7' {
        7
    } else if c == '8' {
        8
    } else {
        9
    }
}

/// Whether every character of a sequence is a decimal digit.
pub open spec fn digits_only(s: Seq<char>) -> bool {
    forall|k: int| 0 <= k < s.len() ==> is_digit(#[trigger] s[k])
}

/// The number a sequence of decimal digits denotes.
pub open spec fn digits_val(s: Seq<char>) -> nat
    decreases s.len(),
{
    if s.len() == 0 {
        0
    } else {
        digits_val(s.drop_last()) * 10 + digit_val(s.last())
    }
}

/// The digit part of an integer token: everything after a leading sign.
pub open spec fn spec_digit_part(s: Seq<char>) -> Seq<char> {
    if s.len() > 0 && (s[0] == '+' || s[0] == '-') {
        s.drop_first()
    } else {
        s
    }
}

/// Parsing an unsigned 32-bit decimal token: an optional `+`, then one or
/// more digits, denoting a value in range - anything else fails.
pub open spec fn spec_parse_u32(s: Seq<char>) -> Option<u32> {
    let ds = if s.len() > 0 && s[0] == '+' {
        s.drop_first()
    } else {
        s
    };
    if ds.len() == 0 || !digits_only(ds) || digits_val(ds) > u32::MAX {
        None
    } else {
        Some(digits_val(ds) as u32)
    }
}

/// Parsing a signed 32-bit decimal token: an optional sign, then one or
/// more digits, denoting a value in range - anything else fails.
pub open spec fn spec_parse_i32(s: Seq<char>) -> Option<i32> {
    if s.len() > 0 && s[0] == '-' {
        let ds = s.drop_first();
        if ds.len() == 0 || !digits_only(ds) || digits_val(ds) > 0x8000_0000 {
            None
        } else {
            Some((0 - digits_val(ds)) as i32)
        }
    } else {
        let ds = if s.len() > 0 && s[0] == '+' {
            s.drop_first()
        } else {
            s
        };
        if ds.len() == 0 || !digits_only(ds) || digits_val(ds) > i32::MAX {
            None
        } else {
            Some(digits_val(ds) as i32)
        }
    }
}

/// Parsing a bool token: exactly `true` or `false`.
pub open spec fn spec_parse_bool(s: Seq<char>) -> Option<bool> {
    if s == "true"@ {
        Some(true)
    } else if s == "false"@ {
        Some(false)
    } else {
        None
    }
}

/// A longer digit run never denotes a smaller number.
proof fn lemma_digits_val_take_le(s: Seq<char>, i: int)
    requires
        0 <= i <= s.len(),
    ensures
        digits_val(s.take(i)) <= digits_val(s),
    decreases s.len() - i,
{
    if i < s.len() {
        lemma_digits_val_take_le(s, i + 1);
        assert(s.take(i + 1).drop_last() =~= s.take(i));
        assert(digits_val(s.take(i + 1)) == digits_val(s.take(i)) * 10 + digit_val(
            s.take(i + 1).last(),
        ));
    } else {
        assert(s.take(i) =~= s);
    }
}

/// Scans the digits of `s` from position `start` to the end.  `Some` is
/// returned exactly when there is at least one character, all characters
/// are digits, and the denoted value fits in a `u32`.
fn parse_digits(s: &str, start: usize, n: usize) -> (out: Option<u32>)
    requires
        start <= n,
        n == s@.len(),
    ensures
        match out {
            Some(v) => {
                &&& s@.skip(start as int).len() > 0
                &&& digits_only(s@.skip(start as int))
                &&& digits_val(s@.skip(start as int)) == v
            },
            None => s@.skip(start as int).len() == 0 || !digits_only(s@.skip(start as int))
                || digits_val(s@.skip(start as int)) > u32::MAX,
        },
{
    let ghost ds = s@.skip(start as int);
    if start == n {
        proof {
            assert(ds.len() == 0);
        }
        return None;
    }
    let mut acc: u32 = 0;
    let mut i: usize = start;
    while i < n
        invariant
            start <= i <= n,
            n == s@.len(),
            ds == s@.skip(start as int),
            digits_only(ds.take(i - start)),
            acc == digits_val(ds.take(i - start)),
        decreases n - i,
    {
        let c = s.get_char(i);
        let d: u32 = if c == '0' {
            0
        } else if c == '1' {
            1
        } else if c == '2' {
            2
        } else if c == '3' {
            3
        } else if c == '4' {
            4
        } else if c == '5' {
            5
        } else if c == '6' {
            6
        } else if c == '7' {
            7
        } else if c == '8' {
            8
        } else if c == '9' {
            9
        } else {
            proof {
                assert(ds[i - start] == c);
                assert(!is_digit(c));
            }
            return None;
        };
        proof {
            assert(ds[i - start] == c);
            assert(is_digit(c) && digit_val(c) == d);
        }
        let step = match acc.checked_mul(10) {
            Some(m) => m.checked_add(d),
            None => None,
        };
        match step {
            Some(next) => {
                proof {
                    assert(ds.take(i - start + 1).drop_last() =~= ds.take(i - start));
                    assert(ds.take(i - start + 1).last() == c);
                }
                acc = next;
            },
            None => {
                proof {
                    assert(ds.take(i - start + 1).drop_last() =~= ds.take(i - start));
                    assert(ds.take(i - start + 1).last() == c);
                    assert(digits_val(ds.take(i - start + 1)) > u32::MAX);
                    lemma_digits_val_take_le(ds, i - start + 1);
                }
                return None;
            },
        }
        i = i + 1;
    }
    proof {
        assert(ds.take(n - start) =~= ds);
    }
    Some(acc)
}

/// Parses an unsigned 32-bit decimal token.
pub fn parse_u32(s: &str) -> (out: Option<u32>)
    ensures
        out == spec_parse_u32(s@),
{
    let n = s.unicode_len();
    if n > 0 && s.get_char(0) == '+' {
        proof {
            assert(s@.skip(1) =~= s@.drop_first());
        }
        parse_digits(s, 1, n)
    } else {
        proof {
            assert(s@.skip(0) =~= s@);
        }
        parse_digits(s, 0, n)
    }
}

/// Parses a signed 32-bit decimal token.
pub fn parse_i32(s: &str) -> (out: Option<i32>)
    ensures
        out == spec_parse_i32(s@),
{
    let n = s.unicode_len();
    if n > 0 && s.get_char(0) == '-' {
        proof {
            assert(s@.skip(1) =~= s@.drop_first());
        }
        match parse_digits(s, 1, n) {
            Some(v) => {
                if v <= 0x8000_0000 {
                    let out = if v == 0x8000_0000 {
                        i32::MIN
                    } else {
                        -(v as i32)
                    };
                    proof {
                        assert(out as int == 0 - v as int);
                    }
                    Some(out)
                } else {
                    None
                }
            },
            None => None,
        }
    } else if n > 0 && s.get_char(0) == '+' {
        proof {
            assert(s@.skip(1) =~= s@.drop_first());
        }
        match parse_digits(s, 1, n) {
            Some(v) => {
                if v <= i32::MAX as u32 {
                    Some(v as i32)
                } else {
                    None
                }
            },
            None => None,
        }
    } else {
        proof {
            assert(s@.skip(0) =~= s@);
        }
        match parse_digits(s, 0, n) {
            Some(v) => {
                if v <= i32::MAX as u32 {
                    Some(v as i32)
                } else {
                    None
                }
            },
            None => None,
        }
    }
}

/// Parses a bool token.
pub fn parse_bool(s: &str) -> (out: Option<bool>)
    ensures
        out == spec_parse_bool(s@),
{
    proof {
        reveal_strlit("true");
        reveal_strlit("false");
    }
    let n = s.unicode_len();
    if n == 4 && s.get_char(0) == 't' && s.get_char(1) == 'r' && s.get_char(2) == 'u'
        && s.get_char(3) == 'e' {
        proof {
            assert(s@ =~= "true"@);
        }
        Some(true)
    } else if n == 5 && s.get_char(0) == 'f' && s.get_char(1) == 'a' && s.get_char(2) == 'l'
        && s.get_char(3) == 's' && s.get_char(4) == 'e' {
        proof {
            assert(s@ =~= "false"@);
        }
        Some(false)
    } else {
        proof {
            if s@ == "true"@ {
                assert(s@.len() == 4);
                assert(s@[0] == 't' && s@[1] == 'r' && s@[2] == 'u' && s@[3] == 'e');
            }
            if s@ == "false"@ {
                assert(s@.len() == 5);
            }
        }
        None
    }
}

/// Whether a character counts as trimmable whitespace.
pub open spec fn is_ws(c: char) -> bool {
    c == ' ' || c == '\t' || c == '\r' || c == '\n'
}

/// How many whitespace characters lead the sequence.
pub open spec fn lead_ws(s: Seq<char>) -> int
    decreases s.len(),
{
    if s.len() == 0 || !is_ws(s[0]) {
        0
    } else {
        1 + lead_ws(s.drop_first())
    }
}

/// How many whitespace characters trail the sequence.
pub open spec fn trail_ws(s: Seq<char>) -> int
    decreases s.len(),
{
    if s.len() == 0 || !is_ws(s.last()) {
        0
    } else {
        1 + trail_ws(s.drop_last())
    }
}

/// The sequence with leading and trailing whitespace removed.
pub open spec fn spec_trim(s: Seq<char>) -> Seq<char> {
    if lead_ws(s) == s.len() {
        Seq::<char>::empty()
    } else {
        s.subrange(lead_ws(s), s.len() - trail_ws(s))
    }
}

/// The leading-whitespace count is the position of the first
/// non-whitespace character.
proof fn lemma_lead_ws(s: Seq<char>, a: int)
    requires
        0 <= a <= s.len(),
        forall|k: int| 0 <= k < a ==> is_ws(#[trigger] s[k]),
        a < s.len() ==> !is_ws(s[a]),
    ensures
        lead_ws(s) == a,
    decreases a,
{
    if a == 0 {
    } else {
        assert(is_ws(s[0]));
        lemma_lead_ws(s.drop_first(), a - 1);
    }
}

/// The trailing-whitespace count is the distance from the last
/// non-whitespace character to the end.
proof fn lemma_trail_ws(s: Seq<char>, b: int)
    requires
        0 <= b <= s.len(),
        forall|k: int| b <= k < s.len() ==> is_ws(#[trigger] s[k]),
        b > 0 ==> !is_ws(s[b - 1]),
    ensures
        trail_ws(s) == s.len() - b,
    decreases s.len() - b,
{
    if b == s.len() {
    } else {
        assert(is_ws(s.last()));
        lemma_trail_ws(s.drop_last(), b);
    }
}

/// Removes leading and trailing whitespace.
pub fn trim_str(s: &str) -> (out: String)
    ensures
        out@ == spec_trim(s@),
{
    let n = s.unicode_len();
    let mut a: usize = 0;
    let mut found = false;
    while !found && a < n
        invariant
            0 <= a <= n,
            n == s@.len(),
            forall|k: int| 0 <= k < a ==> is_ws(#[trigger] s@[k]),
            found ==> a < n && !is_ws(s@[a as int]),
        decreases n - a, (if found { 0int } else { 1int }),
    {
        let c = s.get_char(a);
        if c == ' ' || c == '\t' || c == '\r' || c == '\n' {
            a = a + 1;
        } else {
            found = true;
        }
    }
    if a == n && !found {
        proof {
            lemma_lead_ws(s@, n as int);
        }
        return String::new();
    }
    proof {
        lemma_lead_ws(s@, a as int);
    }
    let mut b: usize = n;
    let mut found_end = false;
    while !found_end && b > a
        invariant
            a <= b <= n,
            n == s@.len(),
            a < n,
            !is_ws(s@[a as int]),
            forall|k: int| b <= k < n ==> is_ws(#[trigger] s@[k]),
            found_end ==> b > a && !is_ws(s@[b - 1]),
        decreases b, (if found_end { 0int } else { 1int }),
    {
        let c = s.get_char(b - 1);
        if c == ' ' || c == '\t' || c == '\r' || c == '\n' {
            b = b - 1;
        } else {
            found_end = true;
        }
    }
    proof {
        assert(b > a);
        assert(!is_ws(s@[b - 1]));
        lemma_trail_ws(s@, b as int);
    }
    let piece = s.substring_char(a, b);
    let out = piece.to_owned();
    proof {
        assert(out@ =~= spec_trim(s@));
    }
    out
}

/// The model of a list of strings.
pub open spec fn lines_rep(v: Seq<String>) -> Seq<Seq<char>> {
    Seq::new(v.len(), |i: int| v[i]@)
}

/// The position of the first comma at or after `i`, or the length when
/// there is none.
pub open spec fn first_comma_from(s: Seq<char>, i: int) -> int
    decreases s.len() - i,
{
    if i < 0 || i >= s.len() {
        s.len() as int
    } else if s[i] == ',' {
        i
    } else {
        first_comma_from(s, i + 1)
    }
}

/// Splitting on commas: the (possibly empty) pieces between the commas,
/// in order.  A sequence with no comma splits into itself alone.
pub open spec fn spec_split_commas(s: Seq<char>) -> Seq<Seq<char>>
    decreases s.len(),
{
    let i = first_comma_from(s, 0);
    if i < 0 || i >= s.len() {
        seq![s]
    } else {
        seq![s.take(i)] + spec_split_commas(s.skip(i + 1))
    }
}

/// The first-comma position is the position of the first comma.
proof fn lemma_first_comma(s: Seq<char>, i: int, a: int)
    requires
        0 <= i <= a <= s.len(),
        forall|k: int| i <= k < a ==> (#[trigger] s[k]) != ',',
        a < s.len() ==> s[a] == ',',
    ensures
        first_comma_from(s, i) == if a < s.len() {
            a
        } else {
            s.len() as int
        },
    decreases a - i,
{
    if i < a {
        lemma_first_comma(s, i + 1, a);
    }
}

/// Splits a string on commas.
pub fn split_commas(s: &str) -> (out: Vec<String>)
    ensures
        lines_rep(out@) == spec_split_commas(s@),
{
    let n = s.unicode_len();
    let mut out: Vec<String> = Vec::new();
    let mut pos: usize = 0;
    let mut done = false;
    proof {
        assert(s@.skip(0) =~= s@);
        assert(lines_rep(Seq::<String>::empty()) =~= Seq::<Seq<char>>::empty());
    }
    while !done
        invariant
            0 <= pos <= n,
            n == s@.len(),
            !done ==> spec_split_commas(s@) =~= lines_rep(out@) + spec_split_commas(
                s@.skip(pos as int),
            ),
            done ==> lines_rep(out@) =~= spec_split_commas(s@),
        decreases n - pos, (if done { 0int } else { 1int }),
    {
        let mut j: usize = pos;
        let mut hit = false;
        while !hit && j < n
            invariant
                pos <= j <= n,
                n == s@.len(),
                forall|k: int| pos <= k < j ==> (#[trigger] s@[k]) != ',',
                hit ==> j < n && s@[j as int] == ',',
            decreases n - j, (if hit { 0int } else { 1int }),
        {
            if s.get_char(j) == ',' {
                hit = true;
            } else {
                j = j + 1;
            }
        }
        proof {
            lemma_first_comma(s@, pos as int, j as int);
            assert(first_comma_from(s@.skip(pos as int), 0) == first_comma_from(s@, pos as int)
                - pos) by {
                lemma_first_comma(
                    s@.skip(pos as int),
                    0,
                    j - pos,
                );
            }
        }
        let piece = s.substring_char(pos, j).to_owned();
        let ghost before = out@;
        out.push(piece);
        proof {
            let rest = s@.skip(pos as int);
            assert(rest.take(j - pos) =~= s@.subrange(pos as int, j as int));
            assert(lines_rep(out@) =~= lines_rep(before) + seq![s@.subrange(
                pos as int,
                j as int,
            )]);
        }
        if hit {
            proof {
                assert(s@.skip(pos as int).skip(j - pos + 1) =~= s@.skip(j + 1));
            }
            pos = j + 1;
        } else {
            proof {
                assert(s@.skip(pos as int).take(j - pos) =~= s@.skip(pos as int));
            }
            done = true;
        }
    }
    out
}

} // verus!
