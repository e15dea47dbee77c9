//! Text decoding and the small grammar of kernel counter files: UTF-8
//! decoding, lines, whitespace-separated fields and unsigned decimals.

use vstd::prelude::*;
use vstd::utf8::{decode_utf8, valid_utf8};

verus! {

/// The message of a byte string that is not UTF-8, as the standard library
/// words it (it names the offset of the first bad sequence).
pub uninterp spec fn utf8_error_text(bytes: Seq<u8>) -> Seq<char>;

/// Decodes UTF-8 bytes into characters.
///
/// Wraps `std::str::from_utf8`: the contract claims that it accepts exactly
/// the well-formed UTF-8 byte strings, that the characters it yields are
/// their decoding, and that its error message depends on the bytes alone.
#[verifier::external_body]
pub(crate) fn decode_text(bytes: &[u8]) -> (r: Result<Vec<char>, String>)
    ensures
        r matches Ok(cs) ==> valid_utf8(bytes@) && cs@ == decode_utf8(bytes@),
        r matches Err(m) ==> !valid_utf8(bytes@) && m@ == utf8_error_text(bytes@),
{
    match std::str::from_utf8(bytes) {
        Ok(text) => Ok(text.chars().collect()),
        Err(error) => Err(error.to_string()),
    }
}

/// The characters that Rust's `char::is_whitespace` accepts (Unicode
/// White_Space).
pub open spec fn is_white(c: char) -> bool {
    ||| ('\u{9}' <= c && c <= '\u{d}')
    ||| c == ' '
    ||| c == '\u{85}'
    ||| c == '\u{a0}'
    ||| c == '\u{1680}'
    ||| ('\u{2000}' <= c && c <= '\u{200a}')
    ||| c == '\u{2028}'
    ||| c == '\u{2029}'
    ||| c == '\u{202f}'
    ||| c == '\u{205f}'
    ||| c == '\u{3000}'
}

pub fn white(c: char) -> (w: bool)
    ensures
        w == is_white(c),
{
    ('\u{9}' <= c && c <= '\u{d}') || c == ' ' || c == '\u{85}' || c == '\u{a0}' || c
        == '\u{1680}' || ('\u{2000}' <= c && c <= '\u{200a}') || c == '\u{2028}' || c
        == '\u{2029}' || c == '\u{202f}' || c == '\u{205f}' || c == '\u{3000}'
}

/// The maximal runs of non-whitespace characters, in order.
pub open spec fn split_ws(s: Seq<char>) -> Seq<Seq<char>>
    decreases s.len(),
{
    if s.len() == 0 {
        Seq::empty()
    } else {
        let prev = split_ws(s.drop_last());
        let c = s.last();
        if is_white(c) {
            prev
        } else if s.len() >= 2 && !is_white(s[s.len() - 2]) && prev.len() > 0 {
            prev.update(prev.len() - 1, prev.last().push(c))
        } else {
            prev.push(seq![c])
        }
    }
}

proof fn lemma_split_ws_extends(s: Seq<char>)
    requires
        s.len() > 0,
        !is_white(s.last()),
    ensures
        split_ws(s).len() > 0,
    decreases s.len(),
{
    if s.len() >= 2 && !is_white(s[s.len() - 2]) {
        lemma_split_ws_extends(s.drop_last());
    }
}

/// Splits characters into whitespace-separated fields.
pub fn split_whitespace(t: &[char]) -> (fields: Vec<Vec<char>>)
    ensures
        fields@.map_values(|f: Vec<char>| f@) == split_ws(t@),
{
    let mut fields: Vec<Vec<char>> = Vec::new();
    let n = t.len();
    for i in 0..n
        invariant
            n == t@.len(),
            fields@.map_values(|f: Vec<char>| f@) == split_ws(t@.take(i as int)),
    {
        let c = t[i];
        let ghost before = fields@.map_values(|f: Vec<char>| f@);
        proof {
            assert(t@.take(i + 1).drop_last() =~= t@.take(i as int));
            assert(t@.take(i + 1).last() == c);
        }
        if !white(c) {
            if i >= 1 && !white(t[i - 1]) && fields.len() > 0 {
                let last = fields.len() - 1;
                let mut field = fields.remove(last);
                field.push(c);
                fields.push(field);
                proof {
                    assert(t@.take(i + 1)[i - 1] == t@[i - 1]);
                    assert(fields@.map_values(|f: Vec<char>| f@) =~= before.update(
                        before.len() - 1,
                        before.last().push(c),
                    ));
                }
            } else {
                let mut field = Vec::new();
                field.push(c);
                fields.push(field);
                proof {
                    if i >= 1 {
                        assert(t@.take(i + 1)[i - 1] == t@[i - 1]);
                    }
                    assert(fields@.map_values(|f: Vec<char>| f@) =~= before.push(seq![c]));
                }
            }
        }
        assert(fields@.map_values(|f: Vec<char>| f@) == split_ws(t@.take(i + 1)));
    }
    assert(t@.take(n as int) =~= t@);
    fields
}

/// The first line of a text, as `str::lines` yields it: text up to the
/// first `\n`, without a `\r` just before it; an empty text has none.
pub open spec fn first_line_spec(t: Seq<char>) -> Option<Seq<char>> {
    if t.len() == 0 {
        None
    } else if exists|k: int| 0 <= k < t.len() && t[k] == '\n' {
        let k = choose|k: int| 0 <= k < t.len() && t[k] == '\n' && forall|j: int| 0 <= j < k ==> t[j] != '\n';
        let line = t.take(k);
        if line.len() > 0 && line.last() == '\r' {
            Some(line.drop_last())
        } else {
            Some(line)
        }
    } else {
        Some(t)
    }
}

/// The first line of a text.
pub fn first_line(t: &[char]) -> (line: Option<Vec<char>>)
    ensures
        line matches Some(l) ==> first_line_spec(t@) == Some(l@),
        line is None ==> first_line_spec(t@) is None,
{
    let n = t.len();
    if n == 0 {
        return None;
    }
    let mut line: Vec<char> = Vec::new();
    let mut i: usize = 0;
    while i < n
        invariant
            n == t@.len(),
            i <= n,
            line@ == t@.take(i as int),
            forall|j: int| 0 <= j < i ==> t@[j] != '\n',
        decreases n - i,
    {
        if t[i] == '\n' {
            proof {
                let k = choose|k: int| 0 <= k < t@.len() && t@[k] == '\n' && forall|j: int| 0 <= j < k ==> t@[j] != '\n';
                assert(k == i) by {
                    if k < i {
                        assert(t@[k] != '\n');
                    }
                    if k > i {
                        assert(t@[i as int] != '\n');
                    }
                }
            }
            if line.len() > 0 && line[line.len() - 1] == '\r' {
                line.pop();
                assert(line@ =~= t@.take(i as int).drop_last());
            }
            return Some(line);
        }
        line.push(t[i]);
        i = i + 1;
        assert(line@ =~= t@.take(i as int));
    }
    assert(line@ =~= t@);
    Some(line)
}

/// The characters without leading and trailing whitespace.
pub open spec fn trim_spec(t: Seq<char>) -> Seq<char>
    decreases t.len(),
{
    if t.len() == 0 {
        t
    } else if is_white(t[0]) {
        trim_spec(t.drop_first())
    } else if is_white(t.last()) {
        trim_spec(t.drop_last())
    } else {
        t
    }
}

/// Strips leading and trailing whitespace.
pub fn trim(t: &[char]) -> (r: Vec<char>)
    ensures
        r@ == trim_spec(t@),
{
    let n = t.len();
    let mut lo: usize = 0;
    let mut hi: usize = n;
    assert(t@.subrange(0, n as int) =~= t@);
    while lo < hi && (white(t[lo]) || white(t[hi - 1]))
        invariant
            n == t@.len(),
            lo <= hi <= n,
            trim_spec(t@) == trim_spec(t@.subrange(lo as int, hi as int)),
        decreases hi - lo,
    {
        let ghost s = t@.subrange(lo as int, hi as int);
        if white(t[lo]) {
            assert(s.drop_first() =~= t@.subrange(lo + 1, hi as int));
            lo = lo + 1;
        } else {
            assert(s.drop_last() =~= t@.subrange(lo as int, hi - 1));
            hi = hi - 1;
        }
    }
    let mut r: Vec<char> = Vec::new();
    for i in lo..hi
        invariant
            n == t@.len(),
            lo <= hi <= n,
            r@ == t@.subrange(lo as int, i as int),
    {
        r.push(t[i]);
        assert(r@ =~= t@.subrange(lo as int, i + 1));
    }
    proof {
        let s = t@.subrange(lo as int, hi as int);
        if s.len() > 0 {
            assert(s[0] == t@[lo as int]);
            assert(s.last() == t@[hi - 1]);
        }
    }
    r
}

/// Why a decimal could not be read, as the standard library distinguishes.
#[derive(Debug, Clone, Copy, PartialEq, Eq, Structural)]
pub enum IntError {
    Empty,
    InvalidDigit,
    PosOverflow,
}

pub open spec fn is_digit(c: char) -> bool {
    '0' <= c && c <= '9'
}

pub open spec fn digit_value(c: char) -> nat {
    (c as nat - '0' as nat) as nat
}

/// Reads decimal digits after an accumulated value, left to right, failing
/// at the first non-digit or at the first digit that overflows.
pub open spec fn accumulate(d: Seq<char>, acc: nat) -> Result<u64, IntError>
    decreases d.len(),
{
    if d.len() == 0 {
        Ok(acc as u64)
    } else if !is_digit(d[0]) {
        Err(IntError::InvalidDigit)
    } else if acc * 10 + digit_value(d[0]) > u64::MAX {
        Err(IntError::PosOverflow)
    } else {
        accumulate(d.drop_first(), acc * 10 + digit_value(d[0]))
    }
}

/// An unsigned 64-bit decimal as `u64::from_str` reads it: an optional `+`,
/// then at least one digit.
pub open spec fn parse_u64_spec(s: Seq<char>) -> Result<u64, IntError> {
    if s.len() == 0 {
        Err(IntError::Empty)
    } else if s[0] == '+' && s.len() == 1 {
        Err(IntError::InvalidDigit)
    } else if s[0] == '+' {
        accumulate(s.drop_first(), 0)
    } else {
        accumulate(s, 0)
    }
}

/// Reads an unsigned 64-bit decimal.
pub fn parse_u64(s: &[char]) -> (r: Result<u64, IntError>)
    ensures
        r == parse_u64_spec(s@),
{
    let n = s.len();
    if n == 0 {
        return Err(IntError::Empty);
    }
    let mut i: usize = 0;
    if s[0] == '+' {
        if n == 1 {
            return Err(IntError::InvalidDigit);
        }
        i = 1;
    }
    let ghost digits = if s@[0] == '+' { s@.drop_first() } else { s@ };
    assert(digits =~= s@.subrange(i as int, n as int));
    let mut acc: u64 = 0;
    while i < n
        invariant
            n == s@.len(),
            1 <= n,
            i <= n,
            parse_u64_spec(s@) == accumulate(s@.subrange(i as int, n as int), acc as nat),
        decreases n - i,
    {
        let c = s[i];
        let ghost rest = s@.subrange(i as int, n as int);
        assert(rest[0] == c);
        if !('0' <= c && c <= '9') {
            return Err(IntError::InvalidDigit);
        }
        let d: u64 = (c as u32 - '0' as u32) as u64;
        if acc > (u64::MAX - d) / 10 {
            assert(acc * 10 + d > u64::MAX) by (nonlinear_arith)
                requires
                    acc > (u64::MAX - d) / 10,
                    d <= 9,
            ;
            return Err(IntError::PosOverflow);
        }
        assert(acc * 10 + d <= u64::MAX) by (nonlinear_arith)
            requires
                acc <= (u64::MAX - d) / 10,
                d <= 9,
        ;
        acc = acc * 10 + d;
        i = i + 1;
        assert(rest.drop_first() =~= s@.subrange(i as int, n as int));
    }
    assert(s@.subrange(n as int, n as int) =~= Seq::<char>::empty());
    Ok(acc)
}

/// The standard library's description of a decimal that could not be read.
pub open spec fn int_error_text(e: IntError) -> Seq<char> {
    match e {
        IntError::Empty => "cannot parse integer from empty string"@,
        IntError::InvalidDigit => "invalid digit found in string"@,
        IntError::PosOverflow => "number too large to fit in target type"@,
    }
}

pub fn int_error_message(e: IntError) -> (s: String)
    ensures
        s@ == int_error_text(e),
{
    match e {
        IntError::Empty => "cannot parse integer from empty string".to_owned(),
        IntError::InvalidDigit => "invalid digit found in string".to_owned(),
        IntError::PosOverflow => "number too large to fit in target type".to_owned(),
    }
}


/// A kernel counter file: UTF-8 text holding one unsigned decimal between
/// optional whitespace.
pub open spec fn counter_value(bytes: Seq<u8>) -> Option<u64> {
    if valid_utf8(bytes) {
        match parse_u64_spec(trim_spec(decode_utf8(bytes))) {
            Ok(v) => Some(v),
            Err(_) => None,
        }
    } else {
        None
    }
}

/// Reads a kernel counter file.
pub fn read_counter(bytes: &[u8]) -> (r: Option<u64>)
    ensures
        r == counter_value(bytes@),
{
    match decode_text(bytes) {
        Ok(chars) => {
            let t = trim(chars.as_slice());
            match parse_u64(t.as_slice()) {
                Ok(v) => Some(v),
                Err(_) => None,
            }
        },
        Err(_) => None,
    }
}


/// Reading a text line by line: the finished lines and the line so far.
pub open spec fn lines_scan(t: Seq<char>) -> (Seq<Seq<char>>, Seq<char>)
    decreases t.len(),
{
    if t.len() == 0 {
        (Seq::empty(), Seq::empty())
    } else {
        let (done, cur) = lines_scan(t.drop_last());
        if t.last() == '\n' {
            let line = if cur.len() > 0 && cur.last() == '\r' {
                cur.drop_last()
            } else {
                cur
            };
            (done.push(line), Seq::empty())
        } else {
            (done, cur.push(t.last()))
        }
    }
}

/// The lines of a text as `str::lines` yields them: split at `\n`, a `\r`
/// before it dropped, and no empty line after a final `\n`.
pub open spec fn lines_of(t: Seq<char>) -> Seq<Seq<char>> {
    let (done, cur) = lines_scan(t);
    if cur.len() > 0 {
        done.push(cur)
    } else {
        done
    }
}

/// Splits a text into lines.
pub fn lines(t: &[char]) -> (r: Vec<Vec<char>>)
    ensures
        r@.map_values(|l: Vec<char>| l@) == lines_of(t@),
{
    let n = t.len();
    let mut done: Vec<Vec<char>> = Vec::new();
    let mut cur: Vec<char> = Vec::new();
    for i in 0..n
        invariant
            n == t@.len(),
            (done@.map_values(|l: Vec<char>| l@), cur@) == lines_scan(t@.take(i as int)),
    {
        proof {
            assert(t@.take((i + 1) as int).drop_last() =~= t@.take(i as int));
        }
        let ghost before = done@.map_values(|l: Vec<char>| l@);
        let c = t[i];
        if c == '\n' {
            let k = cur.len();
            if k > 0 && cur[k - 1] == '\r' {
                cur.pop();
            }
            let line = cur;
            cur = Vec::new();
            let ghost lv = line@;
            done.push(line);
            proof {
                assert(done@.map_values(|l: Vec<char>| l@) =~= before.push(lv));
                assert(cur@ =~= Seq::<char>::empty());
            }
        } else {
            cur.push(c);
        }
    }
    proof {
        assert(t@.take(n as int) =~= t@);
    }
    if cur.len() > 0 {
        let ghost before = done@.map_values(|l: Vec<char>| l@);
        let ghost lv = cur@;
        done.push(cur);
        assert(done@.map_values(|l: Vec<char>| l@) =~= before.push(lv));
    }
    done
}

} // verus!
