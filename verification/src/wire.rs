//! Text primitives for the line-delimited JSON wire format: trimming,
//! string escaping, decimal numbers, and the flat lists the messages
//! carry. Each primitive exists twice: a specification function over
//! character sequences, and an executable form proved against it. The
//! parsers consume a prefix and hand back the rest, so the message
//! codec can chain them.

use crate::text::push_char;
use vstd::prelude::*;

verus! {

/// The whitespace characters the wire format strips around a line.
pub open spec fn is_ws(c: char) -> bool {
    c == ' ' || c == '\t' || c == '\r' || c == '\n'
}

/// Leading whitespace removed.
pub open spec fn trim_start(s: Seq<char>) -> Seq<char>
    decreases s.len(),
{
    if s.len() > 0 && is_ws(s[0]) {
        trim_start(s.drop_first())
    } else {
        s
    }
}

/// Trailing whitespace removed.
pub open spec fn trim_end(s: Seq<char>) -> Seq<char>
    decreases s.len(),
{
    if s.len() > 0 && is_ws(s.last()) {
        trim_end(s.drop_last())
    } else {
        s
    }
}

/// Surrounding whitespace removed.
pub open spec fn spec_trim(s: Seq<char>) -> Seq<char> {
    trim_end(trim_start(s))
}

/// The lowercase hex digit character for a value 0 through 15.
pub open spec fn hex_digit_char(d: int) -> char {
    if d == 0 {
        '0'
    } else if d == 1 {
        '1'
    } else if d == 2 {
        '2'
    } else if d == 3 {
        '3'
    } else if d == 4 {
        '4'
    } else if d == 5 {
        '5'
    } else if d == 6 {
        '6'
    } else if d == 7 {
        '7'
    } else if d == 8 {
        '8'
    } else if d == 9 {
        '9'
    } else if d == 10 {
        'a'
    } else if d == 11 {
        'b'
    } else if d == 12 {
        'c'
    } else if d == 13 {
        'd'
    } else if d == 14 {
        'e'
    } else {
        'f'
    }
}

/// Whether a character is a lowercase hex digit.
pub open spec fn is_hex_digit(c: char) -> bool {
    is_digit(c) || c == 'a' || c == 'b' || c == 'c' || c == 'd' || c == 'e' || c == 'f'
}

/// The value of a lowercase hex digit character.
pub open spec fn hex_digit_val(c: char) -> int {
    if c == 'a' {
        10
    } else if c == 'b' {
        11
    } else if c == 'c' {
        12
    } else if c == 'd' {
        13
    } else if c == 'e' {
        14
    } else if c == 'f' {
        15
    } else {
        digit_val(c)
    }
}

/// The wire form of one character inside a quoted string: quote and
/// backslash are escaped, newline, carriage return and tab by their
/// letter codes, every other control character below 0x20 as
/// `\u00XX`, and everything else stands as itself.
pub open spec fn escape_char(c: char) -> Seq<char> {
    if c == '"' {
        seq!['\\', '"']
    } else if c == '\\' {
        seq!['\\', '\\']
    } else if c == '\n' {
        seq!['\\', 'n']
    } else if c == '\r' {
        seq!['\\', 'r']
    } else if c == '\t' {
        seq!['\\', 't']
    } else if (c as u32) < 0x20 {
        seq![
            '\\',
            'u',
            '0',
            '0',
            hex_digit_char((c as u32 / 16) as int),
            hex_digit_char((c as u32 % 16) as int),
        ]
    } else {
        seq![c]
    }
}

/// The wire form of a string's content.
pub open spec fn escape(s: Seq<char>) -> Seq<char>
    decreases s.len(),
{
    if s.len() == 0 {
        Seq::empty()
    } else {
        escape_char(s[0]) + escape(s.drop_first())
    }
}

/// A quoted string token.
pub open spec fn quote(s: Seq<char>) -> Seq<char> {
    seq!['"'] + escape(s) + seq!['"']
}

/// The character a one-letter escape code stands for, if it is one of
/// the five codes the format uses.
pub open spec fn unescape_char(c: char) -> Option<char> {
    if c == '"' {
        Some('"')
    } else if c == '\\' {
        Some('\\')
    } else if c == 'n' {
        Some('\n')
    } else if c == 'r' {
        Some('\r')
    } else if c == 't' {
        Some('\t')
    } else {
        None
    }
}

/// The decimal digit character for a value 0 through 9.
pub open spec fn digit_char(d: int) -> char {
    if d == 0 {
        '0'
    } else if d == 1 {
        '1'
    } else if d == 2 {
        '2'
    } else if d == 3 {
        '3'
    } else if d == 4 {
        '4'
    } else if d == 5 {
        '5'
    } else if d == 6 {
        '6'
    } else if d == 7 {
        '7'
    } else if d == 8 {
        '8'
    } else {
        '9'
    }
}

/// The decimal digits of a number, most significant first.
pub open spec fn dec_digits(n: nat) -> Seq<char>
    decreases n,
{
    if n < 10 {
        seq![digit_char(n as int)]
    } else {
        dec_digits(n / 10).push(digit_char((n % 10) as int))
    }
}

/// Whether a character is a decimal digit.
pub open spec fn is_digit(c: char) -> bool {
    c == '0' || c == '1' || c == '2' || c == '3' || c == '4' || c == '5' || c == '6' || c == '7'
        || c == '8' || c == '9'
}

/// The value of a decimal digit character.
pub open spec fn digit_val(c: char) -> int {
    if c == '0' {
        0
    } else if c == '1' {
        1
    } else if c == '2' {
        2
    } else if c == '3' {
        3
    } else if c == '4' {
        4
    } else if c == '5' {
        5
    } else if c == '6' {
        6
    } else if c == '7' {
        7
    } else if c == '8' {
        8
    } else {
        9
    }
}

/// The number of leading digit characters.
pub open spec fn digit_prefix_len(s: Seq<char>) -> int
    decreases s.len(),
{
    if s.len() > 0 && is_digit(s[0]) {
        1 + digit_prefix_len(s.drop_first())
    } else {
        0
    }
}

/// The value of a sequence of digit characters.
pub open spec fn digits_val(ds: Seq<char>) -> int
    decreases ds.len(),
{
    if ds.len() == 0 {
        0
    } else {
        digits_val(ds.drop_last()) * 10 + digit_val(ds.last())
    }
}

/// Strip an expected literal from the front; `None` when the input
/// does not start with it.
pub open spec fn parse_lit(s: Seq<char>, lit: Seq<char>) -> Option<Seq<char>> {
    if lit.len() <= s.len() && s.take(lit.len() as int) == lit {
        Some(s.skip(lit.len() as int))
    } else {
        None
    }
}

/// Parse a string body up to and including its closing quote,
/// resolving escapes; the opening quote is already consumed. Yields
/// the content and the rest after the closing quote.
pub open spec fn parse_string_body(s: Seq<char>) -> Option<(Seq<char>, Seq<char>)>
    decreases s.len(),
{
    if s.len() == 0 {
        None
    } else if s[0] == '"' {
        Some((Seq::empty(), s.drop_first()))
    } else if s[0] == '\\' {
        if s.len() >= 2 && s[1] == 'u' {
            if s.len() >= 6 && s[2] == '0' && s[3] == '0' && is_hex_digit(s[4]) && is_hex_digit(
                s[5],
            ) {
                let c = ((hex_digit_val(s[4]) * 16 + hex_digit_val(s[5])) as u8) as char;
                match parse_string_body(s.skip(6)) {
                    Some(p) => Some((seq![c] + p.0, p.1)),
                    None => None,
                }
            } else {
                None
            }
        } else if s.len() >= 2 {
            match unescape_char(s[1]) {
                Some(c) => match parse_string_body(s.skip(2)) {
                    Some(p) => Some((seq![c] + p.0, p.1)),
                    None => None,
                },
                None => None,
            }
        } else {
            None
        }
    } else {
        match parse_string_body(s.drop_first()) {
            Some(p) => Some((seq![s[0]] + p.0, p.1)),
            None => None,
        }
    }
}

/// Parse a quoted string token.
pub open spec fn parse_quoted(s: Seq<char>) -> Option<(Seq<char>, Seq<char>)> {
    if s.len() > 0 && s[0] == '"' {
        parse_string_body(s.drop_first())
    } else {
        None
    }
}

/// Parse a decimal number that fits in a byte: the maximal digit
/// prefix, rejected when empty or above 255.
pub open spec fn parse_u8(s: Seq<char>) -> Option<(u8, Seq<char>)> {
    let k = digit_prefix_len(s);
    if k == 0 {
        None
    } else if digits_val(s.take(k)) <= 255 {
        Some((digits_val(s.take(k)) as u8, s.skip(k)))
    } else {
        None
    }
}

/// Parse `true` or `false`.
pub open spec fn parse_bool(s: Seq<char>) -> Option<(bool, Seq<char>)> {
    match parse_lit(s, "true"@) {
        Some(r) => Some((true, r)),
        None => match parse_lit(s, "false"@) {
            Some(r) => Some((false, r)),
            None => None,
        },
    }
}

proof fn lemma_parse_string_body_shrinks(s: Seq<char>)
    ensures
        parse_string_body(s) matches Some(p) ==> p.1.len() < s.len(),
    decreases s.len(),
{
    if s.len() > 0 && s[0] != '"' {
        if s[0] == '\\' {
            if s.len() >= 6 {
                lemma_parse_string_body_shrinks(s.skip(6));
            }
            if s.len() >= 2 {
                lemma_parse_string_body_shrinks(s.skip(2));
            }
        } else {
            lemma_parse_string_body_shrinks(s.drop_first());
        }
    }
}

/// One or more quoted strings separated by commas, ending at a
/// closing bracket; the opening bracket is already consumed.
pub open spec fn parse_str_items(s: Seq<char>) -> Option<(Seq<Seq<char>>, Seq<char>)>
    decreases s.len(),
    via parse_str_items_decreases
{
    match parse_quoted(s) {
        None => None,
        Some(p) => {
            if p.1.len() > 0 && p.1[0] == ',' {
                match parse_str_items(p.1.drop_first()) {
                    Some(q) => Some((seq![p.0] + q.0, q.1)),
                    None => None,
                }
            } else if p.1.len() > 0 && p.1[0] == ']' {
                Some((seq![p.0], p.1.drop_first()))
            } else {
                None
            }
        },
    }
}

#[via_fn]
proof fn parse_str_items_decreases(s: Seq<char>) {
    if s.len() > 0 && s[0] == '"' {
        lemma_parse_string_body_shrinks(s.drop_first());
    }
}

/// A whole string list token.
pub open spec fn parse_str_list(s: Seq<char>) -> Option<(Seq<Seq<char>>, Seq<char>)> {
    if s.len() >= 1 && s[0] == '[' {
        if s.len() >= 2 && s[1] == ']' {
            Some((Seq::empty(), s.skip(2)))
        } else {
            parse_str_items(s.drop_first())
        }
    } else {
        None
    }
}

/// One or more byte numbers separated by commas, ending at a closing
/// bracket; the opening bracket is already consumed.
pub open spec fn parse_u8_items(s: Seq<char>) -> Option<(Seq<u8>, Seq<char>)>
    decreases s.len(),
    via parse_u8_items_decreases
{
    match parse_u8(s) {
        None => None,
        Some(p) => {
            if p.1.len() > 0 && p.1[0] == ',' {
                match parse_u8_items(p.1.drop_first()) {
                    Some(q) => Some((seq![p.0] + q.0, q.1)),
                    None => None,
                }
            } else if p.1.len() > 0 && p.1[0] == ']' {
                Some((seq![p.0], p.1.drop_first()))
            } else {
                None
            }
        },
    }
}

#[via_fn]
proof fn parse_u8_items_decreases(s: Seq<char>) {
    lemma_digit_prefix_len_bounds(s);
}

proof fn lemma_digit_prefix_len_bounds(s: Seq<char>)
    ensures
        0 <= digit_prefix_len(s) <= s.len(),
    decreases s.len(),
{
    if s.len() > 0 && is_digit(s[0]) {
        lemma_digit_prefix_len_bounds(s.drop_first());
    }
}

/// A whole number list token.
pub open spec fn parse_u8_list(s: Seq<char>) -> Option<(Seq<u8>, Seq<char>)> {
    if s.len() >= 1 && s[0] == '[' {
        if s.len() >= 2 && s[1] == ']' {
            Some((Seq::empty(), s.skip(2)))
        } else {
            parse_u8_items(s.drop_first())
        }
    } else {
        None
    }
}

/// The wire form of a list of strings.
pub open spec fn str_list(xs: Seq<Seq<char>>) -> Seq<char> {
    seq!['['] + str_list_body(xs) + seq![']']
}

/// The comma-joined quoted strings inside a list.
pub open spec fn str_list_body(xs: Seq<Seq<char>>) -> Seq<char>
    decreases xs.len(),
{
    if xs.len() == 0 {
        Seq::empty()
    } else if xs.len() == 1 {
        quote(xs[0])
    } else {
        str_list_body(xs.drop_last()) + seq![','] + quote(xs.last())
    }
}

/// The wire form of a list of bytes.
pub open spec fn u8_list(xs: Seq<u8>) -> Seq<char> {
    seq!['['] + u8_list_body(xs) + seq![']']
}

/// The comma-joined numbers inside a list.
pub open spec fn u8_list_body(xs: Seq<u8>) -> Seq<char>
    decreases xs.len(),
{
    if xs.len() == 0 {
        Seq::empty()
    } else if xs.len() == 1 {
        dec_digits(xs[0] as nat)
    } else {
        u8_list_body(xs.drop_last()) + seq![','] + dec_digits(xs.last() as nat)
    }
}

/// Whitespace stripped from both ends of a line, as a character
/// vector.
pub fn exec_trim(chars: &Vec<char>) -> (r: Vec<char>)
    ensures
        r@ == spec_trim(chars@),
{
    let len = chars.len();
    let mut lo: usize = 0;
    proof {
        assert(chars@.skip(0) =~= chars@);
    }
    while lo < len && (chars[lo] == ' ' || chars[lo] == '\t' || chars[lo] == '\r' || chars[lo]
        == '\n')
        invariant
            len == chars@.len(),
            lo <= len,
            trim_start(chars@) == trim_start(chars@.skip(lo as int)),
        decreases len - lo,
    {
        proof {
            assert(chars@.skip(lo as int)[0] == chars@[lo as int]);
            assert(chars@.skip(lo as int).drop_first() =~= chars@.skip(lo as int + 1));
        }
        lo = lo + 1;
    }
    proof {
        assert(trim_start(chars@) == chars@.skip(lo as int));
    }
    let mut hi: usize = len;
    proof {
        assert(chars@.skip(lo as int).take(len as int - lo as int) =~= chars@.skip(lo as int));
    }
    while hi > lo && (chars[hi - 1] == ' ' || chars[hi - 1] == '\t' || chars[hi - 1] == '\r'
        || chars[hi - 1] == '\n')
        invariant
            len == chars@.len(),
            lo <= hi <= len,
            trim_start(chars@) == chars@.skip(lo as int),
            trim_end(chars@.skip(lo as int)) == trim_end(
                chars@.skip(lo as int).take(hi as int - lo as int),
            ),
        decreases hi,
    {
        proof {
            let cur = chars@.skip(lo as int).take(hi as int - lo as int);
            assert(cur.last() == chars@[hi as int - 1]);
            assert(cur.drop_last() =~= chars@.skip(lo as int).take(hi as int - 1 - lo as int));
        }
        hi = hi - 1;
    }
    let mut out: Vec<char> = Vec::new();
    let mut i: usize = lo;
    while i < hi
        invariant
            len == chars@.len(),
            lo <= i <= hi <= len,
            out@.len() == i - lo,
            forall|p: int| 0 <= p < i - lo ==> out@[p] == chars@[lo + p],
        decreases hi - i,
    {
        out.push(chars[i]);
        i = i + 1;
    }
    proof {
        let cur = chars@.skip(lo as int).take(hi as int - lo as int);
        if hi > lo {
            assert(cur.last() == chars@[hi as int - 1]);
            assert(!is_ws(cur.last()));
        }
        assert(trim_end(cur) == cur);
        assert(out@ =~= cur);
    }
    out
}

/// Append the escaped wire form of a string to an output buffer.
pub fn push_escaped(out: &mut String, s: &Vec<char>)
    ensures
        final(out)@ == old(out)@ + escape(s@),
{
    let n = s.len();
    let mut i: usize = 0;
    proof {
        assert(old(out)@ + escape(s@.take(0)) =~= old(out)@);
    }
    while i < n
        invariant
            n == s@.len(),
            i <= n,
            out@ == old(out)@ + escape(s@.take(i as int)),
        decreases n - i,
    {
        let c = s[i];
        match c {
            '"' => {
                push_char(out, '\\');
                push_char(out, '"');
            },
            '\\' => {
                push_char(out, '\\');
                push_char(out, '\\');
            },
            '\n' => {
                push_char(out, '\\');
                push_char(out, 'n');
            },
            '\r' => {
                push_char(out, '\\');
                push_char(out, 'r');
            },
            '\t' => {
                push_char(out, '\\');
                push_char(out, 't');
            },
            _ => {
                if (c as u32) < 0x20 {
                    push_char(out, '\\');
                    push_char(out, 'u');
                    push_char(out, '0');
                    push_char(out, '0');
                    push_char(out, hex_digit_of(((c as u32) / 16) as u8));
                    push_char(out, hex_digit_of(((c as u32) % 16) as u8));
                } else {
                    push_char(out, c);
                }
            },
        }
        i = i + 1;
        proof {
            lemma_escape_snoc(s@.take(i as int - 1), s@[i as int - 1]);
            assert(s@.take(i as int).drop_last() =~= s@.take(i as int - 1));
            assert(s@.take(i as int) =~= s@.take(i as int - 1).push(s@[i as int - 1]));
            assert(out@ =~= old(out)@ + escape(s@.take(i as int)));
        }
    }
    proof {
        assert(s@.take(n as int) =~= s@);
    }
}

/// Escaping distributes over appending one character.
pub proof fn lemma_escape_snoc(s: Seq<char>, c: char)
    ensures
        escape(s.push(c)) == escape(s) + escape_char(c),
    decreases s.len(),
{
    if s.len() == 0 {
        assert(s.push(c)[0] == c);
        assert(s.push(c).drop_first() =~= Seq::<char>::empty());
        assert(escape(s.push(c).drop_first()) =~= Seq::<char>::empty());
        assert(escape(s.push(c)) =~= escape_char(c));
        assert(escape(s) + escape_char(c) =~= escape_char(c));
    } else {
        assert(s.push(c)[0] == s[0]);
        assert(s.push(c).drop_first() =~= s.drop_first().push(c));
        lemma_escape_snoc(s.drop_first(), c);
        assert(escape(s.push(c)) =~= escape_char(s[0]) + (escape(s.drop_first()) + escape_char(
            c,
        )));
        assert(escape_char(s[0]) + (escape(s.drop_first()) + escape_char(c)) =~= escape(s)
            + escape_char(c));
    }
}

/// Append the decimal digits of a byte to an output buffer.
pub fn push_dec_u8(out: &mut String, n: u8)
    ensures
        final(out)@ == old(out)@ + dec_digits(n as nat),
{
    let d0 = digit_of(n % 10);
    if n < 10 {
        push_char(out, d0);
        proof {
            assert(out@ =~= old(out)@ + dec_digits(n as nat));
        }
        return ;
    }
    let d1 = digit_of((n / 10) % 10);
    if n < 100 {
        push_char(out, d1);
        push_char(out, d0);
        proof {
            assert(dec_digits((n / 10) as nat) =~= seq![digit_char((n / 10) as int)]);
            assert(out@ =~= old(out)@ + dec_digits(n as nat));
        }
        return ;
    }
    let d2 = digit_of(n / 100);
    push_char(out, d2);
    push_char(out, d1);
    push_char(out, d0);
    proof {
        assert(dec_digits((n / 100) as nat) =~= seq![digit_char((n / 100) as int)]);
        assert(dec_digits((n / 10) as nat) =~= seq![
            digit_char((n / 100) as int),
            digit_char(((n / 10) % 10) as int),
        ]);
        assert(out@ =~= old(out)@ + dec_digits(n as nat));
    }
}

fn digit_of(d: u8) -> (r: char)
    requires
        d < 10,
    ensures
        r == digit_char(d as int),
{
    match d {
        0 => '0',
        1 => '1',
        2 => '2',
        3 => '3',
        4 => '4',
        5 => '5',
        6 => '6',
        7 => '7',
        8 => '8',
        _ => '9',
    }
}

fn hex_digit_of(d: u8) -> (r: char)
    requires
        d < 16,
    ensures
        r == hex_digit_char(d as int),
{
    match d {
        0 => '0',
        1 => '1',
        2 => '2',
        3 => '3',
        4 => '4',
        5 => '5',
        6 => '6',
        7 => '7',
        8 => '8',
        9 => '9',
        10 => 'a',
        11 => 'b',
        12 => 'c',
        13 => 'd',
        14 => 'e',
        _ => 'f',
    }
}

fn hex_val_of(c: char) -> (r: Option<u8>)
    ensures
        match r {
            Some(v) => is_hex_digit(c) && v == hex_digit_val(c) && v < 16,
            None => !is_hex_digit(c),
        },
{
    match c {
        '0' => Some(0),
        '1' => Some(1),
        '2' => Some(2),
        '3' => Some(3),
        '4' => Some(4),
        '5' => Some(5),
        '6' => Some(6),
        '7' => Some(7),
        '8' => Some(8),
        '9' => Some(9),
        'a' => Some(10),
        'b' => Some(11),
        'c' => Some(12),
        'd' => Some(13),
        'e' => Some(14),
        'f' => Some(15),
        _ => None,
    }
}

/// `r` with `pre` prepended to a successful parse's content.
pub open spec fn psb_prepend(pre: Seq<char>, r: Option<(Seq<char>, Seq<char>)>) -> Option<
    (Seq<char>, Seq<char>),
> {
    match r {
        Some(p) => Some((pre + p.0, p.1)),
        None => None,
    }
}

proof fn lemma_psb_prepend_assoc(a: Seq<char>, b: Seq<char>, r: Option<(Seq<char>, Seq<char>)>)
    ensures
        psb_prepend(a, psb_prepend(b, r)) == psb_prepend(a + b, r),
{
    match r {
        Some(p) => {
            assert(a + (b + p.0) =~= (a + b) + p.0);
        },
        None => {},
    }
}

/// Match a literal at position `i` of `t`; on success the position
/// after it.
pub fn p_lit(t: &Vec<char>, i: usize, lit: &str) -> (r: Option<usize>)
    requires
        i <= t@.len(),
    ensures
        match r {
            Some(j) => i <= j <= t@.len() && parse_lit(t@.skip(i as int), lit@) == Some(
                t@.skip(j as int),
            ),
            None => parse_lit(t@.skip(i as int), lit@) is None,
        },
{
    let lc = crate::text::str_chars(lit);
    let n = lc.len();
    if t.len() - i < n {
        return None;
    }
    let mut k: usize = 0;
    while k < n
        invariant
            lc@ == lit@,
            n == lc@.len(),
            i + n <= t@.len() <= usize::MAX,
            k <= n,
            forall|p: int| 0 <= p < k ==> t@[i + p] == lit@[p],
        decreases n - k,
    {
        if t[i + k] != lc[k] {
            proof {
                assert(t@.skip(i as int).take(lit@.len() as int)[k as int] == t@[i + k]);
            }
            return None;
        }
        k = k + 1;
    }
    proof {
        assert(t@.skip(i as int).take(lit@.len() as int) =~= lit@);
        assert(t@.skip(i as int).skip(lit@.len() as int) =~= t@.skip(i as int + n as int));
    }
    Some(i + n)
}

/// Parse a string body at position `i` (the opening quote already
/// consumed): the unescaped content and the position after the
/// closing quote.
pub fn p_string(t: &Vec<char>, i: usize) -> (r: Option<(String, usize)>)
    requires
        i <= t@.len(),
    ensures
        match r {
            Some(p) => i <= p.1 <= t@.len() && parse_string_body(t@.skip(i as int)) == Some(
                (p.0@, t@.skip(p.1 as int)),
            ),
            None => parse_string_body(t@.skip(i as int)) is None,
        },
{
    let n = t.len();
    let mut out = String::new();
    let mut j: usize = i;
    loop
        invariant
            i <= j <= n,
            n == t@.len(),
            parse_string_body(t@.skip(i as int)) == psb_prepend(
                out@,
                parse_string_body(t@.skip(j as int)),
            ),
        decreases n - j,
    {
        if j == n {
            return None;
        }
        let c = t[j];
        proof {
            assert(t@.skip(j as int)[0] == t@[j as int]);
        }
        if c == '"' {
            proof {
                assert(t@.skip(j as int).drop_first() =~= t@.skip(j as int + 1));
                assert(out@ + Seq::<char>::empty() =~= out@);
            }
            return Some((out, j + 1));
        }
        if c == '\\' {
            if n - j < 2 {
                proof {
                    assert(t@.skip(j as int).len() < 2);
                }
                return None;
            }
            proof {
                assert(t@.skip(j as int)[1] == t@[j as int + 1]);
            }
            let e = t[j + 1];
            if e == 'u' {
                if n - j < 6 {
                    proof {
                        assert(t@.skip(j as int).len() < 6);
                    }
                    return None;
                }
                proof {
                    assert(t@.skip(j as int)[2] == t@[j as int + 2]);
                    assert(t@.skip(j as int)[3] == t@[j as int + 3]);
                    assert(t@.skip(j as int)[4] == t@[j as int + 4]);
                    assert(t@.skip(j as int)[5] == t@[j as int + 5]);
                }
                if t[j + 2] != '0' || t[j + 3] != '0' {
                    return None;
                }
                let h1 = match hex_val_of(t[j + 4]) {
                    Some(v) => v,
                    None => {
                        return None;
                    },
                };
                let h2 = match hex_val_of(t[j + 5]) {
                    Some(v) => v,
                    None => {
                        return None;
                    },
                };
                let u = ((h1 * 16 + h2) as u8) as char;
                let ghost pre = out@;
                push_char(&mut out, u);
                proof {
                    assert(t@.skip(j as int).skip(6) =~= t@.skip(j as int + 6));
                    lemma_psb_prepend_assoc(
                        pre,
                        seq![u],
                        parse_string_body(t@.skip(j as int + 6)),
                    );
                    assert(pre + seq![u] =~= pre.push(u));
                }
                j = j + 6;
                continue ;
            }
            let dec: Option<char> = match e {
                '"' => Some('"'),
                '\\' => Some('\\'),
                'n' => Some('\n'),
                'r' => Some('\r'),
                't' => Some('\t'),
                _ => None,
            };
            match dec {
                None => {
                    return None;
                },
                Some(u) => {
                    let ghost pre = out@;
                    push_char(&mut out, u);
                    proof {
                        assert(t@.skip(j as int).skip(2) =~= t@.skip(j as int + 2));
                        lemma_psb_prepend_assoc(
                            pre,
                            seq![u],
                            parse_string_body(t@.skip(j as int + 2)),
                        );
                        assert(pre + seq![u] =~= pre.push(u));
                    }
                    j = j + 2;
                },
            }
        } else {
            let ghost pre = out@;
            push_char(&mut out, c);
            proof {
                assert(t@.skip(j as int).drop_first() =~= t@.skip(j as int + 1));
                lemma_psb_prepend_assoc(pre, seq![c], parse_string_body(t@.skip(j as int + 1)));
                assert(pre + seq![c] =~= pre.push(c));
            }
            j = j + 1;
        }
    }
}

/// Parse a byte-sized decimal number at position `i`.
pub fn p_u8(t: &Vec<char>, i: usize) -> (r: Option<(u8, usize)>)
    requires
        i <= t@.len(),
    ensures
        match r {
            Some(p) => i < p.1 <= t@.len() && parse_u8(t@.skip(i as int)) == Some(
                (p.0, t@.skip(p.1 as int)),
            ),
            None => parse_u8(t@.skip(i as int)) is None,
        },
{
    let n = t.len();
    let mut j: usize = i;
    let mut val: u32 = 0;
    let mut big = false;
    while j < n && t[j] >= '0' && t[j] <= '9'
        invariant
            i <= j <= n,
            n == t@.len(),
            digit_prefix_len(t@.skip(i as int)) == (j - i) + digit_prefix_len(t@.skip(j as int)),
            !big ==> val <= 255 && val == digits_val(t@.skip(i as int).take(j as int - i as int)),
            big ==> digits_val(t@.skip(i as int).take(j as int - i as int)) > 255,
        decreases n - j,
    {
        let c = t[j];
        let d: u32 = match c {
            '0' => 0,
            '1' => 1,
            '2' => 2,
            '3' => 3,
            '4' => 4,
            '5' => 5,
            '6' => 6,
            '7' => 7,
            '8' => 8,
            _ => 9,
        };
        proof {
            assert(t@.skip(j as int)[0] == t@[j as int]);
            assert(t@.skip(j as int).drop_first() =~= t@.skip(j as int + 1));
            let cur = t@.skip(i as int).take(j as int + 1 - i as int);
            assert(cur.drop_last() =~= t@.skip(i as int).take(j as int - i as int));
            assert(cur.last() == t@[j as int]);
            assert(d == digit_val(t@[j as int]));
        }
        if big || val * 10 + d > 255 {
            big = true;
            if val <= 255 {
                val = val * 10 + d;
            }
        } else {
            val = val * 10 + d;
        }
        j = j + 1;
    }
    proof {
        assert(digit_prefix_len(t@.skip(j as int)) == 0);
    }
    if j == i {
        return None;
    }
    if big {
        return None;
    }
    proof {
        assert(t@.skip(i as int).take(j as int - i as int) =~= t@.skip(i as int).take(
            digit_prefix_len(t@.skip(i as int)),
        ));
        assert(t@.skip(i as int).skip(j as int - i as int) =~= t@.skip(j as int));
    }
    Some((val as u8, j))
}

/// Parse `true` or `false` at position `i`.
pub fn p_bool(t: &Vec<char>, i: usize) -> (r: Option<(bool, usize)>)
    requires
        i <= t@.len(),
    ensures
        match r {
            Some(p) => i <= p.1 <= t@.len() && parse_bool(t@.skip(i as int)) == Some(
                (p.0, t@.skip(p.1 as int)),
            ),
            None => parse_bool(t@.skip(i as int)) is None,
        },
{
    match p_lit(t, i, "true") {
        Some(j) => Some((true, j)),
        None => match p_lit(t, i, "false") {
            Some(j) => Some((false, j)),
            None => None,
        },
    }
}

/// Parse a list of quoted strings at position `i`.
pub fn p_str_list(t: &Vec<char>, i: usize) -> (r: Option<(Vec<String>, usize)>)
    requires
        i <= t@.len(),
    ensures
        match r {
            Some(p) => i <= p.1 <= t@.len() && parse_str_list(t@.skip(i as int)) == Some(
                (p.0.deep_view(), t@.skip(p.1 as int)),
            ),
            None => parse_str_list(t@.skip(i as int)) is None,
        },
{
    let n = t.len();
    proof {
        if i < n {
            assert(t@.skip(i as int)[0] == t@[i as int]);
        }
        if i + 1 < n {
            assert(t@.skip(i as int)[1] == t@[i as int + 1]);
        }
    }
    if i == n || t[i] != '[' {
        return None;
    }
    if i + 1 < n && t[i + 1] == ']' {
        let empty: Vec<String> = Vec::new();
        proof {
            assert(empty.deep_view() =~= Seq::<Seq<char>>::empty());
            assert(t@.skip(i as int).skip(2) =~= t@.skip(i as int + 2));
        }
        return Some((empty, i + 2));
    }
    let mut items: Vec<String> = Vec::new();
    let mut j: usize = i + 1;
    proof {
        assert(t@.skip(i as int).drop_first() =~= t@.skip(i as int + 1));
        assert(items.deep_view() =~= Seq::<Seq<char>>::empty());
    }
    loop
        invariant
            i + 1 <= j <= n,
            n == t@.len(),
            i < n && t@[i as int] == '[',
            !(i + 1 < n && t@[i as int + 1] == ']'),
            t@.skip(i as int).drop_first() == t@.skip(i as int + 1),
            (match parse_str_items(t@.skip(j as int)) {
                Some(q) => parse_str_items(t@.skip(i as int + 1)) == Some(
                    (items.deep_view() + q.0, q.1),
                ),
                None => parse_str_items(t@.skip(i as int + 1)) is None,
            }),
        decreases n - j,
    {
        proof {
            if j < n {
                assert(t@.skip(j as int)[0] == t@[j as int]);
            }
        }
        if j == n || t[j] != '"' {
            return None;
        }
        proof {
            assert(t@.skip(j as int).drop_first() =~= t@.skip(j as int + 1));
        }
        match p_string(t, j + 1) {
            None => {
                return None;
            },
            Some((x, j2)) => {
                proof {
                    if j2 < n {
                        assert(t@.skip(j2 as int)[0] == t@[j2 as int]);
                    }
                }
                if j2 < n && t[j2] == ',' {
                    let ghost pre = items.deep_view();
                    let ghost xv = x@;
                    items.push(x);
                    proof {
                        assert(items.deep_view() =~= pre + seq![xv]);
                        assert(t@.skip(j2 as int).drop_first() =~= t@.skip(j2 as int + 1));
                        match parse_str_items(t@.skip(j2 as int + 1)) {
                            Some(q) => {
                                assert((pre + seq![xv]) + q.0 =~= pre + (seq![xv] + q.0));
                            },
                            None => {},
                        }
                    }
                    j = j2 + 1;
                } else if j2 < n && t[j2] == ']' {
                    let ghost pre = items.deep_view();
                    let ghost xv = x@;
                    items.push(x);
                    proof {
                        assert(items.deep_view() =~= pre + seq![xv]);
                        assert(t@.skip(j2 as int).drop_first() =~= t@.skip(j2 as int + 1));
                        assert(parse_str_items(t@.skip(j as int)) == Some(
                            (seq![xv], t@.skip(j2 as int + 1)),
                        ));
                        assert(pre + seq![xv] =~= items.deep_view());
                    }
                    return Some((items, j2 + 1));
                } else {
                    return None;
                }
            },
        }
    }
}

/// Parse a list of byte numbers at position `i`.
pub fn p_u8_list(t: &Vec<char>, i: usize) -> (r: Option<(Vec<u8>, usize)>)
    requires
        i <= t@.len(),
    ensures
        match r {
            Some(p) => i <= p.1 <= t@.len() && parse_u8_list(t@.skip(i as int)) == Some(
                (p.0@, t@.skip(p.1 as int)),
            ),
            None => parse_u8_list(t@.skip(i as int)) is None,
        },
{
    let n = t.len();
    proof {
        if i < n {
            assert(t@.skip(i as int)[0] == t@[i as int]);
        }
        if i + 1 < n {
            assert(t@.skip(i as int)[1] == t@[i as int + 1]);
        }
    }
    if i == n || t[i] != '[' {
        return None;
    }
    if i + 1 < n && t[i + 1] == ']' {
        let empty: Vec<u8> = Vec::new();
        proof {
            assert(t@.skip(i as int).skip(2) =~= t@.skip(i as int + 2));
        }
        return Some((empty, i + 2));
    }
    let mut items: Vec<u8> = Vec::new();
    let mut j: usize = i + 1;
    proof {
        assert(t@.skip(i as int).drop_first() =~= t@.skip(i as int + 1));
    }
    loop
        invariant
            i + 1 <= j <= n,
            n == t@.len(),
            i < n && t@[i as int] == '[',
            !(i + 1 < n && t@[i as int + 1] == ']'),
            t@.skip(i as int).drop_first() == t@.skip(i as int + 1),
            (match parse_u8_items(t@.skip(j as int)) {
                Some(q) => parse_u8_items(t@.skip(i as int + 1)) == Some((items@ + q.0, q.1)),
                None => parse_u8_items(t@.skip(i as int + 1)) is None,
            }),
        decreases n - j,
    {
        match p_u8(t, j) {
            None => {
                return None;
            },
            Some((x, j2)) => {
                proof {
                    if j2 < n {
                        assert(t@.skip(j2 as int)[0] == t@[j2 as int]);
                    }
                }
                if j2 < n && t[j2] == ',' {
                    let ghost pre = items@;
                    items.push(x);
                    proof {
                        assert(t@.skip(j2 as int).drop_first() =~= t@.skip(j2 as int + 1));
                        match parse_u8_items(t@.skip(j2 as int + 1)) {
                            Some(q) => {
                                assert((pre + seq![x]) + q.0 =~= pre + (seq![x] + q.0));
                                assert(items@ =~= pre + seq![x]);
                            },
                            None => {},
                        }
                    }
                    j = j2 + 1;
                } else if j2 < n && t[j2] == ']' {
                    let ghost pre = items@;
                    items.push(x);
                    proof {
                        assert(items@ =~= pre + seq![x]);
                        assert(t@.skip(j2 as int).drop_first() =~= t@.skip(j2 as int + 1));
                        assert(parse_u8_items(t@.skip(j as int)) == Some(
                            (seq![x], t@.skip(j2 as int + 1)),
                        ));
                    }
                    return Some((items, j2 + 1));
                } else {
                    return None;
                }
            },
        }
    }
}


/// Whether the wire format escapes this character inside a string:
/// quote, backslash, and every control character below 0x20.
pub open spec fn needs_escape(c: char) -> bool {
    c == '"' || c == '\\' || (c as u32) < 0x20
}

/// Stripping a literal off a line that starts with it leaves the rest.
pub proof fn lemma_parse_lit_prefix(a: Seq<char>, b: Seq<char>)
    ensures
        parse_lit(a + b, a) == Some(b),
{
    assert((a + b).take(a.len() as int) =~= a);
    assert((a + b).skip(a.len() as int) =~= b);
}

/// Escaping changes nothing in a string without special characters.
pub proof fn lemma_escape_clean(s: Seq<char>)
    requires
        forall|i: int| 0 <= i < s.len() ==> !needs_escape(#[trigger] s[i]),
    ensures
        escape(s) == s,
    decreases s.len(),
{
    if s.len() > 0 {
        lemma_escape_clean(s.drop_first());
        assert(!needs_escape(s[0]));
        assert(escape_char(s[0]) =~= seq![s[0]]);
        assert(escape(s) =~= s);
    } else {
        assert(escape(s) =~= s);
    }
}

proof fn lemma_ctrl_char_cast(c: char)
    requires
        (c as u32) < 0x20,
    ensures
        (((c as u32) as u8) as char) == c,
{
}

/// Parsing a string body inverts escaping: the escaped content up to
/// the closing quote comes back verbatim, with the rest untouched.
pub proof fn lemma_parse_string_round(s: Seq<char>, rest: Seq<char>)
    ensures
        parse_string_body(escape(s) + seq!['"'] + rest) == Some((s, rest)),
    decreases s.len(),
{
    let w = escape(s) + seq!['"'] + rest;
    if s.len() == 0 {
        assert(escape(s) =~= Seq::<char>::empty());
        assert(w[0] == '"');
        assert(w.drop_first() =~= rest);
    } else {
        let c = s[0];
        assert(escape(s) == escape_char(c) + escape(s.drop_first()));
        lemma_parse_string_round(s.drop_first(), rest);
        if c == '"' || c == '\\' || c == '\n' || c == '\r' || c == '\t' {
            assert(escape_char(c).len() == 2 && escape_char(c)[0] == '\\');
            assert(w[0] == '\\');
            assert(w[1] == escape_char(c)[1]);
            assert(w[1] != 'u');
            assert(unescape_char(escape_char(c)[1]) == Some(c));
            assert(w.skip(2) =~= escape(s.drop_first()) + seq!['"'] + rest);
            assert(seq![c] + s.drop_first() =~= s);
        } else if needs_escape(c) {
            // a control character below 0x20, escaped as a six-character
            // unicode escape
            assert((c as u32) < 0x20);
            let v = c as u32;
            assert(escape_char(c) =~= seq![
                '\\',
                'u',
                '0',
                '0',
                hex_digit_char((v / 16) as int),
                hex_digit_char((v % 16) as int),
            ]);
            assert(w.len() >= 6);
            assert(w[0] == '\\');
            assert(w[1] == 'u');
            assert(w[2] == '0');
            assert(w[3] == '0');
            assert(w[4] == hex_digit_char((v / 16) as int));
            assert(w[5] == hex_digit_char((v % 16) as int));
            assert(is_hex_digit(w[4]) && hex_digit_val(w[4]) == v / 16);
            assert(is_hex_digit(w[5]) && hex_digit_val(w[5]) == v % 16);
            assert(hex_digit_val(w[4]) * 16 + hex_digit_val(w[5]) == v);
            lemma_ctrl_char_cast(c);
            assert(((v as u8) as char) == c);
            assert(w.skip(6) =~= escape(s.drop_first()) + seq!['"'] + rest);
            assert(seq![c] + s.drop_first() =~= s);
        } else {
            assert(escape_char(c) =~= seq![c]);
            assert(w[0] == c);
            assert(w.drop_first() =~= escape(s.drop_first()) + seq!['"'] + rest);
            assert(seq![c] + s.drop_first() =~= s);
        }
    }
}

/// Parsing a quoted token inverts quoting.
pub proof fn lemma_parse_quoted_round(s: Seq<char>, rest: Seq<char>)
    ensures
        parse_quoted(quote(s) + rest) == Some((s, rest)),
{
    let w = quote(s) + rest;
    assert(w[0] == '"');
    assert(w.drop_first() =~= escape(s) + seq!['"'] + rest);
    lemma_parse_string_round(s, rest);
}

/// The decimal digits of a number are digits, at least one, and stand
/// for that number.
pub proof fn lemma_dec_digits_props(n: nat)
    ensures
        dec_digits(n).len() >= 1,
        forall|i: int| 0 <= i < dec_digits(n).len() ==> is_digit(#[trigger] dec_digits(n)[i]),
        digits_val(dec_digits(n)) == n,
    decreases n,
{
    if n < 10 {
        assert(digits_val(dec_digits(n).drop_last()) == 0) by {
            assert(dec_digits(n).drop_last().len() == 0);
        }
        assert(digits_val(dec_digits(n)) == digit_val(digit_char(n as int)));
    } else {
        lemma_dec_digits_props(n / 10);
        let d = dec_digits(n);
        assert(d.drop_last() =~= dec_digits(n / 10));
        assert(d.last() == digit_char((n % 10) as int));
        assert(digit_val(digit_char((n % 10) as int)) == n % 10);
        assert(digits_val(d) == (n / 10) * 10 + n % 10);
        assert((n / 10) * 10 + n % 10 == n) by (nonlinear_arith);
        assert(forall|i: int| 0 <= i < d.len() ==> is_digit(#[trigger] d[i])) by {
            assert(forall|i: int|
                0 <= i < d.len() - 1 ==> #[trigger] d[i] == dec_digits(n / 10)[i]);
        }
    }
}

/// A run of digits followed by a non-digit parses as exactly that run.
pub proof fn lemma_digit_prefix_concat(ds: Seq<char>, rest: Seq<char>)
    requires
        forall|i: int| 0 <= i < ds.len() ==> is_digit(#[trigger] ds[i]),
        rest.len() == 0 || !is_digit(rest[0]),
    ensures
        digit_prefix_len(ds + rest) == ds.len(),
    decreases ds.len(),
{
    if ds.len() == 0 {
        assert(ds + rest =~= rest);
    } else {
        assert((ds + rest)[0] == ds[0]);
        assert((ds + rest).drop_first() =~= ds.drop_first() + rest);
        lemma_digit_prefix_concat(ds.drop_first(), rest);
    }
}

/// Parsing a byte inverts decimal formatting when what follows is not
/// a digit.
pub proof fn lemma_parse_u8_round(n: u8, rest: Seq<char>)
    requires
        rest.len() == 0 || !is_digit(rest[0]),
    ensures
        parse_u8(dec_digits(n as nat) + rest) == Some((n, rest)),
{
    lemma_dec_digits_props(n as nat);
    lemma_digit_prefix_concat(dec_digits(n as nat), rest);
    let w = dec_digits(n as nat) + rest;
    let k = digit_prefix_len(w);
    assert(w.take(k) =~= dec_digits(n as nat));
    assert(w.skip(k) =~= rest);
}

/// The joined list body, seen from its first element.
pub proof fn lemma_str_list_body_head(xs: Seq<Seq<char>>)
    requires
        xs.len() >= 1,
    ensures
        str_list_body(xs) == quote(xs[0]) + (if xs.len() == 1 {
            Seq::<char>::empty()
        } else {
            seq![','] + str_list_body(xs.drop_first())
        }),
    decreases xs.len(),
{
    if xs.len() == 1 {
        assert(quote(xs[0]) + Seq::<char>::empty() =~= quote(xs[0]));
    } else if xs.len() == 2 {
        assert(xs.drop_last() =~= seq![xs[0]]);
        assert(str_list_body(xs.drop_last()) == quote(xs[0]));
        assert(xs.drop_first() =~= seq![xs[1]]);
        assert(str_list_body(xs.drop_first()) == quote(xs[1]));
        assert(xs.last() == xs[1]);
        assert(quote(xs[0]) + seq![','] + quote(xs[1]) =~= quote(xs[0]) + (seq![','] + quote(
            xs[1],
        )));
    } else {
        lemma_str_list_body_head(xs.drop_last());
        assert(xs.drop_last()[0] == xs[0]);
        assert(xs.drop_last().drop_first() =~= xs.drop_first().drop_last());
        assert(xs.drop_first().last() == xs.last());
        assert(xs.drop_first().len() >= 2);
        assert(str_list_body(xs.drop_first()) == str_list_body(xs.drop_first().drop_last())
            + seq![','] + quote(xs.drop_first().last()));
        assert(str_list_body(xs) == (quote(xs[0]) + (seq![','] + str_list_body(
            xs.drop_last().drop_first(),
        ))) + seq![','] + quote(xs.last()));
        assert((quote(xs[0]) + (seq![','] + str_list_body(xs.drop_last().drop_first())))
            + seq![','] + quote(xs.last()) =~= quote(xs[0]) + (seq![','] + (str_list_body(
            xs.drop_first().drop_last(),
        ) + seq![','] + quote(xs.drop_first().last()))));
    }
}

/// Parsing the items of a string list inverts joining.
pub proof fn lemma_str_items_round(xs: Seq<Seq<char>>, rest: Seq<char>)
    requires
        xs.len() >= 1,
    ensures
        parse_str_items(str_list_body(xs) + seq![']'] + rest) == Some((xs, rest)),
    decreases xs.len(),
{
    lemma_str_list_body_head(xs);
    let w = str_list_body(xs) + seq![']'] + rest;
    if xs.len() == 1 {
        assert(w =~= quote(xs[0]) + (seq![']'] + rest));
        lemma_parse_quoted_round(xs[0], seq![']'] + rest);
        assert((seq![']'] + rest)[0] == ']');
        assert((seq![']'] + rest).drop_first() =~= rest);
        assert(seq![xs[0]] =~= xs);
    } else {
        let tail = seq![','] + str_list_body(xs.drop_first()) + seq![']'] + rest;
        assert(w =~= quote(xs[0]) + tail);
        lemma_parse_quoted_round(xs[0], tail);
        assert(tail[0] == ',');
        assert(tail.drop_first() =~= str_list_body(xs.drop_first()) + seq![']'] + rest);
        lemma_str_items_round(xs.drop_first(), rest);
        assert(seq![xs[0]] + xs.drop_first() =~= xs);
    }
}

/// Parsing a string list inverts formatting one.
pub proof fn lemma_str_list_round(xs: Seq<Seq<char>>, rest: Seq<char>)
    ensures
        parse_str_list(str_list(xs) + rest) == Some((xs, rest)),
{
    let w = str_list(xs) + rest;
    assert(w[0] == '[');
    if xs.len() == 0 {
        assert(str_list_body(xs) =~= Seq::<char>::empty());
        assert(w[1] == ']');
        assert(w.skip(2) =~= rest);
        assert(Seq::<Seq<char>>::empty() =~= xs);
    } else {
        lemma_str_list_body_head(xs);
        assert(str_list_body(xs)[0] == '"');
        assert(w[1] == '"');
        assert(w.drop_first() =~= str_list_body(xs) + seq![']'] + rest);
        lemma_str_items_round(xs, rest);
    }
}

/// The joined number list body, seen from its first element.
pub proof fn lemma_u8_list_body_head(xs: Seq<u8>)
    requires
        xs.len() >= 1,
    ensures
        u8_list_body(xs) == dec_digits(xs[0] as nat) + (if xs.len() == 1 {
            Seq::<char>::empty()
        } else {
            seq![','] + u8_list_body(xs.drop_first())
        }),
    decreases xs.len(),
{
    if xs.len() == 1 {
        assert(dec_digits(xs[0] as nat) + Seq::<char>::empty() =~= dec_digits(xs[0] as nat));
    } else if xs.len() == 2 {
        assert(xs.drop_last() =~= seq![xs[0]]);
        assert(u8_list_body(xs.drop_last()) == dec_digits(xs[0] as nat));
        assert(xs.drop_first() =~= seq![xs[1]]);
        assert(u8_list_body(xs.drop_first()) == dec_digits(xs[1] as nat));
        assert(xs.last() == xs[1]);
        assert(dec_digits(xs[0] as nat) + seq![','] + dec_digits(xs[1] as nat) =~= dec_digits(
            xs[0] as nat,
        ) + (seq![','] + dec_digits(xs[1] as nat)));
    } else {
        lemma_u8_list_body_head(xs.drop_last());
        assert(xs.drop_last()[0] == xs[0]);
        assert(xs.drop_last().drop_first() =~= xs.drop_first().drop_last());
        assert(xs.drop_first().last() == xs.last());
        assert(xs.drop_first().len() >= 2);
        assert(u8_list_body(xs.drop_first()) == u8_list_body(xs.drop_first().drop_last())
            + seq![','] + dec_digits(xs.drop_first().last() as nat));
        assert(u8_list_body(xs) == (dec_digits(xs[0] as nat) + (seq![','] + u8_list_body(
            xs.drop_last().drop_first(),
        ))) + seq![','] + dec_digits(xs.last() as nat));
        assert((dec_digits(xs[0] as nat) + (seq![','] + u8_list_body(xs.drop_last().drop_first())))
            + seq![','] + dec_digits(xs.last() as nat) =~= dec_digits(xs[0] as nat) + (seq![',']
            + (u8_list_body(xs.drop_first().drop_last()) + seq![','] + dec_digits(
            xs.drop_first().last() as nat,
        ))));
    }
}

/// Parsing the items of a number list inverts joining.
pub proof fn lemma_u8_items_round(xs: Seq<u8>, rest: Seq<char>)
    requires
        xs.len() >= 1,
    ensures
        parse_u8_items(u8_list_body(xs) + seq![']'] + rest) == Some((xs, rest)),
    decreases xs.len(),
{
    lemma_u8_list_body_head(xs);
    let w = u8_list_body(xs) + seq![']'] + rest;
    if xs.len() == 1 {
        assert(w =~= dec_digits(xs[0] as nat) + (seq![']'] + rest));
        lemma_parse_u8_round(xs[0], seq![']'] + rest);
        assert((seq![']'] + rest)[0] == ']');
        assert((seq![']'] + rest).drop_first() =~= rest);
        assert(seq![xs[0]] =~= xs);
    } else {
        let tail = seq![','] + u8_list_body(xs.drop_first()) + seq![']'] + rest;
        assert(w =~= dec_digits(xs[0] as nat) + tail);
        assert(tail[0] == ',');
        lemma_parse_u8_round(xs[0], tail);
        assert(tail.drop_first() =~= u8_list_body(xs.drop_first()) + seq![']'] + rest);
        lemma_u8_items_round(xs.drop_first(), rest);
        assert(seq![xs[0]] + xs.drop_first() =~= xs);
    }
}

/// Parsing a number list inverts formatting one.
pub proof fn lemma_u8_list_round(xs: Seq<u8>, rest: Seq<char>)
    ensures
        parse_u8_list(u8_list(xs) + rest) == Some((xs, rest)),
{
    let w = u8_list(xs) + rest;
    assert(w[0] == '[');
    if xs.len() == 0 {
        assert(u8_list_body(xs) =~= Seq::<char>::empty());
        assert(w[1] == ']');
        assert(w.skip(2) =~= rest);
        assert(Seq::<u8>::empty() =~= xs);
    } else {
        lemma_u8_list_body_head(xs);
        lemma_dec_digits_props(xs[0] as nat);
        assert(is_digit(u8_list_body(xs)[0])) by {
            assert(u8_list_body(xs)[0] == dec_digits(xs[0] as nat)[0]);
        }
        assert(w[1] == u8_list_body(xs)[0]);
        assert(w[1] != ']');
        assert(w.drop_first() =~= u8_list_body(xs) + seq![']'] + rest);
        lemma_u8_items_round(xs, rest);
    }
}

/// A line that starts and ends with non-whitespace trims to itself
/// after its newline is dropped.
pub proof fn lemma_trim_line(body: Seq<char>)
    requires
        body.len() > 0,
        !is_ws(body[0]),
        !is_ws(body.last()),
    ensures
        spec_trim(body + seq!['\n']) == body,
{
    let w = body + seq!['\n'];
    assert(w[0] == body[0]);
    assert(trim_start(w) == w);
    assert(w.last() == '\n');
    assert(w.drop_last() =~= body);
    assert(trim_end(w) == trim_end(body));
    assert(trim_end(body) == body);
}


/// No newline anywhere in the sequence.
pub open spec fn no_newline(s: Seq<char>) -> bool {
    forall|i: int| 0 <= i < s.len() ==> s[i] != '\n'
}

pub proof fn lemma_no_newline_concat(a: Seq<char>, b: Seq<char>)
    requires
        no_newline(a),
        no_newline(b),
    ensures
        no_newline(a + b),
{
    assert forall|i: int| 0 <= i < (a + b).len() implies (a + b)[i] != '\n' by {
        if i < a.len() {
            assert((a + b)[i] == a[i]);
        } else {
            assert((a + b)[i] == b[i - a.len()]);
        }
    }
}

/// Escaping leaves no raw newline behind: the newline itself becomes
/// a two-character escape.
pub proof fn lemma_escape_no_newline(s: Seq<char>)
    ensures
        no_newline(escape(s)),
    decreases s.len(),
{
    if s.len() == 0 {
    } else {
        lemma_escape_no_newline(s.drop_first());
        assert(no_newline(escape_char(s[0]))) by {
            let c = s[0];
            if !needs_escape(c) {
                assert(escape_char(c)[0] == c);
            } else if !(c == '"' || c == '\\' || c == '\n' || c == '\r' || c == '\t') {
                assert(hex_digit_char((c as u32 / 16) as int) != '\n');
                assert(hex_digit_char((c as u32 % 16) as int) != '\n');
            }
        }
        lemma_no_newline_concat(escape_char(s[0]), escape(s.drop_first()));
    }
}

/// A quoted token holds no raw newline.
pub proof fn lemma_quote_no_newline(s: Seq<char>)
    ensures
        no_newline(quote(s)),
{
    lemma_escape_no_newline(s);
    lemma_no_newline_concat(seq!['"'], escape(s));
    lemma_no_newline_concat(seq!['"'] + escape(s), seq!['"']);
    assert((seq!['"'] + escape(s)) + seq!['"'] =~= quote(s));
}

/// Decimal digits hold no newline.
pub proof fn lemma_dec_digits_no_newline(n: nat)
    ensures
        no_newline(dec_digits(n)),
{
    lemma_dec_digits_props(n);
    assert forall|i: int| 0 <= i < dec_digits(n).len() implies dec_digits(n)[i] != '\n' by {
        assert(is_digit(dec_digits(n)[i]));
    }
}

/// A string list token holds no raw newline.
pub proof fn lemma_str_list_no_newline(xs: Seq<Seq<char>>)
    ensures
        no_newline(str_list(xs)),
{
    lemma_str_list_body_no_newline(xs);
    lemma_no_newline_concat(seq!['['], str_list_body(xs));
    lemma_no_newline_concat(seq!['['] + str_list_body(xs), seq![']']);
    assert((seq!['['] + str_list_body(xs)) + seq![']'] =~= str_list(xs));
}

proof fn lemma_str_list_body_no_newline(xs: Seq<Seq<char>>)
    ensures
        no_newline(str_list_body(xs)),
    decreases xs.len(),
{
    if xs.len() == 0 {
    } else if xs.len() == 1 {
        lemma_quote_no_newline(xs[0]);
    } else {
        lemma_str_list_body_no_newline(xs.drop_last());
        lemma_quote_no_newline(xs.last());
        lemma_no_newline_concat(str_list_body(xs.drop_last()), seq![',']);
        lemma_no_newline_concat(str_list_body(xs.drop_last()) + seq![','], quote(xs.last()));
    }
}

/// A number list token holds no newline.
pub proof fn lemma_u8_list_no_newline(xs: Seq<u8>)
    ensures
        no_newline(u8_list(xs)),
{
    lemma_u8_list_body_no_newline(xs);
    lemma_no_newline_concat(seq!['['], u8_list_body(xs));
    lemma_no_newline_concat(seq!['['] + u8_list_body(xs), seq![']']);
    assert((seq!['['] + u8_list_body(xs)) + seq![']'] =~= u8_list(xs));
}

proof fn lemma_u8_list_body_no_newline(xs: Seq<u8>)
    ensures
        no_newline(u8_list_body(xs)),
    decreases xs.len(),
{
    if xs.len() == 0 {
    } else if xs.len() == 1 {
        lemma_dec_digits_no_newline(xs[0] as nat);
    } else {
        lemma_u8_list_body_no_newline(xs.drop_last());
        lemma_dec_digits_no_newline(xs.last() as nat);
        lemma_no_newline_concat(u8_list_body(xs.drop_last()), seq![',']);
        lemma_no_newline_concat(
            u8_list_body(xs.drop_last()) + seq![','],
            dec_digits(xs.last() as nat),
        );
    }
}


} // verus!
