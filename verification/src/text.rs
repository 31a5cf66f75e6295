//! Character-level building blocks: decimal notation (formatting and the
//! standard textual-to-numeric conversion), ampersand escaping, and plain
//! string comparison. Everything here is executable code verified against
//! the spec functions, with round-trip lemmas connecting the two directions.

use vstd::prelude::*;
use vstd::string::StrSliceExecFns;
use vstd::string::StringExecFns;

verus! {

// ---------------------------------------------------------------------------
// Decimal notation
// ---------------------------------------------------------------------------

/// The numeric value of a decimal digit character; 10 for any other character.
pub open spec fn digit_val(c: char) -> nat {
    if c == '0' {
        0
    } else if c == '1' {
        1
    } else if c == '2' {
        2
    } else if c == '3' {
        3
    } else if c == '4' {
        4
    } else if c == '5' {
        5
    } else if c == '6' {
        6
    } else if c == '7' {
        7
    } else if c == '8' {
        8
    } else if c == '9' {
        9
    } else {
        10
    }
}

pub open spec fn is_digit(c: char) -> bool {
    digit_val(c) < 10
}

/// The character for a decimal digit value below 10.
pub open spec fn digit_char(d: nat) -> char {
    if d == 0 {
        '0'
    } else if d == 1 {
        '1'
    } else if d == 2 {
        '2'
    } else if d == 3 {
        '3'
    } else if d == 4 {
        '4'
    } else if d == 5 {
        '5'
    } else if d == 6 {
        '6'
    } else if d == 7 {
        '7'
    } else if d == 8 {
        '8'
    } else {
        '9'
    }
}

/// The decimal notation of a natural number, most significant digit first,
/// without leading zeros (`0` itself is written `"0"`).
pub open spec fn dec_digits(n: nat) -> Seq<char>
    decreases n,
{
    if n < 10 {
        seq![digit_char(n)]
    } else {
        dec_digits(n / 10).push(digit_char(n % 10))
    }
}

/// The decimal notation of an integer: a minus sign for negative values,
/// no sign otherwise.
pub open spec fn dec_int(v: int) -> Seq<char> {
    if v < 0 {
        seq!['-'] + dec_digits((-v) as nat)
    } else {
        dec_digits(v as nat)
    }
}

/// The value of a digit string read in base 10 (leading zeros allowed).
pub open spec fn dec_val(s: Seq<char>) -> nat
    decreases s.len(),
{
    if s.len() == 0 {
        0
    } else {
        dec_val(s.drop_last()) * 10 + digit_val(s.last())
    }
}

pub open spec fn all_digits(s: Seq<char>) -> bool {
    forall|i: int| 0 <= i < s.len() ==> is_digit(s[i])
}

/// A non-empty, all-digit string reads as its base-10 value; anything else
/// is not a digit string.
pub open spec fn parse_digits(s: Seq<char>) -> Option<nat> {
    if s.len() > 0 && all_digits(s) {
        Some(dec_val(s))
    } else {
        None
    }
}

/// The digits of an unsigned numeral: one optional leading plus sign
/// is allowed and stripped.
pub open spec fn unsigned_body(s: Seq<char>) -> Seq<char> {
    if s.len() > 0 && s[0] == '+' {
        s.skip(1)
    } else {
        s
    }
}

/// The standard textual conversion of an unsigned integer type whose largest
/// value is `max`: an optional plus sign, then at least one digit, and the
/// value must fit.
pub open spec fn parse_unsigned(s: Seq<char>, max: nat) -> Option<nat> {
    match parse_digits(unsigned_body(s)) {
        Some(v) => if v <= max {
            Some(v)
        } else {
            None
        },
        None => None,
    }
}

/// The standard textual conversion of a signed integer type with range
/// `min ..= max`: an optional plus or minus sign, then at least one digit,
/// and the value must fit.
pub open spec fn parse_signed(s: Seq<char>, min: int, max: int) -> Option<int> {
    if s.len() > 0 && s[0] == '-' {
        match parse_digits(s.skip(1)) {
            Some(v) => if min <= -(v as int) {
                Some(-(v as int))
            } else {
                None
            },
            None => None,
        }
    } else {
        match parse_digits(unsigned_body(s)) {
            Some(v) => if v as int <= max {
                Some(v as int)
            } else {
                None
            },
            None => None,
        }
    }
}

/// Decimal notation is a faithful numeral: all digits, never empty, no
/// leading zero except for zero itself, and it reads back as the number.
pub proof fn lemma_dec_digits_roundtrip(n: nat)
    ensures
        dec_digits(n).len() >= 1,
        all_digits(dec_digits(n)),
        dec_val(dec_digits(n)) == n,
        n >= 1 ==> dec_digits(n)[0] != '0',
        n == 0 ==> dec_digits(n) == seq!['0'],
    decreases n,
{
    if n < 10 {
        assert(dec_digits(n) == seq![digit_char(n)]);
        assert(dec_digits(n).drop_last() =~= Seq::<char>::empty());
        assert(dec_val(Seq::<char>::empty()) == 0);
        assert(dec_digits(n).last() == digit_char(n));
        assert(dec_val(dec_digits(n)) == digit_val(digit_char(n)));
    } else {
        lemma_dec_digits_roundtrip(n / 10);
        vstd::arithmetic::div_mod::lemma_fundamental_div_mod(n as int, 10);
        assert(dec_digits(n) == dec_digits(n / 10).push(digit_char(n % 10)));
        assert(dec_digits(n).drop_last() =~= dec_digits(n / 10));
        assert(dec_digits(n).last() == digit_char(n % 10));
        assert(digit_val(digit_char(n % 10)) == n % 10);
        assert(dec_val(dec_digits(n)) == (n / 10) * 10 + n % 10);
        assert(dec_digits(n)[0] == dec_digits(n / 10)[0]);
    }
}

/// Writing an unsigned value in decimal and converting it back succeeds
/// whenever the value fits the type.
pub proof fn lemma_parse_unsigned_roundtrip(n: nat, max: nat)
    requires
        n <= max,
    ensures
        parse_unsigned(dec_digits(n), max) == Some(n),
{
    lemma_dec_digits_roundtrip(n);
    assert(digit_val('+') == 10);
    assert(is_digit(dec_digits(n)[0]));
    assert(unsigned_body(dec_digits(n)) == dec_digits(n));
}

/// Writing a signed value in decimal and converting it back succeeds
/// whenever the value fits the type.
pub proof fn lemma_parse_signed_roundtrip(v: int, min: int, max: int)
    requires
        min <= v <= max,
        min <= 0,
        0 <= max,
    ensures
        parse_signed(dec_int(v), min, max) == Some(v),
{
    if v < 0 {
        let s = dec_int(v);
        lemma_dec_digits_roundtrip((-v) as nat);
        assert(s[0] == '-');
        assert(s.skip(1) =~= dec_digits((-v) as nat));
    } else {
        lemma_dec_digits_roundtrip(v as nat);
        assert(digit_val('+') == 10);
        assert(digit_val('-') == 10);
        assert(is_digit(dec_int(v)[0]));
        assert(unsigned_body(dec_int(v)) == dec_int(v));
    }
}

// ---------------------------------------------------------------------------
// Plain string comparison
// ---------------------------------------------------------------------------

/// Character-for-character equality of two string slices.
pub fn str_eq(a: &str, b: &str) -> (r: bool)
    ensures
        r == (a@ == b@),
{
    let n = a.unicode_len();
    if n != b.unicode_len() {
        return false;
    }
    let mut i: usize = 0;
    while i < n
        invariant
            i <= n,
            n == a@.len(),
            n == b@.len(),
            a@.take(i as int) == b@.take(i as int),
        decreases n - i,
    {
        if a.get_char(i) != b.get_char(i) {
            return false;
        }
        proof {
            assert(a@.take(i + 1) =~= a@.take(i as int).push(a@[i as int]));
            assert(b@.take(i + 1) =~= b@.take(i as int).push(b@[i as int]));
        }
        i += 1;
    }
    proof {
        assert(a@.take(n as int) =~= a@);
        assert(b@.take(n as int) =~= b@);
    }
    true
}

// ---------------------------------------------------------------------------
// Ampersand escaping
// ---------------------------------------------------------------------------

/// The five characters of the escaped ampersand entity.
pub open spec fn amp_entity() -> Seq<char> {
    seq!['&', 'a', 'm', 'p', ';']
}

pub open spec fn escape_char(c: char) -> Seq<char> {
    if c == '&' {
        amp_entity()
    } else {
        seq![c]
    }
}

/// Ampersand escaping: every `&` becomes `&amp;`, all other characters pass
/// through. This is the only metacharacter the canonical dialect escapes.
pub open spec fn escape_amp(s: Seq<char>) -> Seq<char>
    decreases s.len(),
{
    if s.len() == 0 {
        Seq::empty()
    } else {
        escape_char(s[0]) + escape_amp(s.skip(1))
    }
}

/// The inverse reading: every occurrence of `&amp;` collapses back to `&`.
pub open spec fn unescape_amp(s: Seq<char>) -> Seq<char>
    decreases s.len(),
{
    if s.len() == 0 {
        Seq::empty()
    } else if s.len() >= 5 && s.subrange(0, 5) == amp_entity() {
        seq!['&'] + unescape_amp(s.skip(5))
    } else {
        seq![s[0]] + unescape_amp(s.skip(1))
    }
}

/// Escaping distributes over appending one character at the end.
pub proof fn lemma_escape_snoc(s: Seq<char>, c: char)
    ensures
        escape_amp(s.push(c)) == escape_amp(s) + escape_char(c),
    decreases s.len(),
{
    if s.len() == 0 {
        assert(s.push(c).skip(1) =~= Seq::<char>::empty());
        assert(s.push(c)[0] == c);
        assert(escape_amp(Seq::<char>::empty()) == Seq::<char>::empty());
        assert(escape_amp(s.push(c)) == escape_char(c) + escape_amp(s.push(c).skip(1)));
        assert(escape_amp(s.push(c)) =~= escape_amp(s) + escape_char(c));
    } else {
        lemma_escape_snoc(s.skip(1), c);
        assert(s.push(c).skip(1) =~= s.skip(1).push(c));
        assert(escape_amp(s.push(c)) =~= escape_amp(s) + escape_char(c));
    }
}

/// Unescaping undoes escaping on every string.
pub proof fn lemma_unescape_escape(s: Seq<char>)
    ensures
        unescape_amp(escape_amp(s)) == s,
    decreases s.len(),
{
    if s.len() == 0 {
    } else {
        lemma_unescape_escape(s.skip(1));
        let e = escape_amp(s);
        if s[0] == '&' {
            assert(e == amp_entity() + escape_amp(s.skip(1)));
            assert(e.subrange(0, 5) =~= amp_entity());
            assert(e.skip(5) =~= escape_amp(s.skip(1)));
            assert(unescape_amp(e) == seq!['&'] + s.skip(1));
            assert(seq!['&'] + s.skip(1) =~= s);
        } else {
            assert(e == seq![s[0]] + escape_amp(s.skip(1)));
            assert(e[0] == s[0]);
            assert(amp_entity()[0] == '&');
            assert(!(e.len() >= 5 && e.subrange(0, 5) == amp_entity()));
            assert(e.skip(1) =~= escape_amp(s.skip(1)));
            assert(unescape_amp(e) == seq![s[0]] + s.skip(1));
            assert(seq![s[0]] + s.skip(1) =~= s);
        }
    }
}

/// Escapes a string slice: `&` becomes `&amp;`, everything else is copied.
pub fn escape_amp_str(s: &str) -> (r: String)
    ensures
        r@ == escape_amp(s@),
{
    let n = s.unicode_len();
    let mut r = String::new();
    let mut i: usize = 0;
    while i < n
        invariant
            i <= n,
            n == s@.len(),
            r@ == escape_amp(s@.take(i as int)),
        decreases n - i,
    {
        let c = s.get_char(i);
        if c == '&' {
            r.append("&amp;");
            proof {
                reveal_strlit("&amp;");
                assert("&amp;"@ =~= amp_entity());
            }
        } else {
            let piece = s.substring_char(i, i + 1);
            r.append(piece);
            proof {
                assert(piece@ =~= seq![s@[i as int]]);
            }
        }
        proof {
            lemma_escape_snoc(s@.take(i as int), s@[i as int]);
            assert(s@.take(i + 1) =~= s@.take(i as int).push(s@[i as int]));
        }
        i += 1;
    }
    proof {
        assert(s@.take(n as int) =~= s@);
    }
    r
}

// ---------------------------------------------------------------------------
// Number formatting
// ---------------------------------------------------------------------------

/// The digit characters of a digit-value sequence, read back to front.
pub open spec fn rev_digit_chars(ds: Seq<u8>) -> Seq<char> {
    Seq::new(ds.len(), |i: int| digit_char(ds[ds.len() - 1 - i] as nat))
}

/// The one-character string of a digit value.
fn digit_str(d: u8) -> (r: &'static str)
    requires
        d < 10,
    ensures
        r@ == seq![digit_char(d as nat)],
{
    match d {
        0 => {
            proof {
                reveal_strlit("0");
                assert("0"@ =~= seq![digit_char(0)]);
            }
            "0"
        },
        1 => {
            proof {
                reveal_strlit("1");
                assert("1"@ =~= seq![digit_char(1)]);
            }
            "1"
        },
        2 => {
            proof {
                reveal_strlit("2");
                assert("2"@ =~= seq![digit_char(2)]);
            }
            "2"
        },
        3 => {
            proof {
                reveal_strlit("3");
                assert("3"@ =~= seq![digit_char(3)]);
            }
            "3"
        },
        4 => {
            proof {
                reveal_strlit("4");
                assert("4"@ =~= seq![digit_char(4)]);
            }
            "4"
        },
        5 => {
            proof {
                reveal_strlit("5");
                assert("5"@ =~= seq![digit_char(5)]);
            }
            "5"
        },
        6 => {
            proof {
                reveal_strlit("6");
                assert("6"@ =~= seq![digit_char(6)]);
            }
            "6"
        },
        7 => {
            proof {
                reveal_strlit("7");
                assert("7"@ =~= seq![digit_char(7)]);
            }
            "7"
        },
        8 => {
            proof {
                reveal_strlit("8");
                assert("8"@ =~= seq![digit_char(8)]);
            }
            "8"
        },
        _ => {
            proof {
                reveal_strlit("9");
                assert("9"@ =~= seq![digit_char(9)]);
            }
            "9"
        },
    }
}

/// Formats an unsigned value in decimal.
pub fn u64_string(n: u64) -> (s: String)
    ensures
        s@ == dec_digits(n as nat),
{
    let mut digs: Vec<u8> = Vec::new();
    digs.push((n % 10) as u8);
    let mut cur: u64 = n / 10;
    proof {
        if n < 10 {
            assert(rev_digit_chars(digs@) =~= seq![digit_char(n as nat)]);
        } else {
            assert(rev_digit_chars(digs@) =~= seq![digit_char(n as nat % 10)]);
            assert(dec_digits(n as nat) =~= dec_digits(n as nat / 10) + rev_digit_chars(
                digs@,
            ));
        }
    }
    while cur > 0
        invariant
            forall|k: int| 0 <= k < digs@.len() ==> digs@[k] < 10,
            digs@.len() >= 1,
            cur > 0 ==> dec_digits(n as nat) == dec_digits(cur as nat) + rev_digit_chars(digs@),
            cur == 0 ==> dec_digits(n as nat) == rev_digit_chars(digs@),
        decreases cur,
    {
        let d: u8 = (cur % 10) as u8;
        let ghost old_digs = digs@;
        let ghost old_cur = cur as nat;
        digs.push(d);
        cur = cur / 10;
        proof {
            assert(rev_digit_chars(old_digs.push(d)) =~= seq![digit_char(d as nat)]
                + rev_digit_chars(old_digs));
            if old_cur < 10 {
                assert(dec_digits(old_cur) == seq![digit_char(old_cur)]);
                assert(dec_digits(n as nat) =~= rev_digit_chars(digs@));
            } else {
                assert(dec_digits(old_cur) == dec_digits(old_cur / 10).push(
                    digit_char(old_cur % 10),
                ));
                assert(dec_digits(old_cur) =~= dec_digits(old_cur / 10) + seq![digit_char(
                    old_cur % 10,
                )]);
                assert(dec_digits(n as nat) =~= dec_digits(cur as nat) + rev_digit_chars(digs@));
            }
        }
    }
    let mut s = String::new();
    let len = digs.len();
    let mut i: usize = len;
    while i > 0
        invariant
            i <= len,
            len == digs@.len(),
            forall|k: int| 0 <= k < digs@.len() ==> digs@[k] < 10,
            dec_digits(n as nat) == rev_digit_chars(digs@),
            s@ == rev_digit_chars(digs@).take(len - i),
        decreases i,
    {
        i = i - 1;
        let piece = digit_str(digs[i]);
        s.append(piece);
        proof {
            assert(rev_digit_chars(digs@).take(len - i) =~= rev_digit_chars(digs@).take(
                len - i - 1,
            ).push(rev_digit_chars(digs@)[len - 1 - i as int]));
        }
    }
    proof {
        assert(rev_digit_chars(digs@).take(len as int) =~= rev_digit_chars(digs@));
    }
    s
}

/// Formats a signed value in decimal, with a minus sign when negative.
pub fn i64_string(v: i64) -> (s: String)
    ensures
        s@ == dec_int(v as int),
{
    if v >= 0 {
        u64_string(v as u64)
    } else {
        let mag: u64 = (-(v as i128)) as u64;
        let mut s = String::from_str("-");
        let d = u64_string(mag);
        s.append(d.as_str());
        proof {
            reveal_strlit("-");
            assert(s@ =~= dec_int(v as int));
        }
        s
    }
}

// ---------------------------------------------------------------------------
// Number parsing
// ---------------------------------------------------------------------------

/// Reads the digits of `s` from position `from` to the end, capping the
/// result just above `u64::MAX` so that any overflowing numeral is still
/// recognized as too large for every narrower type.
fn digits_value_from(s: &str, from: usize) -> (r: Option<u128>)
    requires
        from as nat <= s@.len(),
    ensures
        match r {
            None => parse_digits(s@.skip(from as int)) is None,
            Some(v) => {
                &&& parse_digits(s@.skip(from as int)) matches Some(nv)
                &&& (nv <= u64::MAX ==> v == nv)
                &&& (nv > u64::MAX ==> v > u64::MAX)
            },
        },
{
    let n = s.unicode_len();
    if from >= n {
        return None;
    }
    let mut i: usize = from;
    let mut acc: u128 = 0;
    while i < n
        invariant
            from <= i <= n,
            n == s@.len(),
            all_digits(s@.subrange(from as int, i as int)),
            acc <= u64::MAX as u128 + 1,
            dec_val(s@.subrange(from as int, i as int)) <= u64::MAX ==> acc == dec_val(
                s@.subrange(from as int, i as int),
            ),
            dec_val(s@.subrange(from as int, i as int)) > u64::MAX ==> acc > u64::MAX as u128,
        decreases n - i,
    {
        let c = s.get_char(i);
        let d = digit_u8_of(c);
        if d >= 10 {
            proof {
                assert(s@.skip(from as int)[i - from] == s@[i as int]);
            }
            return None;
        }
        let ghost pre = s@.subrange(from as int, i as int);
        let ghost dv = dec_val(pre);
        let t: u128 = acc * 10 + (d as u128);
        acc = if t > u64::MAX as u128 {
            u64::MAX as u128 + 1
        } else {
            t
        };
        proof {
            let post = s@.subrange(from as int, i + 1);
            assert(post.drop_last() =~= pre);
            assert(post.last() == s@[i as int]);
            assert(dec_val(post) == dv * 10 + digit_val(s@[i as int]));
        }
        i += 1;
    }
    proof {
        assert(s@.subrange(from as int, n as int) =~= s@.skip(from as int));
    }
    Some(acc)
}

/// The digit value of a character; 10 for a non-digit.
pub fn digit_u8_of(c: char) -> (r: u8)
    ensures
        r as nat == digit_val(c),
{
    match c {
        '0' => 0,
        '1' => 1,
        '2' => 2,
        '3' => 3,
        '4' => 4,
        '5' => 5,
        '6' => 6,
        '7' => 7,
        '8' => 8,
        '9' => 9,
        _ => 10,
    }
}

/// Position of the first digit of an unsigned numeral (skipping one
/// optional plus sign), so that `s@.skip(r)` is `unsigned_body(s@)`.
fn unsigned_start(s: &str) -> (r: usize)
    ensures
        r as nat <= s@.len(),
        s@.skip(r as int) == unsigned_body(s@),
{
    let n = s.unicode_len();
    if n > 0 && s.get_char(0) == '+' {
        1
    } else {
        proof {
            assert(s@.skip(0) =~= s@);
        }
        0
    }
}

/// The standard textual conversion for `u8`.
pub fn parse_u8_str(s: &str) -> (r: Option<u8>)
    ensures
        match parse_unsigned(s@, u8::MAX as nat) {
            Some(nv) => r matches Some(v) && v as nat == nv,
            None => r is None,
        },
{
    let from = unsigned_start(s);
    match digits_value_from(s, from) {
        None => None,
        Some(v) => if v <= u8::MAX as u128 {
            Some(v as u8)
        } else {
            None
        },
    }
}

/// The standard textual conversion for `u16`.
pub fn parse_u16_str(s: &str) -> (r: Option<u16>)
    ensures
        match parse_unsigned(s@, u16::MAX as nat) {
            Some(nv) => r matches Some(v) && v as nat == nv,
            None => r is None,
        },
{
    let from = unsigned_start(s);
    match digits_value_from(s, from) {
        None => None,
        Some(v) => if v <= u16::MAX as u128 {
            Some(v as u16)
        } else {
            None
        },
    }
}

/// The standard textual conversion for `u32`.
pub fn parse_u32_str(s: &str) -> (r: Option<u32>)
    ensures
        match parse_unsigned(s@, u32::MAX as nat) {
            Some(nv) => r matches Some(v) && v as nat == nv,
            None => r is None,
        },
{
    let from = unsigned_start(s);
    match digits_value_from(s, from) {
        None => None,
        Some(v) => if v <= u32::MAX as u128 {
            Some(v as u32)
        } else {
            None
        },
    }
}

/// The standard textual conversion for `u64`.
pub fn parse_u64_str(s: &str) -> (r: Option<u64>)
    ensures
        match parse_unsigned(s@, u64::MAX as nat) {
            Some(nv) => r matches Some(v) && v as nat == nv,
            None => r is None,
        },
{
    let from = unsigned_start(s);
    match digits_value_from(s, from) {
        None => None,
        Some(v) => if v <= u64::MAX as u128 {
            Some(v as u64)
        } else {
            None
        },
    }
}

/// Shared body of the signed conversions: `mag_bound` is the magnitude limit
/// for negative values (one above the positive limit `max_pos`).
fn parse_signed_parts(s: &str) -> (r: (bool, Option<u128>))
    ensures
        ({
            let (neg, digits) = r;
            &&& neg == (s@.len() > 0 && s@[0] == '-')
            &&& ({
                let body = if neg {
                    s@.skip(1)
                } else {
                    unsigned_body(s@)
                };
                match digits {
                    None => parse_digits(body) is None,
                    Some(v) => {
                        &&& parse_digits(body) matches Some(nv)
                        &&& (nv <= u64::MAX ==> v == nv)
                        &&& (nv > u64::MAX ==> v > u64::MAX)
                    },
                }
            })
        }),
{
    let n = s.unicode_len();
    if n > 0 && s.get_char(0) == '-' {
        (true, digits_value_from(s, 1))
    } else {
        let from = unsigned_start(s);
        (false, digits_value_from(s, from))
    }
}

/// The standard textual conversion for `i8`.
pub fn parse_i8_str(s: &str) -> (r: Option<i8>)
    ensures
        match parse_signed(s@, i8::MIN as int, i8::MAX as int) {
            Some(nv) => r matches Some(v) && v as int == nv,
            None => r is None,
        },
{
    let (neg, digits) = parse_signed_parts(s);
    match digits {
        None => None,
        Some(v) => if neg {
            if v <= 128 {
                Some((-(v as i16)) as i8)
            } else {
                None
            }
        } else {
            if v <= i8::MAX as u128 {
                Some(v as i8)
            } else {
                None
            }
        },
    }
}

/// The standard textual conversion for `i16`.
pub fn parse_i16_str(s: &str) -> (r: Option<i16>)
    ensures
        match parse_signed(s@, i16::MIN as int, i16::MAX as int) {
            Some(nv) => r matches Some(v) && v as int == nv,
            None => r is None,
        },
{
    let (neg, digits) = parse_signed_parts(s);
    match digits {
        None => None,
        Some(v) => if neg {
            if v <= 32768 {
                Some((-(v as i32)) as i16)
            } else {
                None
            }
        } else {
            if v <= i16::MAX as u128 {
                Some(v as i16)
            } else {
                None
            }
        },
    }
}

/// The standard textual conversion for `i32`.
pub fn parse_i32_str(s: &str) -> (r: Option<i32>)
    ensures
        match parse_signed(s@, i32::MIN as int, i32::MAX as int) {
            Some(nv) => r matches Some(v) && v as int == nv,
            None => r is None,
        },
{
    let (neg, digits) = parse_signed_parts(s);
    match digits {
        None => None,
        Some(v) => if neg {
            if v <= 2147483648 {
                Some((-(v as i64)) as i32)
            } else {
                None
            }
        } else {
            if v <= i32::MAX as u128 {
                Some(v as i32)
            } else {
                None
            }
        },
    }
}

/// The standard textual conversion for `i64`.
pub fn parse_i64_str(s: &str) -> (r: Option<i64>)
    ensures
        match parse_signed(s@, i64::MIN as int, i64::MAX as int) {
            Some(nv) => r matches Some(v) && v as int == nv,
            None => r is None,
        },
{
    let (neg, digits) = parse_signed_parts(s);
    match digits {
        None => None,
        Some(v) => if neg {
            if v <= 9223372036854775808 {
                Some((-(v as i128)) as i64)
            } else {
                None
            }
        } else {
            if v <= i64::MAX as u128 {
                Some(v as i64)
            } else {
                None
            }
        },
    }
}

} // verus!
