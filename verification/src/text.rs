//! Small text helpers: splitting on `::`, blank text, lowercase hex.
use vstd::prelude::*;
use vstd::string::*;

verus! {

/// Whether `::` starts at position `i` of `s`.
pub open spec fn sep_at(s: Seq<char>, i: int) -> bool {
    0 <= i && i + 1 < s.len() && s[i] == ':' && s[i + 1] == ':'
}

/// Whether `i` is the first position at which `::` starts.
pub open spec fn is_first_sep(s: Seq<char>, i: int) -> bool {
    &&& sep_at(s, i)
    &&& forall|j: int| 0 <= j < i ==> !#[trigger] sep_at(s, j)
}

/// The first position at which `::` starts, if any.
pub open spec fn first_sep(s: Seq<char>) -> Option<int> {
    if exists|i: int| is_first_sep(s, i) {
        Some(choose|i: int| is_first_sep(s, i))
    } else {
        None
    }
}

/// The pieces of `s` between the occurrences of `::`, scanned from the left
/// (as `str::split("::")` yields them): the text before the first `::`, then
/// the pieces of the rest after it; text without `::` is a single piece.
pub open spec fn pieces(s: Seq<char>) -> Seq<Seq<char>>
    decreases s.len(),
{
    match first_sep(s) {
        Some(i) => if 0 <= i && i + 2 <= s.len() {
            seq![s.take(i)] + pieces(s.skip(i + 2))
        } else {
            seq![s]
        },
        None => seq![s],
    }
}

/// The plain values of a list of strings.
pub open spec fn views(v: Seq<String>) -> Seq<Seq<char>> {
    v.map_values(|s: String| s@)
}

proof fn lemma_first_sep_is(s: Seq<char>, i: int)
    requires
        is_first_sep(s, i),
    ensures
        first_sep(s) == Some(i),
{
    let c = choose|c: int| is_first_sep(s, c);
    assert(is_first_sep(s, c));
    if c < i {
        assert(!sep_at(s, c));
    } else if i < c {
        assert(!sep_at(s, i));
    }
}

proof fn lemma_first_sep_none(s: Seq<char>)
    requires
        forall|j: int| 0 <= j ==> !#[trigger] sep_at(s, j),
    ensures
        first_sep(s) is None,
{
    if exists|i: int| is_first_sep(s, i) {
        let c = choose|c: int| is_first_sep(s, c);
        assert(sep_at(s, c));
    }
}

/// Splits `s` at each `::`; see [`pieces`].
pub fn split_pieces(s: &str) -> (v: Vec<String>)
    ensures
        views(v@) == pieces(s@),
{
    let n = s.unicode_len();
    let mut v: Vec<String> = Vec::new();
    let mut start: usize = 0;
    let mut i: usize = 0;
    assert(s@.skip(0) =~= s@);
    assert(views(v@) + pieces(s@) =~= pieces(s@));
    while i < n
        invariant
            n == s@.len(),
            start <= i <= n,
            pieces(s@) == views(v@) + pieces(s@.skip(start as int)),
            forall|j: int| start <= j < i ==> !#[trigger] sep_at(s@, j),
        decreases n - i,
    {
        if i + 1 < n && s.get_char(i) == ':' && s.get_char(i + 1) == ':' {
            let ghost rest = s@.skip(start as int);
            proof {
                assert(sep_at(rest, i - start));
                assert forall|j: int| 0 <= j < i - start implies !#[trigger] sep_at(rest, j) by {
                    assert(!sep_at(s@, start + j));
                }
                lemma_first_sep_is(rest, i - start);
                assert(rest.take(i - start) =~= s@.subrange(start as int, i as int));
                assert(rest.skip(i - start + 2) =~= s@.skip(i + 2));
            }
            let piece = String::from_str(s.substring_char(start, i));
            let ghost before = v@;
            v.push(piece);
            proof {
                assert(views(v@) =~= views(before).push(s@.subrange(start as int, i as int)));
                assert(pieces(rest) == seq![s@.subrange(start as int, i as int)] + pieces(
                    s@.skip(i + 2),
                ));
                assert(views(v@) + pieces(s@.skip(i + 2)) =~= views(before) + pieces(rest));
            }
            i = i + 2;
            start = i;
        } else {
            proof {
                assert(!sep_at(s@, i as int));
            }
            i = i + 1;
        }
    }
    let ghost rest = s@.skip(start as int);
    proof {
        assert forall|j: int| 0 <= j implies !#[trigger] sep_at(rest, j) by {
            if j < n - start {
                assert(!sep_at(s@, start + j));
            }
        }
        lemma_first_sep_none(rest);
        assert(rest =~= s@.subrange(start as int, n as int));
    }
    let last = String::from_str(s.substring_char(start, n));
    let ghost before = v@;
    v.push(last);
    assert(views(v@) =~= views(before) + pieces(rest));
    v
}

/// Whether `c` has the Unicode `White_Space` property (what
/// `char::is_whitespace` tests, and so what `str::trim` removes).
pub open spec fn is_ws(c: char) -> bool {
    let x = c as u32;
    ||| 0x9 <= x <= 0xd
    ||| x == 0x20
    ||| x == 0x85
    ||| x == 0xa0
    ||| x == 0x1680
    ||| 0x2000 <= x <= 0x200a
    ||| x == 0x2028
    ||| x == 0x2029
    ||| x == 0x202f
    ||| x == 0x205f
    ||| x == 0x3000
}

/// Whether the text is empty once trimmed: every character is white space.
pub fn is_blank(s: &str) -> (r: bool)
    ensures
        r == forall|i: int| 0 <= i < s@.len() ==> is_ws(#[trigger] s@[i]),
{
    let n = s.unicode_len();
    let mut i: usize = 0;
    while i < n
        invariant
            n == s@.len(),
            i <= n,
            forall|j: int| 0 <= j < i ==> is_ws(#[trigger] s@[j]),
        decreases n - i,
    {
        let c = s.get_char(i);
        let x = c as u32;
        let ws = (0x9 <= x && x <= 0xd) || x == 0x20 || x == 0x85 || x == 0xa0 || x == 0x1680 || (
        0x2000 <= x && x <= 0x200a) || x == 0x2028 || x == 0x2029 || x == 0x202f || x == 0x205f
            || x == 0x3000;
        if !ws {
            assert(!is_ws(s@[i as int]));
            return false;
        }
        i = i + 1;
    }
    true
}

/// The value of a hexadecimal digit, either case.
pub open spec fn hex_value(c: char) -> Option<u8> {
    let x = c as u32;
    if 0x30 <= x <= 0x39 {
        Some((x - 0x30) as u8)
    } else if 0x61 <= x <= 0x66 {
        Some((x - 0x61 + 10) as u8)
    } else if 0x41 <= x <= 0x46 {
        Some((x - 0x41 + 10) as u8)
    } else {
        None
    }
}

/// The lowercase hexadecimal digit of a value below 16.
pub open spec fn hex_digit(v: u8) -> char {
    if v < 10 {
        (0x30 + v) as char
    } else {
        (0x61 + v - 10) as char
    }
}

/// The bytes that a hexadecimal text stands for: an even number of digits,
/// two per byte, high digit first.
pub open spec fn hex_decode(s: Seq<char>) -> Option<Seq<u8>> {
    if s.len() % 2 == 0 && forall|i: int| 0 <= i < s.len() ==> (#[trigger] hex_value(s[i])) is Some {
        Some(
            Seq::new(
                s.len() / 2,
                |i: int| (16 * hex_value(s[2 * i])->0 + hex_value(s[2 * i + 1])->0) as u8,
            ),
        )
    } else {
        None
    }
}

/// The lowercase hexadecimal text of the bytes, two digits per byte.
pub open spec fn hex_encode(b: Seq<u8>) -> Seq<char> {
    Seq::new(
        2 * b.len(),
        |i: int|
            if i % 2 == 0 {
                hex_digit(b[i / 2] / 16)
            } else {
                hex_digit(b[i / 2] % 16)
            },
    )
}

/// The value of one hexadecimal digit, if it is one.
pub fn hex_value_of(c: char) -> (r: Option<u8>)
    ensures
        r == hex_value(c),
{
    let x = c as u32;
    if 0x30 <= x && x <= 0x39 {
        Some((x - 0x30) as u8)
    } else if 0x61 <= x && x <= 0x66 {
        Some((x - 0x61 + 10) as u8)
    } else if 0x41 <= x && x <= 0x46 {
        Some((x - 0x41 + 10) as u8)
    } else {
        None
    }
}

/// The lowercase digit of a value below 16.
pub fn hex_digit_of(v: u8) -> (c: char)
    requires
        v < 16,
    ensures
        c == hex_digit(v),
{
    if v < 10 {
        (0x30 + v) as char
    } else {
        (0x61 + v - 10) as char
    }
}

/// Decodes hexadecimal text; see [`hex_decode`].
pub fn decode_hex(s: &str) -> (r: Option<Vec<u8>>)
    ensures
        match r {
            Some(b) => hex_decode(s@) == Some(b@),
            None => hex_decode(s@) is None,
        },
{
    let n = s.unicode_len();
    if n % 2 != 0 {
        return None;
    }
    let mut out: Vec<u8> = Vec::new();
    let mut i: usize = 0;
    while i < n / 2
        invariant
            n == s@.len(),
            n % 2 == 0,
            i <= n / 2,
            out@.len() == i,
            forall|j: int| 0 <= j < 2 * i ==> (#[trigger] hex_value(s@[j])) is Some,
            forall|j: int|
                0 <= j < i ==> #[trigger] out@[j] == (16 * hex_value(s@[2 * j])->0 + hex_value(
                    s@[2 * j + 1],
                )->0) as u8,
        decreases n / 2 - i,
    {
        let hi = hex_value_of(s.get_char(2 * i));
        let lo = hex_value_of(s.get_char(2 * i + 1));
        match (hi, lo) {
            (Some(h), Some(l)) => {
                proof {
                    assert forall|j: int| 0 <= j < 2 * i + 2 implies (#[trigger] hex_value(
                        s@[j],
                    )) is Some by {
                        if j == 2 * i {
                        } else if j == 2 * i + 1 {
                        } else {
                        }
                    }
                }
                out.push(16 * h + l);
            },
            _ => {
                proof {
                    if hi is None {
                        assert(hex_value(s@[2 * i as int]) is None);
                    } else {
                        assert(hex_value(s@[2 * i + 1]) is None);
                    }
                }
                return None;
            },
        }
        i = i + 1;
    }
    assert(out@ =~= hex_decode(s@)->0);
    Some(out)
}

/// Writes bytes as lowercase hexadecimal text; see [`hex_encode`].
pub fn encode_hex(b: &Vec<u8>) -> (r: String)
    ensures
        r@ == hex_encode(b@),
{
    let mut chars: Vec<char> = Vec::new();
    let mut i: usize = 0;
    while i < b.len()
        invariant
            i <= b.len(),
            chars@ == hex_encode(b@.take(i as int)),
        decreases b.len() - i,
    {
        chars.push(hex_digit_of(b[i] / 16));
        chars.push(hex_digit_of(b[i] % 16));
        i = i + 1;
        assert(chars@ =~= hex_encode(b@.take(i as int)));
    }
    assert(b@.take(b.len() as int) =~= b@);
    string_of_chars(&chars)
}

/// Builds a string of the characters, in order.
pub fn string_of_chars(chars: &Vec<char>) -> (r: String)
    ensures
        r@ == chars@,
{
    let mut s = String::new();
    let mut i: usize = 0;
    while i < chars.len()
        invariant
            i <= chars.len(),
            s@ == chars@.take(i as int),
        decreases chars.len() - i,
    {
        push_char(&mut s, chars[i]);
        i = i + 1;
        assert(s@ =~= chars@.take(i as int));
    }
    assert(chars@.take(chars.len() as int) =~= chars@);
    s
}

/// `String::push`: appends one character.
#[verifier::external_body]
fn push_char(s: &mut String, c: char)
    ensures
        final(s)@ == old(s)@.push(c),
{
    s.push(c)
}

/// Decoding the hexadecimal text of bytes gives the bytes back.
pub proof fn lemma_hex_round_trip(b: Seq<u8>)
    ensures
        hex_decode(hex_encode(b)) == Some(b),
{
    let s = hex_encode(b);
    assert forall|i: int| 0 <= i < s.len() implies (#[trigger] hex_value(s[i])) is Some by {
        let v = if i % 2 == 0 { b[i / 2] / 16 } else { b[i / 2] % 16 };
        assert(s[i] == hex_digit(v));
        lemma_hex_digit_value(v);
    }
    let d = hex_decode(s)->0;
    assert forall|i: int| 0 <= i < b.len() implies d[i] == b[i] by {
        assert(s[2 * i] == hex_digit(b[i] / 16));
        assert(s[2 * i + 1] == hex_digit(b[i] % 16));
        lemma_hex_digit_value(b[i] / 16);
        lemma_hex_digit_value(b[i] % 16);
    }
    assert(d =~= b);
}

/// A digit reads back as its value.
proof fn lemma_hex_digit_value(v: u8)
    requires
        v < 16,
    ensures
        hex_value(hex_digit(v)) == Some(v),
{
}

/// The decimal digits of a number.
pub open spec fn decimal(v: nat) -> Seq<char>
    decreases v,
{
    if v < 10 {
        seq![(0x30 + v) as char]
    } else {
        decimal(v / 10).push((0x30 + v % 10) as char)
    }
}

/// The decimal digits of a number.
pub fn decimal_chars(v: u64) -> (r: Vec<char>)
    ensures
        r@ == decimal(v as nat),
    decreases v,
{
    if v < 10 {
        let mut r: Vec<char> = Vec::new();
        r.push(((v as u8) + 0x30) as char);
        assert(r@ =~= decimal(v as nat));
        r
    } else {
        let mut r = decimal_chars(v / 10);
        r.push((((v % 10) as u8) + 0x30) as char);
        r
    }
}

/// The decimal text of a number.
pub fn decimal_string(v: u64) -> (r: String)
    ensures
        r@ == decimal(v as nat),
{
    string_of_chars(&decimal_chars(v))
}

/// The text `host:port`.
pub open spec fn authority_of(host: Seq<char>, port: u16) -> Seq<char> {
    host + ":"@ + decimal(port as nat)
}

/// Writes `host:port`.
pub fn authority(host: &str, port: u16) -> (r: String)
    ensures
        r@ == authority_of(host@, port),
{
    let p = decimal_string(port as u64);
    String::from_str(host).concat(":").concat(p.as_str())
}

} // verus!
