//! The escape convention: plain bytes stand for themselves, every other byte is
//! written `\xHH` with two hex digits.
use vstd::prelude::*;
use vstd::utf8::*;
use crate::error::ParseError;

verus! {

/// Bytes that may stand unescaped in a specification field.
pub open spec fn is_plain(b: u8) -> bool {
    (('a' as u8) <= b <= ('z' as u8)) || (('A' as u8) <= b <= ('Z' as u8)) || (('0' as u8) <= b <= ('9' as u8)) || b == ('.' as u8) || b
        == ('-' as u8) || b == ('_' as u8) || b == ('/' as u8)
}

/// Bytes that the encoder leaves unescaped: the plain set and the space.
pub open spec fn is_plain_for_encode(b: u8) -> bool {
    is_plain(b) || b == (' ' as u8)
}

pub open spec fn is_hex_digit(b: u8) -> bool {
    (('0' as u8) <= b <= ('9' as u8)) || (('a' as u8) <= b <= ('f' as u8)) || (('A' as u8) <= b <= ('F' as u8))
}

/// The value of a hex digit, upper or lower case.
pub open spec fn hex_value(b: u8) -> u8 {
    if b <= ('9' as u8) {
        (b - ('0' as u8)) as u8
    } else if b >= ('a' as u8) {
        (b - ('a' as u8) + 10) as u8
    } else {
        (b - ('A' as u8) + 10) as u8
    }
}

/// The lower-case hex digit for a value below 16.
pub open spec fn hex_char(n: u8) -> char {
    if n < 10 {
        ((('0' as u8) + n) as u8) as char
    } else {
        ((('a' as u8) + n - 10) as u8) as char
    }
}

/// Puts `prefix` in front of a successful result; an error passes unchanged.
pub open spec fn prepend<T>(prefix: Seq<T>, r: Result<Seq<T>, ParseError>) -> Result<
    Seq<T>,
    ParseError,
> {
    match r {
        Ok(rest) => Ok(prefix + rest),
        Err(e) => Err(e),
    }
}

/// What decoding an escaped byte string yields, reading it from the front.
pub open spec fn decode_spec(t: Seq<u8>) -> Result<Seq<u8>, ParseError>
    decreases t.len(),
{
    if t.len() == 0 {
        Ok(Seq::empty())
    } else if t[0] == ('\\' as u8) {
        if t.len() < 4 {
            Err(ParseError::IncompleteEscape)
        } else if t[1] != ('x' as u8) {
            Err(ParseError::InvalidEscapeByte(t[1]))
        } else if !is_hex_digit(t[2]) {
            Err(ParseError::InvalidEscapeByte(t[2]))
        } else if !is_hex_digit(t[3]) {
            Err(ParseError::InvalidEscapeByte(t[3]))
        } else {
            prepend(
                seq![(hex_value(t[2]) * 16 + hex_value(t[3])) as u8],
                decode_spec(t.subrange(4, t.len() as int)),
            )
        }
    } else if is_plain(t[0]) {
        prepend(seq![t[0]], decode_spec(t.drop_first()))
    } else {
        Err(ParseError::InvalidByte(t[0]))
    }
}

/// How one byte is written by the encoder.
pub open spec fn escape_byte(b: u8) -> Seq<char> {
    if is_plain_for_encode(b) {
        seq![b as char]
    } else {
        seq!['\\', 'x', hex_char(b / 16), hex_char(b % 16)]
    }
}

/// The escaped text of a byte string, byte by byte.
pub open spec fn encode_spec(b: Seq<u8>) -> Seq<char>
    decreases b.len(),
{
    if b.len() == 0 {
        Seq::empty()
    } else {
        encode_spec(b.drop_last()) + escape_byte(b.last())
    }
}

/// The bytes of an ASCII character sequence.
pub open spec fn ascii_bytes(c: Seq<char>) -> Seq<u8> {
    c.map_values(|ch: char| ch as u8)
}

pub(crate) proof fn lemma_prepend_assoc<T>(a: Seq<T>, b: Seq<T>, r: Result<Seq<T>, ParseError>)
    ensures
        prepend(a, prepend(b, r)) == prepend(a + b, r),
{
    match r {
        Ok(x) => {
            assert(a + (b + x) =~= (a + b) + x);
        },
        Err(_) => {},
    }
}

pub(crate) proof fn lemma_prepend_empty<T>(r: Result<Seq<T>, ParseError>)
    ensures
        prepend(Seq::empty(), r) == r,
{
    if let Ok(x) = r {
        assert(Seq::<T>::empty() + x =~= x);
    }
}

fn is_plain_byte(b: u8) -> (r: bool)
    ensures
        r == is_plain(b),
{
    (('a' as u8) <= b && b <= ('z' as u8)) || (('A' as u8) <= b && b <= ('Z' as u8)) || (('0' as u8) <= b && b <= ('9' as u8)) || b
        == ('.' as u8) || b == ('-' as u8) || b == ('_' as u8) || b == ('/' as u8)
}

fn hex_digit_value(b: u8) -> (r: Option<u8>)
    ensures
        r == (if is_hex_digit(b) {
            Some(hex_value(b))
        } else {
            None::<u8>
        }),
{
    if ('0' as u8) <= b && b <= ('9' as u8) {
        Some(b - ('0' as u8))
    } else if ('a' as u8) <= b && b <= ('f' as u8) {
        Some(b - ('a' as u8) + 10)
    } else if ('A' as u8) <= b && b <= ('F' as u8) {
        Some(b - ('A' as u8) + 10)
    } else {
        None
    }
}

/// Decodes an escaped field into the bytes it stands for.
pub fn decode(text: &[u8]) -> (r: Result<Vec<u8>, ParseError>)
    ensures
        match decode_spec(text@) {
            Ok(b) => r matches Ok(v) && v@ == b,
            Err(e) => r == Err::<Vec<u8>, ParseError>(e),
        },
{
    let mut out: Vec<u8> = Vec::new();
    let mut i: usize = 0;
    proof {
        assert(text@.subrange(0, text@.len() as int) =~= text@);
        lemma_prepend_empty(decode_spec(text@));
    }
    while i < text.len()
        invariant
            i <= text@.len(),
            decode_spec(text@) == prepend(out@, decode_spec(text@.subrange(i as int, text@.len() as int))),
        decreases text@.len() - i,
    {
        let ghost rest = text@.subrange(i as int, text@.len() as int);
        let b = text[i];
        assert(rest[0] == b);
        if b == ('\\' as u8) {
            if text.len() - i < 4 {
                return Err(ParseError::IncompleteEscape);
            }
            let marker = text[i + 1];
            assert(rest[1] == marker);
            if marker != ('x' as u8) {
                return Err(ParseError::InvalidEscapeByte(marker));
            }
            let high = text[i + 2];
            let low = text[i + 3];
            assert(rest[2] == high && rest[3] == low);
            let hv = match hex_digit_value(high) {
                Some(v) => v,
                None => {
                    return Err(ParseError::InvalidEscapeByte(high));
                },
            };
            let lv = match hex_digit_value(low) {
                Some(v) => v,
                None => {
                    return Err(ParseError::InvalidEscapeByte(low));
                },
            };
            let ghost before = out@;
            out.push(hv * 16 + lv);
            proof {
                assert(rest.subrange(4, rest.len() as int) =~= text@.subrange(
                    i + 4,
                    text@.len() as int,
                ));
                lemma_prepend_assoc(
                    before,
                    seq![(hv * 16 + lv) as u8],
                    decode_spec(rest.subrange(4, rest.len() as int)),
                );
                assert(before + seq![(hv * 16 + lv) as u8] =~= out@);
            }
            i = i + 4;
        } else if is_plain_byte(b) {
            let ghost before = out@;
            out.push(b);
            proof {
                assert(rest.drop_first() =~= text@.subrange(i + 1, text@.len() as int));
                lemma_prepend_assoc(before, seq![b], decode_spec(rest.drop_first()));
                assert(before + seq![b] =~= out@);
            }
            i = i + 1;
        } else {
            return Err(ParseError::InvalidByte(b));
        }
    }
    proof {
        assert(text@.subrange(i as int, text@.len() as int) =~= Seq::<u8>::empty());
        assert(out@ + Seq::<u8>::empty() =~= out@);
    }
    Ok(out)
}

/// Relies on `String::from_utf8`: it succeeds exactly on well-formed UTF-8 and then
/// holds the characters that the bytes encode.
#[verifier::external_body]
pub(crate) fn string_from_utf8(bytes: Vec<u8>) -> (r: Option<String>)
    ensures
        r is Some <==> valid_utf8(bytes@),
        r matches Some(s) ==> s@ == decode_utf8(bytes@),
{
    String::from_utf8(bytes).ok()
}

/// An ASCII character sequence is encoded byte for byte, and decodes back to itself.
pub(crate) proof fn lemma_ascii_utf8(c: Seq<char>)
    requires
        is_ascii_chars(c),
    ensures
        valid_utf8(ascii_bytes(c)),
        decode_utf8(ascii_bytes(c)) == c,
{
    is_ascii_chars_encode_utf8(c);
    assert(encode_utf8(c) =~= ascii_bytes(c));
    encode_utf8_valid_utf8(c);
    encode_utf8_decode_utf8(c);
}

/// Turns a byte vector that holds ASCII characters into the string of those characters.
pub(crate) fn string_from_ascii(bytes: Vec<u8>, Ghost(c): Ghost<Seq<char>>) -> (r: String)
    requires
        is_ascii_chars(c),
        bytes@ == ascii_bytes(c),
    ensures
        r@ == c,
{
    proof {
        lemma_ascii_utf8(c);
    }
    match string_from_utf8(bytes) {
        Some(s) => s,
        None => {
            proof {
                assert(false);
            }
            String::new()
        },
    }
}

fn hex_digit_char(n: u8) -> (r: u8)
    requires
        n < 16,
    ensures
        r as char == hex_char(n),
        r < 128,
{
    if n < 10 {
        ('0' as u8) + n
    } else {
        ('a' as u8) + n - 10
    }
}

proof fn lemma_escape_byte_ascii(b: u8)
    ensures
        is_ascii_chars(escape_byte(b)),
{
    assert(b / 16 < 16 && b % 16 < 16);
}

/// Escapes a byte string so that only plain bytes, spaces and `\xHH` escapes remain.
pub fn encode(bytes: &[u8]) -> (r: String)
    ensures
        r@ == encode_spec(bytes@),
{
    let mut out: Vec<u8> = Vec::new();
    let mut i: usize = 0;
    while i < bytes.len()
        invariant
            i <= bytes@.len(),
            out@ == ascii_bytes(encode_spec(bytes@.subrange(0, i as int))),
            is_ascii_chars(encode_spec(bytes@.subrange(0, i as int))),
        decreases bytes@.len() - i,
    {
        let ghost done = encode_spec(bytes@.subrange(0, i as int));
        let b = bytes[i];
        if is_plain_byte(b) || b == (' ' as u8) {
            out.push(b);
        } else {
            out.push(('\\' as u8));
            out.push(('x' as u8));
            out.push(hex_digit_char(b / 16));
            out.push(hex_digit_char(b % 16));
        }
        proof {
            let next = bytes@.subrange(0, i + 1);
            assert(next.drop_last() =~= bytes@.subrange(0, i as int));
            assert(encode_spec(next) == done + escape_byte(b));
            lemma_escape_byte_ascii(b);
            assert(out@ =~= ascii_bytes(done + escape_byte(b)));
        }
        i = i + 1;
    }
    proof {
        assert(bytes@.subrange(0, i as int) =~= bytes@);
    }
    string_from_ascii(out, Ghost(encode_spec(bytes@)))
}

/// Decoding a concatenation whose first part decodes on its own decodes the two
/// parts one after the other.
proof fn lemma_decode_concat(x: Seq<u8>, y: Seq<u8>)
    requires
        decode_spec(x) is Ok,
    ensures
        decode_spec(x + y) == prepend(decode_spec(x)->Ok_0, decode_spec(y)),
    decreases x.len(),
{
    let xy = x + y;
    if x.len() == 0 {
        assert(xy =~= y);
        lemma_prepend_empty(decode_spec(y));
    } else if x[0] == ('\\' as u8) {
        let d = seq![(hex_value(x[2]) * 16 + hex_value(x[3])) as u8];
        let xr = x.subrange(4, x.len() as int);
        assert(xy[0] == x[0] && xy[1] == x[1] && xy[2] == x[2] && xy[3] == x[3]);
        assert(xy.subrange(4, xy.len() as int) =~= xr + y);
        lemma_decode_concat(xr, y);
        lemma_prepend_assoc(d, decode_spec(xr)->Ok_0, decode_spec(y));
    } else {
        let xr = x.drop_first();
        assert(xy[0] == x[0]);
        assert(xy.drop_first() =~= xr + y);
        lemma_decode_concat(xr, y);
        lemma_prepend_assoc(seq![x[0]], decode_spec(xr)->Ok_0, decode_spec(y));
    }
}

proof fn lemma_hex_char(n: u8)
    requires
        n < 16,
    ensures
        is_hex_digit(hex_char(n) as u8),
        hex_value(hex_char(n) as u8) == n,
{
}

proof fn lemma_decode_escape_byte(c: u8)
    requires
        c != (' ' as u8),
    ensures
        decode_spec(ascii_bytes(escape_byte(c))) == Ok::<Seq<u8>, ParseError>(seq![c]),
{
    let t = ascii_bytes(escape_byte(c));
    let empty = Seq::<u8>::empty();
    assert(decode_spec(empty) == Ok::<Seq<u8>, ParseError>(empty));
    assert(seq![c] + empty =~= seq![c]);
    if is_plain_for_encode(c) {
        assert(t.len() == 1);
        assert(t[0] == c);
        assert(t.drop_first() =~= empty);
    } else {
        lemma_hex_char(c / 16);
        lemma_hex_char(c % 16);
        assert(t.len() == 4);
        assert(t[0] == ('\\' as u8) && t[1] == ('x' as u8));
        assert(t[2] == hex_char(c / 16) as u8 && t[3] == hex_char(c % 16) as u8);
        assert(t.subrange(4, t.len() as int) =~= empty);
        assert(((c / 16) * 16 + c % 16) as u8 == c);
    }
}

/// Encoding a byte string that holds no space and decoding the result gives the
/// byte string back. (A space is passed through by the encoder but is not a plain
/// byte for the decoder.)
pub proof fn lemma_decode_encode(b: Seq<u8>)
    requires
        forall|i: int| 0 <= i < b.len() ==> b[i] != (' ' as u8),
    ensures
        decode_spec(encode_utf8(encode_spec(b))) == Ok::<Seq<u8>, ParseError>(b),
    decreases b.len(),
{
    lemma_encode_ascii(b);
    lemma_ascii_bytes_encode_utf8(encode_spec(b));
    lemma_decode_ascii_encode(b);
}

proof fn lemma_ascii_bytes_encode_utf8(c: Seq<char>)
    requires
        is_ascii_chars(c),
    ensures
        encode_utf8(c) == ascii_bytes(c),
{
    is_ascii_chars_encode_utf8(c);
    assert(encode_utf8(c) =~= ascii_bytes(c));
}

proof fn lemma_decode_ascii_encode(b: Seq<u8>)
    requires
        forall|i: int| 0 <= i < b.len() ==> b[i] != (' ' as u8),
    ensures
        decode_spec(ascii_bytes(encode_spec(b))) == Ok::<Seq<u8>, ParseError>(b),
    decreases b.len(),
{
    if b.len() == 0 {
        assert(ascii_bytes(encode_spec(b)) =~= Seq::<u8>::empty());
        assert(b =~= Seq::<u8>::empty());
        assert(decode_spec(Seq::<u8>::empty()) == Ok::<Seq<u8>, ParseError>(Seq::empty()));
    } else {
        let front = b.drop_last();
        lemma_decode_ascii_encode(front);
        lemma_decode_escape_byte(b.last());
        let x = ascii_bytes(encode_spec(front));
        let y = ascii_bytes(escape_byte(b.last()));
        assert(ascii_bytes(encode_spec(b)) =~= x + y);
        lemma_decode_concat(x, y);
        assert(front + seq![b.last()] =~= b);
        assert(decode_spec(x)->Ok_0 == front);
    }
}

/// The encoder's output is ASCII.
pub proof fn lemma_encode_ascii(b: Seq<u8>)
    ensures
        is_ascii_chars(encode_spec(b)),
    decreases b.len(),
{
    if b.len() > 0 {
        lemma_encode_ascii(b.drop_last());
        lemma_escape_byte_ascii(b.last());
    }
}

/// Whatever the bytes, the escaped text holds no quote and no parenthesis, so an
/// embedded path cannot close the string or the clause that holds it.
pub proof fn lemma_encode_no_delimiters(b: Seq<u8>)
    ensures
        forall|i: int|
            0 <= i < encode_spec(b).len() ==> {
                let c = #[trigger] encode_spec(b)[i];
                c != '"' && c != '(' && c != ')'
            },
    decreases b.len(),
{
    if b.len() > 0 {
        lemma_encode_no_delimiters(b.drop_last());
        let front = b.drop_last();
        let c = b.last();
        if !is_plain_for_encode(c) {
            lemma_hex_char(c / 16);
            lemma_hex_char(c % 16);
        }
        let e = escape_byte(c);
        assert(encode_spec(b) == encode_spec(front) + e);
        assert forall|i: int| 0 <= i < encode_spec(b).len() implies {
            let ch = #[trigger] encode_spec(b)[i];
            ch != '"' && ch != '(' && ch != ')'
        } by {
            if i < encode_spec(front).len() {
                assert(encode_spec(b)[i] == encode_spec(front)[i]);
            } else {
                assert(encode_spec(b)[i] == e[i - encode_spec(front).len()]);
            }
        }
    }
}

} // verus!
