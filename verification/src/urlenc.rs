//! Percent-encoding of URL path segments.
//!
//! A segment is encoded byte-wise over its UTF-8 encoding: unreserved bytes
//! (ASCII letters, digits, `-`, `.`, `_`, `~`) stand as themselves, every
//! other byte becomes `%` followed by two upper-case hex digits.  The
//! encoding never rejects an input, contains no `/`, and is injective: a
//! deterministic left-to-right decoding recovers the original segment.

use vstd::prelude::*;

verus! {

/// Unreserved characters are emitted unescaped: ASCII letters, digits and
/// `-` `.` `_` `~`.
pub open spec fn is_unreserved_char(c: char) -> bool {
    ||| 0x41 <= c as u32 <= 0x5A
    ||| 0x61 <= c as u32 <= 0x7A
    ||| 0x30 <= c as u32 <= 0x39
    ||| c as u32 == 0x2D
    ||| c as u32 == 0x2E
    ||| c as u32 == 0x5F
    ||| c as u32 == 0x7E
}

/// The upper-case hex digit for a nibble.
pub open spec fn spec_hex_digit(n: u8) -> char
    recommends
        n < 16,
{
    if n == 0 {
        '0'
    } else if n == 1 {
        '1'
    } else if n == 2 {
        '2'
    } else if n == 3 {
        '3'
    } else if n == 4 {
        '4'
    } else if n == 5 {
        '5'
    } else if n == 6 {
        '6'
    } else if n == 7 {
        '7'
    } else if n == 8 {
        '8'
    } else if n == 9 {
        '9'
    } else if n == 10 {
        'A'
    } else if n == 11 {
        'B'
    } else if n == 12 {
        'C'
    } else if n == 13 {
        'D'
    } else if n == 14 {
        'E'
    } else {
        'F'
    }
}

/// The nibble a hex digit stands for.
pub open spec fn spec_hex_val(c: char) -> u8 {
    if c == '0' {
        0
    } else if c == '1' {
        1
    } else if c == '2' {
        2
    } else if c == '3' {
        3
    } else if c == '4' {
        4
    } else if c == '5' {
        5
    } else if c == '6' {
        6
    } else if c == '7' {
        7
    } else if c == '8' {
        8
    } else if c == '9' {
        9
    } else if c == 'A' {
        10
    } else if c == 'B' {
        11
    } else if c == 'C' {
        12
    } else if c == 'D' {
        13
    } else if c == 'E' {
        14
    } else {
        15
    }
}

/// The sixteen upper-case hex digits.
pub open spec fn is_upper_hex_digit(c: char) -> bool {
    ||| c == '0'
    ||| c == '1'
    ||| c == '2'
    ||| c == '3'
    ||| c == '4'
    ||| c == '5'
    ||| c == '6'
    ||| c == '7'
    ||| c == '8'
    ||| c == '9'
    ||| c == 'A'
    ||| c == 'B'
    ||| c == 'C'
    ||| c == 'D'
    ||| c == 'E'
    ||| c == 'F'
}

/// Hex digits decode back to their nibble and are neither `%` nor `/`.
pub proof fn lemma_hex_digit_props(n: u8)
    requires
        n < 16,
    ensures
        is_upper_hex_digit(spec_hex_digit(n)),
        spec_hex_val(spec_hex_digit(n)) == n,
        spec_hex_digit(n) != '%',
        spec_hex_digit(n) != '/',
{
}

/// One escaped byte: `%` and two upper-case hex digits.
pub open spec fn spec_escape_byte(b: u8) -> Seq<char> {
    seq!['%', spec_hex_digit(b / 16), spec_hex_digit(b % 16)]
}

/// A run of escaped bytes.
pub open spec fn spec_escape_seq(bs: Seq<u8>) -> Seq<char>
    decreases bs.len(),
{
    if bs.len() == 0 {
        Seq::empty()
    } else {
        spec_escape_byte(bs[0]) + spec_escape_seq(bs.drop_first())
    }
}

/// The encoding of one character: itself when unreserved, otherwise every
/// byte of its UTF-8 encoding escaped.
pub open spec fn spec_encode_char(c: char) -> Seq<char> {
    if is_unreserved_char(c) {
        seq![c]
    } else {
        spec_escape_seq(vstd::utf8::encode_scalar(c as u32))
    }
}

/// The percent-encoding of a whole segment.
pub open spec fn spec_encode_component(s: Seq<char>) -> Seq<char>
    decreases s.len(),
{
    if s.len() == 0 {
        Seq::empty()
    } else {
        spec_encode_char(s[0]) + spec_encode_component(s.drop_first())
    }
}

/// Deterministic left-to-right unescaping to bytes: a `%` consumes two hex
/// digits and yields that byte; any other character yields its own UTF-8
/// bytes.
pub open spec fn spec_unescape(t: Seq<char>) -> Option<Seq<u8>>
    decreases t.len(),
{
    if t.len() == 0 {
        Some(Seq::empty())
    } else if t[0] == '%' {
        if t.len() >= 3 && is_upper_hex_digit(t[1]) && is_upper_hex_digit(t[2]) {
            match spec_unescape(t.skip(3)) {
                Some(r) => Some(seq![((16 * spec_hex_val(t[1]) + spec_hex_val(t[2])) as u8)] + r),
                None => None,
            }
        } else {
            None
        }
    } else {
        match spec_unescape(t.skip(1)) {
            Some(r) => Some(vstd::utf8::encode_scalar(t[0] as u32) + r),
            None => None,
        }
    }
}

/// Decoding a segment: unescape to bytes, then decode the bytes as UTF-8.
pub open spec fn spec_decode_component(t: Seq<char>) -> Option<Seq<char>> {
    match spec_unescape(t) {
        Some(bs) => if vstd::utf8::valid_utf8(bs) {
            Some(vstd::utf8::decode_utf8(bs))
        } else {
            None
        },
        None => None,
    }
}

/// The three characters of an escaped byte carry the byte exactly, and none
/// of them is `/`.
pub proof fn lemma_escape_byte(b: u8)
    ensures
        spec_escape_byte(b).len() == 3,
        spec_escape_byte(b)[0] == '%',
        is_upper_hex_digit(spec_escape_byte(b)[1]),
        is_upper_hex_digit(spec_escape_byte(b)[2]),
        16 * spec_hex_val(spec_escape_byte(b)[1]) + spec_hex_val(spec_escape_byte(b)[2]) == b,
        forall|j: int| 0 <= j < 3 ==> spec_escape_byte(b)[j] != '/',
{
    lemma_hex_digit_props(b / 16);
    lemma_hex_digit_props(b % 16);
}

/// Unescaping a run of escaped bytes peels the bytes off in front.
pub proof fn lemma_unescape_escape_seq(bs: Seq<u8>, rest: Seq<char>)
    ensures
        spec_unescape(spec_escape_seq(bs) + rest) == match spec_unescape(rest) {
            Some(r) => Some(bs + r),
            None => None::<Seq<u8>>,
        },
    decreases bs.len(),
{
    if bs.len() == 0 {
        assert(spec_escape_seq(bs) + rest =~= rest);
        if spec_unescape(rest) is Some {
            assert(bs + spec_unescape(rest)->Some_0 =~= spec_unescape(rest)->Some_0);
        }
    } else {
        let t = spec_escape_seq(bs) + rest;
        lemma_escape_byte(bs[0]);
        assert(t.skip(3) =~= spec_escape_seq(bs.drop_first()) + rest);
        lemma_unescape_escape_seq(bs.drop_first(), rest);
        if spec_unescape(rest) is Some {
            let r = spec_unescape(rest)->Some_0;
            assert(seq![bs[0]] + (bs.drop_first() + r) =~= bs + r);
        }
    }
}

/// Unescaping the encoding of a segment gives exactly the segment's UTF-8
/// bytes.
pub proof fn lemma_unescape_encode(s: Seq<char>)
    ensures
        spec_unescape(spec_encode_component(s)) == Some(vstd::utf8::encode_utf8(s)),
    decreases s.len(),
{
    if s.len() == 0 {
        assert(spec_encode_component(s) =~= Seq::<char>::empty());
        assert(vstd::utf8::encode_utf8(s) =~= Seq::<u8>::empty());
    } else {
        let c = s[0];
        let rest = s.drop_first();
        lemma_unescape_encode(rest);
        let enc_rest = spec_encode_component(rest);
        let bytes_rest = vstd::utf8::encode_utf8(rest);
        if is_unreserved_char(c) {
            let t = seq![c] + enc_rest;
            assert(spec_encode_component(s) == t);
            assert(c != '%');
            assert(t[0] == c);
            assert(t.skip(1) =~= enc_rest);
            assert(vstd::utf8::encode_scalar(c as u32) + bytes_rest == vstd::utf8::encode_utf8(
                s,
            ));
        } else {
            let eb = vstd::utf8::encode_scalar(c as u32);
            lemma_unescape_escape_seq(eb, enc_rest);
            assert(spec_encode_component(s) == spec_escape_seq(eb) + enc_rest);
            assert(eb + bytes_rest == vstd::utf8::encode_utf8(s));
        }
    }
}

/// Round trip: decoding recovers exactly what was encoded; hence the
/// encoding is injective.
pub proof fn lemma_decode_encode(s: Seq<char>)
    ensures
        spec_decode_component(spec_encode_component(s)) == Some(s),
{
    lemma_unescape_encode(s);
    vstd::utf8::encode_utf8_valid_utf8(s);
    vstd::utf8::encode_utf8_decode_utf8(s);
}

/// The encoding of a segment never holds a `/`.
pub proof fn lemma_encode_no_slash(s: Seq<char>)
    ensures
        forall|j: int| 0 <= j < spec_encode_component(s).len() ==> spec_encode_component(s)[j]
            != '/',
    decreases s.len(),
{
    if s.len() > 0 {
        let c = s[0];
        let rest = s.drop_first();
        lemma_encode_no_slash(rest);
        let head = spec_encode_char(c);
        assert forall|j: int| 0 <= j < head.len() implies head[j] != '/' by {
            if is_unreserved_char(c) {
                assert(head[j] == c);
                assert(c != '/');
            } else {
                lemma_escape_seq_no_slash(vstd::utf8::encode_scalar(c as u32));
            }
        }
        assert(forall|j: int| 0 <= j < spec_encode_component(s).len()
            ==> spec_encode_component(s)[j] == (head + spec_encode_component(rest))[j]);
    }
}

/// No character of an escape run is a `/`.
pub proof fn lemma_escape_seq_no_slash(bs: Seq<u8>)
    ensures
        forall|j: int| 0 <= j < spec_escape_seq(bs).len() ==> spec_escape_seq(bs)[j] != '/',
    decreases bs.len(),
{
    if bs.len() > 0 {
        lemma_escape_byte(bs[0]);
        lemma_escape_seq_no_slash(bs.drop_first());
        let whole = spec_escape_seq(bs);
        assert(whole == spec_escape_byte(bs[0]) + spec_escape_seq(bs.drop_first()));
        assert forall|j: int| 0 <= j < whole.len() implies whole[j] != '/' by {
            if j < 3 {
                assert(whole[j] == spec_escape_byte(bs[0])[j]);
            } else {
                assert(whole[j] == spec_escape_seq(bs.drop_first())[j - 3]);
            }
        }
    }
}

/// An escape run of one byte is that byte's escape.
proof fn lemma_escape_seq_singleton(b: u8)
    ensures
        spec_escape_seq(seq![b]) == spec_escape_byte(b),
{
    let bs = seq![b];
    assert(bs.drop_first() =~= Seq::<u8>::empty());
    assert(spec_escape_seq(bs.drop_first()) == Seq::<char>::empty());
    assert(spec_escape_seq(bs) == spec_escape_byte(b) + spec_escape_seq(bs.drop_first()));
    assert(spec_escape_byte(b) + Seq::<char>::empty() =~= spec_escape_byte(b));
}

/// The encoding of a one-character segment is that character's encoding.
proof fn lemma_encode_singleton(c: char)
    ensures
        spec_encode_component(seq![c]) == spec_encode_char(c),
{
    let s = seq![c];
    assert(s.drop_first() =~= Seq::<char>::empty());
    assert(spec_encode_component(s.drop_first()) == Seq::<char>::empty());
    assert(spec_encode_component(s) == spec_encode_char(c) + spec_encode_component(s.drop_first()));
    assert(spec_encode_char(c) + Seq::<char>::empty() =~= spec_encode_char(c));
}

/// Encoding distributes over concatenation.
pub proof fn lemma_encode_append(a: Seq<char>, b: Seq<char>)
    ensures
        spec_encode_component(a + b) == spec_encode_component(a) + spec_encode_component(b),
    decreases a.len(),
{
    if a.len() == 0 {
        assert(a + b =~= b);
        assert(spec_encode_component(a) + spec_encode_component(b) =~= spec_encode_component(b));
    } else {
        assert((a + b).drop_first() =~= a.drop_first() + b);
        lemma_encode_append(a.drop_first(), b);
        assert(spec_encode_char((a + b)[0]) + (spec_encode_component(a.drop_first())
            + spec_encode_component(b)) =~= (spec_encode_char(a[0]) + spec_encode_component(
            a.drop_first(),
        )) + spec_encode_component(b));
    }
}

/// The upper-case hex digit for a nibble.
fn hex_digit(n: u8) -> (c: char)
    requires
        n < 16,
    ensures
        c == spec_hex_digit(n),
{
    if n == 0 {
        '0'
    } else if n == 1 {
        '1'
    } else if n == 2 {
        '2'
    } else if n == 3 {
        '3'
    } else if n == 4 {
        '4'
    } else if n == 5 {
        '5'
    } else if n == 6 {
        '6'
    } else if n == 7 {
        '7'
    } else if n == 8 {
        '8'
    } else if n == 9 {
        '9'
    } else if n == 10 {
        'A'
    } else if n == 11 {
        'B'
    } else if n == 12 {
        'C'
    } else if n == 13 {
        'D'
    } else if n == 14 {
        'E'
    } else {
        'F'
    }
}

/// Appends `%XX` for one byte.
fn push_escaped_byte(out: &mut String, b: u8)
    ensures
        final(out)@ == old(out)@ + spec_escape_byte(b),
{
    out.push('%');
    out.push(hex_digit(b / 16));
    out.push(hex_digit(b % 16));
    proof {
        assert(final(out)@ =~= old(out)@ + spec_escape_byte(b));
    }
}

/// Appends the encoding of one character.
fn push_encoded_char(out: &mut String, c: char)
    ensures
        final(out)@ == old(out)@ + spec_encode_char(c),
{
    broadcast use vstd::utf8::char_is_scalar;

    let u = c as u32;
    if (0x41 <= u && u <= 0x5A) || (0x61 <= u && u <= 0x7A) || (0x30 <= u && u <= 0x39) || u
        == 0x2D || u == 0x2E || u == 0x5F || u == 0x7E {
        out.push(c);
        proof {
            assert(final(out)@ =~= old(out)@ + spec_encode_char(c));
        }
    } else if u < 0x80 {
        push_escaped_byte(out, (u & 0x7F) as u8);
        proof {
            let eb = vstd::utf8::encode_scalar(u);
            assert(eb == seq![vstd::utf8::leading_byte_width_1(u)]);
            assert(spec_escape_seq(eb) =~= spec_escape_byte(eb[0]) + spec_escape_seq(
                eb.drop_first(),
            ));
            assert(spec_escape_seq(eb.drop_first()) =~= Seq::<char>::empty());
            assert(spec_escape_seq(eb) =~= spec_escape_byte(eb[0]));
            assert(final(out)@ =~= old(out)@ + spec_encode_char(c));
        }
    } else if u < 0x800 {
        let b0: u8 = 0xC0 | ((u >> 6) & 0x1F) as u8;
        let b1: u8 = 0x80 | (u & 0x3F) as u8;
        push_escaped_byte(out, b0);
        push_escaped_byte(out, b1);
        proof {
            let eb = vstd::utf8::encode_scalar(u);
            assert(eb == seq![b0, b1]);
            lemma_escape_seq_two(b0, b1);
            assert(final(out)@ =~= old(out)@ + spec_encode_char(c));
        }
    } else if u < 0x10000 {
        let b0: u8 = 0xE0 | ((u >> 12) & 0x0F) as u8;
        let b1: u8 = 0x80 | ((u >> 6) & 0x3F) as u8;
        let b2: u8 = 0x80 | (u & 0x3F) as u8;
        push_escaped_byte(out, b0);
        push_escaped_byte(out, b1);
        push_escaped_byte(out, b2);
        proof {
            let eb = vstd::utf8::encode_scalar(u);
            assert(eb == seq![b0, b1, b2]);
            lemma_escape_seq_three(b0, b1, b2);
            assert(final(out)@ =~= old(out)@ + spec_encode_char(c));
        }
    } else {
        let b0: u8 = 0xF0 | ((u >> 18) & 0x7) as u8;
        let b1: u8 = 0x80 | ((u >> 12) & 0x3F) as u8;
        let b2: u8 = 0x80 | ((u >> 6) & 0x3F) as u8;
        let b3: u8 = 0x80 | (u & 0x3F) as u8;
        push_escaped_byte(out, b0);
        push_escaped_byte(out, b1);
        push_escaped_byte(out, b2);
        push_escaped_byte(out, b3);
        proof {
            let eb = vstd::utf8::encode_scalar(u);
            assert(eb == seq![b0, b1, b2, b3]);
            lemma_escape_seq_four(b0, b1, b2, b3);
            assert(final(out)@ =~= old(out)@ + spec_encode_char(c));
        }
    }
}

proof fn lemma_escape_seq_two(b0: u8, b1: u8)
    ensures
        spec_escape_seq(seq![b0, b1]) == spec_escape_byte(b0) + spec_escape_byte(b1),
{
    let bs = seq![b0, b1];
    assert(bs.drop_first() =~= seq![b1]);
    lemma_escape_seq_singleton(b1);
    assert(spec_escape_seq(bs) =~= spec_escape_byte(b0) + spec_escape_byte(b1));
}

proof fn lemma_escape_seq_three(b0: u8, b1: u8, b2: u8)
    ensures
        spec_escape_seq(seq![b0, b1, b2]) == spec_escape_byte(b0) + spec_escape_byte(b1)
            + spec_escape_byte(b2),
{
    let bs = seq![b0, b1, b2];
    assert(bs.drop_first() =~= seq![b1, b2]);
    lemma_escape_seq_two(b1, b2);
    assert(spec_escape_seq(bs) =~= spec_escape_byte(b0) + spec_escape_byte(b1) + spec_escape_byte(
        b2,
    ));
}

proof fn lemma_escape_seq_four(b0: u8, b1: u8, b2: u8, b3: u8)
    ensures
        spec_escape_seq(seq![b0, b1, b2, b3]) == spec_escape_byte(b0) + spec_escape_byte(b1)
            + spec_escape_byte(b2) + spec_escape_byte(b3),
{
    let bs = seq![b0, b1, b2, b3];
    assert(bs.drop_first() =~= seq![b1, b2, b3]);
    lemma_escape_seq_three(b1, b2, b3);
    assert(spec_escape_seq(bs) =~= spec_escape_byte(b0) + spec_escape_byte(b1) + spec_escape_byte(
        b2,
    ) + spec_escape_byte(b3));
}

/// Percent-encodes one URL path segment.  Deterministic, never rejects an
/// input, and injective (see [`lemma_decode_encode`]).
pub fn encode_segment(s: &str) -> (r: String)
    ensures
        r@ == spec_encode_component(s@),
{
    let n = s.unicode_len();
    let mut out = String::new();
    let mut i: usize = 0;
    while i < n
        invariant
            n == s@.len(),
            i <= n,
            out@ == spec_encode_component(s@.take(i as int)),
        decreases n - i,
    {
        let c = s.get_char(i);
        push_encoded_char(&mut out, c);
        proof {
            assert(s@.take(i + 1 as int) =~= s@.take(i as int) + seq![s@[i as int]]);
            lemma_encode_append(s@.take(i as int), seq![s@[i as int]]);
            lemma_encode_singleton(s@[i as int]);
        }
        i = i + 1;
    }
    proof {
        assert(s@.take(n as int) =~= s@);
    }
    out
}

} // verus!
