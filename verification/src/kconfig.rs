//! Qt's INI representation of a `QByteArray`, as `KConfig` stores it:
//! `@ByteArray(...)` with backslash escapes.

use vstd::prelude::*;

use crate::text::push_char;
use vstd::string::StringSliceAdditionalSpecFns;

use crate::input_mapping::InputMapError;

verus! {

/// The bytes of `@ByteArray(`.
pub open spec fn wrapper_prefix() -> Seq<u8> {
    seq![64u8, 66, 121, 116, 101, 65, 114, 114, 97, 121, 40]
}

/// `)`, which closes the wrapper.
pub const CLOSE_PAREN: u8 = 41;
/// `\`, which starts an escape.
pub const BACKSLASH: u8 = 92;

/// The value of a hexadecimal digit, in either case.
pub open spec fn hex_value(c: u8) -> Option<u8> {
    if 48 <= c <= 57 {
        Some((c - 48) as u8)
    } else if 97 <= c <= 102 {
        Some((c - 97 + 10) as u8)
    } else if 65 <= c <= 70 {
        Some((c - 65 + 10) as u8)
    } else {
        None
    }
}

/// The byte that a single-character escape `\c` stands for, if any.
pub open spec fn simple_escape(c: u8) -> Option<u8> {
    if c == 48 {
        Some(0u8)
    } else if c == 97 {
        Some(7u8)
    } else if c == 98 {
        Some(8u8)
    } else if c == 116 {
        Some(9u8)
    } else if c == 110 {
        Some(10u8)
    } else if c == 118 {
        Some(11u8)
    } else if c == 102 {
        Some(12u8)
    } else if c == 114 {
        Some(13u8)
    } else if c == BACKSLASH || c == CLOSE_PAREN {
        Some(c)
    } else {
        None
    }
}

/// Decoding of `body` from position `i`, after `acc` was decoded from the
/// bytes before it. A plain byte stands for itself; `\` followed by one of
/// `0abtnvfr\)` stands for that escape; `\x` followed by one or two
/// hexadecimal digits stands for their value. Any other `\` is an invalid
/// escape, reported at the position of the backslash.
pub open spec fn kdec(body: Seq<u8>, i: nat, acc: Seq<u8>) -> Result<Seq<u8>, InputMapError>
    decreases body.len() - i,
{
    if i >= body.len() {
        Ok(acc)
    } else if body[i as int] != BACKSLASH {
        kdec(body, i + 1, acc.push(body[i as int]))
    } else if i + 1 >= body.len() {
        Err(InputMapError::InvalidEscape { offset: i as usize })
    } else {
        let c = body[i as int + 1];
        match simple_escape(c) {
            Some(v) => kdec(body, i + 2, acc.push(v)),
            None => if c == 120 {
                if i + 2 >= body.len() {
                    Err(InputMapError::InvalidEscape { offset: i as usize })
                } else {
                    match hex_value(body[i as int + 2]) {
                        None => Err(InputMapError::InvalidEscape { offset: i as usize }),
                        Some(h) => if i + 3 < body.len() && hex_value(body[i as int + 3]) is Some {
                            kdec(body, i + 4, acc.push((h * 16 + hex_value(body[i as int + 3])->0) as u8))
                        } else {
                            kdec(body, i + 3, acc.push(h))
                        },
                    }
                }
            } else {
                Err(InputMapError::InvalidEscape { offset: i as usize })
            },
        }
    }
}

/// Whether `b` is wrapped as `@ByteArray(...)`.
pub open spec fn is_wrapped(b: Seq<u8>) -> bool {
    b.len() >= 12 && b.subrange(0, 11) == wrapper_prefix() && b.last() == CLOSE_PAREN
}

/// Decoding of a complete value, given as its UTF-8 bytes.
pub open spec fn kdecode(b: Seq<u8>) -> Result<Seq<u8>, InputMapError> {
    if is_wrapped(b) {
        kdec(b.subrange(11, b.len() - 1), 0, Seq::empty())
    } else {
        Err(InputMapError::InvalidByteArrayWrapper)
    }
}

fn hex_digit_value(c: u8) -> (r: Option<u8>)
    ensures
        r == hex_value(c),
{
    if 48 <= c && c <= 57 {
        Some(c - 48)
    } else if 97 <= c && c <= 102 {
        Some(c - 97 + 10)
    } else if 65 <= c && c <= 70 {
        Some(c - 65 + 10)
    } else {
        None
    }
}

fn escape_value(c: u8) -> (r: Option<u8>)
    ensures
        r == simple_escape(c),
{
    if c == 48 {
        Some(0)
    } else if c == 97 {
        Some(7)
    } else if c == 98 {
        Some(8)
    } else if c == 116 {
        Some(9)
    } else if c == 110 {
        Some(10)
    } else if c == 118 {
        Some(11)
    } else if c == 102 {
        Some(12)
    } else if c == 114 {
        Some(13)
    } else if c == BACKSLASH || c == CLOSE_PAREN {
        Some(c)
    } else {
        None
    }
}

fn has_wrapper(b: &[u8]) -> (r: bool)
    ensures
        r == is_wrapped(b@),
{
    let prefix: [u8; 11] = [64u8, 66, 121, 116, 101, 65, 114, 114, 97, 121, 40];
    assert(prefix@ =~= wrapper_prefix());
    let n = b.len();
    if n < 12 || b[n - 1] != CLOSE_PAREN {
        return false;
    }
    let mut i: usize = 0;
    while i < 11
        invariant
            i <= 11,
            n == b@.len(),
            n >= 12,
            prefix@ == wrapper_prefix(),
            forall|j: int| 0 <= j < i ==> b@[j] == wrapper_prefix()[j],
        decreases 11 - i,
    {
        if b[i] != prefix[i] {
            assert(b@.subrange(0, 11)[i as int] != wrapper_prefix()[i as int]);
            return false;
        }
        i = i + 1;
    }
    assert(b@.subrange(0, 11) =~= wrapper_prefix());
    true
}

/// Decode Qt's INI representation of a `QByteArray`.
///
/// Fails with `InvalidByteArrayWrapper` when the value is not wrapped as
/// `@ByteArray(...)`, and with `InvalidEscape` at the first malformed escape.
pub fn decode_kconfig_byte_array(value: &str) -> (r: Result<Vec<u8>, InputMapError>)
    ensures
        match kdecode(value.spec_bytes()) {
            Ok(b) => r matches Ok(v) && v@ == b,
            Err(e) => r == Err::<Vec<u8>, InputMapError>(e),
        },
{
    let bytes = value.as_bytes();
    if !has_wrapper(bytes) {
        return Err(InputMapError::InvalidByteArrayWrapper);
    }
    let ghost body = bytes@.subrange(11, bytes@.len() - 1);
    let len = bytes.len() - 12;
    let mut output: Vec<u8> = Vec::new();
    let mut index: usize = 0;
    while index < len
        invariant
            index <= len + 1,
            len == body.len(),
            bytes@.len() == len + 12,
            bytes.len() == len + 12,
            bytes@ == value.spec_bytes(),
            body == bytes@.subrange(11, bytes@.len() - 1),
            kdecode(bytes@) == kdec(body, 0, Seq::empty()),
            kdec(body, 0, Seq::empty()) == kdec(body, index as nat, output@),
        decreases len + 1 - index,
    {
        let c = bytes[11 + index];
        assert(c == body[index as int]);
        if c != BACKSLASH {
            output.push(c);
            index = index + 1;
            continue;
        }
        let escape_offset = index;
        if index + 1 >= len {
            return Err(InputMapError::InvalidEscape { offset: escape_offset });
        }
        let escaped = bytes[11 + index + 1];
        assert(escaped == body[index + 1]);
        match escape_value(escaped) {
            Some(v) => {
                output.push(v);
                index = index + 2;
            },
            None => {
                if escaped != 120 {
                    return Err(InputMapError::InvalidEscape { offset: escape_offset });
                }
                if index + 2 >= len {
                    return Err(InputMapError::InvalidEscape { offset: escape_offset });
                }
                let first = bytes[11 + index + 2];
                assert(first == body[index + 2]);
                let h = match hex_digit_value(first) {
                    Some(h) => h,
                    None => {
                        return Err(InputMapError::InvalidEscape { offset: escape_offset });
                    },
                };
                if index + 3 < len {
                    let second = bytes[11 + index + 3];
                    assert(second == body[index + 3]);
                    match hex_digit_value(second) {
                        Some(l) => {
                            output.push(h * 16 + l);
                            index = index + 4;
                            continue;
                        },
                        None => {},
                    }
                }
                output.push(h);
                index = index + 3;
            },
        }
    }
    Ok(output)
}

// ---------------------------------------------------------------------------
// Encoding.
// ---------------------------------------------------------------------------

/// Lower-case hexadecimal digit for a value below 16.
pub open spec fn hex_digit(n: int) -> u8 {
    if n < 10 {
        (48 + n) as u8
    } else {
        (87 + n) as u8
    }
}

/// The escape written for one byte: `\0` for zero, otherwise `\x` and the
/// byte in lower-case hexadecimal without leading zero. Every nonzero byte is
/// escaped so that a following hexadecimal character cannot be read as part
/// of its escape.
pub open spec fn escape_bytes(b: u8) -> Seq<u8> {
    if b == 0 {
        seq![BACKSLASH, 48u8]
    } else if b < 16 {
        seq![BACKSLASH, 120u8, hex_digit(b as int)]
    } else {
        seq![BACKSLASH, 120u8, hex_digit((b / 16) as int), hex_digit((b % 16) as int)]
    }
}

/// The escapes of all bytes, in order.
pub open spec fn escaped(bytes: Seq<u8>) -> Seq<u8>
    decreases bytes.len(),
{
    if bytes.len() == 0 {
        Seq::empty()
    } else {
        escaped(bytes.drop_last()) + escape_bytes(bytes.last())
    }
}

/// The `@ByteArray(...)` value for `bytes`, as bytes.
pub open spec fn kencode_bytes(bytes: Seq<u8>) -> Seq<u8> {
    wrapper_prefix() + escaped(bytes) + seq![CLOSE_PAREN]
}

/// ASCII bytes read as text.
pub open spec fn ascii_text(b: Seq<u8>) -> Seq<char> {
    b.map_values(|x: u8| x as char)
}

fn push_byte_char(s: &mut String, b: u8)
    requires
        b < 128,
    ensures
        final(s)@ == old(s)@ + ascii_text(seq![b]),
{
    push_char(s, b as char);
    assert(final(s)@ =~= old(s)@ + ascii_text(seq![b]));
}

fn hex_digit_of(n: u8) -> (c: u8)
    requires
        n < 16,
    ensures
        c == hex_digit(n as int),
        c < 128,
{
    if n < 10 {
        48 + n
    } else {
        87 + n
    }
}

proof fn lemma_ascii_text_concat(a: Seq<u8>, b: Seq<u8>)
    ensures
        ascii_text(a + b) == ascii_text(a) + ascii_text(b),
{
    assert(ascii_text(a + b) =~= ascii_text(a) + ascii_text(b));
}

/// Encode bytes using the escape syntax accepted by Qt's INI backend.
pub fn encode_kconfig_byte_array(bytes: &[u8]) -> (s: String)
    ensures
        s@ == ascii_text(kencode_bytes(bytes@)),
{
    let mut output = String::new();
    let prefix: [u8; 11] = [64u8, 66, 121, 116, 101, 65, 114, 114, 97, 121, 40];
    assert(prefix@ =~= wrapper_prefix());
    let mut k: usize = 0;
    while k < 11
        invariant
            k <= 11,
            prefix@ == wrapper_prefix(),
            output@ == ascii_text(wrapper_prefix().take(k as int)),
        decreases 11 - k,
    {
        let ghost before = output@;
        push_byte_char(&mut output, prefix[k]);
        proof {
            assert(wrapper_prefix().take(k + 1) =~= wrapper_prefix().take(k as int) + seq![
                prefix[k as int],
            ]);
            lemma_ascii_text_concat(wrapper_prefix().take(k as int), seq![prefix[k as int]]);
        }
        k = k + 1;
    }
    assert(wrapper_prefix().take(11) =~= wrapper_prefix());
    let ghost start = output@;
    let mut i: usize = 0;
    while i < bytes.len()
        invariant
            i <= bytes@.len(),
            start == ascii_text(wrapper_prefix()),
            output@ == start + ascii_text(escaped(bytes@.take(i as int))),
        decreases bytes@.len() - i,
    {
        let byte = bytes[i];
        let ghost before = output@;
        push_byte_char(&mut output, BACKSLASH);
        if byte == 0 {
            push_byte_char(&mut output, 48);
        } else {
            push_byte_char(&mut output, 120);
            if byte >= 16 {
                push_byte_char(&mut output, hex_digit_of(byte / 16));
            }
            push_byte_char(&mut output, hex_digit_of(byte % 16));
        }
        proof {
            assert(output@ =~= before + ascii_text(escape_bytes(byte)));
            assert(bytes@.take(i + 1).drop_last() =~= bytes@.take(i as int));
            lemma_ascii_text_concat(escaped(bytes@.take(i as int)), escape_bytes(byte));
        }
        i = i + 1;
        assert(output@ =~= start + ascii_text(escaped(bytes@.take(i as int))));
    }
    assert(bytes@.take(i as int) =~= bytes@);
    push_byte_char(&mut output, CLOSE_PAREN);
    proof {
        lemma_ascii_text_concat(wrapper_prefix(), escaped(bytes@));
        lemma_ascii_text_concat(wrapper_prefix() + escaped(bytes@), seq![CLOSE_PAREN]);
    }
    output
}

// ---------------------------------------------------------------------------
// Decoding undoes encoding.
// ---------------------------------------------------------------------------

pub open spec fn all_ascii(b: Seq<u8>) -> bool {
    forall|i: int| 0 <= i < b.len() ==> #[trigger] b[i] < 128
}

proof fn lemma_escaped_ascii(bytes: Seq<u8>)
    ensures
        all_ascii(escaped(bytes)),
    decreases bytes.len(),
{
    if bytes.len() > 0 {
        lemma_escaped_ascii(bytes.drop_last());
        let a = escaped(bytes.drop_last());
        let e = escape_bytes(bytes.last());
        assert forall|i: int| 0 <= i < (a + e).len() implies #[trigger] (a + e)[i] < 128 by {
            if i < a.len() {
                assert((a + e)[i] == a[i]);
            } else {
                assert((a + e)[i] == e[i - a.len()]);
            }
        }
    }
}

proof fn lemma_ascii_utf8(x: Seq<u8>)
    requires
        all_ascii(x),
    ensures
        vstd::utf8::encode_utf8(ascii_text(x)) == x,
{
    let t = ascii_text(x);
    assert forall|i: int| 0 <= i < t.len() implies '\0' <= #[trigger] t[i] <= '\u{7f}' by {
        assert(x[i] < 128);
    }
    vstd::utf8::is_ascii_chars_encode_utf8(t);
    let e = vstd::utf8::encode_utf8(t);
    assert forall|i: int| 0 <= i < x.len() implies #[trigger] e[i] == x[i] by {
        assert(t[i] as u8 == e[i]);
        assert(x[i] < 128);
        assert(t[i] == x[i] as char);
    }
    assert(e =~= x);
}

proof fn lemma_hex_digit(n: int)
    requires
        0 <= n < 16,
    ensures
        hex_value(hex_digit(n)) == Some(n as u8),
{
}

/// One escape, followed by the end of the body or by another escape, decodes
/// to its byte.
proof fn lemma_kdec_token(body: Seq<u8>, j: int, acc: Seq<u8>, x: u8)
    requires
        0 <= j,
        j + escape_bytes(x).len() <= body.len(),
        body.subrange(j, j + escape_bytes(x).len()) == escape_bytes(x),
        j + escape_bytes(x).len() == body.len() || body[j + escape_bytes(x).len()] == BACKSLASH,
    ensures
        kdec(body, j as nat, acc) == kdec(body, (j + escape_bytes(x).len()) as nat, acc.push(x)),
{
    let e = escape_bytes(x);
    let n = e.len();
    assert forall|k: int| 0 <= k < n implies body[j + k] == #[trigger] e[k] by {
        assert(body.subrange(j, j + n)[k] == e[k]);
    }
    assert(body[j] == BACKSLASH);
    if x == 0 {
        assert(body[j + 1] == 48);
    } else if x < 16 {
        assert(body[j + 1] == 120);
        lemma_hex_digit(x as int);
        assert(body[j + 2] == hex_digit(x as int));
        assert(hex_value(body[j + 2]) == Some(x));
        if j + 3 < body.len() {
            assert(body[j + 3] == BACKSLASH);
        }
    } else {
        assert(body[j + 1] == 120);
        lemma_hex_digit((x / 16) as int);
        lemma_hex_digit((x % 16) as int);
        assert(body[j + 2] == hex_digit((x / 16) as int));
        assert(body[j + 3] == hex_digit((x % 16) as int));
        assert(((x / 16) as u8 * 16 + (x % 16) as u8) as u8 == x);
    }
}

proof fn lemma_kdec_escaped(body: Seq<u8>, acc: Seq<u8>, bytes: Seq<u8>)
    requires
        escaped(bytes).len() <= body.len(),
        body.subrange(0, escaped(bytes).len() as int) == escaped(bytes),
        escaped(bytes).len() == body.len() || body[escaped(bytes).len() as int] == BACKSLASH,
    ensures
        kdec(body, 0, acc) == kdec(body, escaped(bytes).len(), acc + bytes),
    decreases bytes.len(),
{
    if bytes.len() == 0 {
        assert(acc + bytes =~= acc);
    } else {
        let init = bytes.drop_last();
        let x = bytes.last();
        let a = escaped(init);
        let e = escape_bytes(x);
        assert(escaped(bytes) == a + e);
        assert(body.subrange(0, a.len() as int) =~= (a + e).subrange(0, a.len() as int));
        assert((a + e).subrange(0, a.len() as int) =~= a);
        assert(body[a.len() as int] == (a + e)[a.len() as int]);
        assert(body[a.len() as int] == BACKSLASH);
        lemma_kdec_escaped(body, acc, init);
        assert(body.subrange(a.len() as int, (a.len() + e.len()) as int) =~= e) by {
            assert forall|k: int| 0 <= k < e.len() implies body.subrange(
                a.len() as int,
                (a.len() + e.len()) as int,
            )[k] == e[k] by {
                assert(body.subrange(0, (a + e).len() as int)[a.len() + k] == (a + e)[a.len()
                    + k]);
            }
        }
        lemma_kdec_token(body, a.len() as int, acc + init, x);
        assert((acc + init).push(x) =~= acc + bytes);
    }
}

/// The letter of the single-character escape Qt writes for `b`: `\0`,
/// `\a`, `\b`, `\t`, `\n`, `\v`, `\f`, `\r` for the C control
/// characters they name, and `\\` for the backslash; none for any other
/// byte.
pub open spec fn c_escape_letter(b: u8) -> Option<u8> {
    if b == 0 {
        Some(48u8)
    } else if b == 7 {
        Some(97u8)
    } else if b == 8 {
        Some(98u8)
    } else if b == 9 {
        Some(116u8)
    } else if b == 10 {
        Some(110u8)
    } else if b == 11 {
        Some(118u8)
    } else if b == 12 {
        Some(102u8)
    } else if b == 13 {
        Some(114u8)
    } else if b == 92 {
        Some(92u8)
    } else {
        None
    }
}

/// A byte written with its single-character escape where it has one, and
/// as a hexadecimal escape otherwise.
pub open spec fn c_escape_bytes(b: u8) -> Seq<u8> {
    match c_escape_letter(b) {
        Some(c) => seq![BACKSLASH, c],
        None => escape_bytes(b),
    }
}

/// The bytes written one escape after another, as above.
pub open spec fn c_escaped(bytes: Seq<u8>) -> Seq<u8>
    decreases bytes.len(),
{
    if bytes.len() == 0 {
        Seq::empty()
    } else {
        c_escaped(bytes.drop_last()) + c_escape_bytes(bytes.last())
    }
}

proof fn lemma_kdec_c_token(body: Seq<u8>, j: int, acc: Seq<u8>, x: u8)
    requires
        0 <= j,
        j + c_escape_bytes(x).len() <= body.len(),
        body.subrange(j, j + c_escape_bytes(x).len()) == c_escape_bytes(x),
        j + c_escape_bytes(x).len() == body.len() || body[j + c_escape_bytes(x).len()] == BACKSLASH,
    ensures
        kdec(body, j as nat, acc) == kdec(body, (j + c_escape_bytes(x).len()) as nat, acc.push(x)),
{
    match c_escape_letter(x) {
        Some(c) => {
            assert(body.subrange(j, j + 2)[0] == BACKSLASH);
            assert(body.subrange(j, j + 2)[1] == c);
            assert(body[j] == BACKSLASH && body[j + 1] == c);
            assert(simple_escape(c) == Some(x));
        },
        None => {
            lemma_kdec_token(body, j, acc, x);
        },
    }
}

proof fn lemma_kdec_c_escaped(body: Seq<u8>, acc: Seq<u8>, bytes: Seq<u8>)
    requires
        c_escaped(bytes).len() <= body.len(),
        body.subrange(0, c_escaped(bytes).len() as int) == c_escaped(bytes),
        c_escaped(bytes).len() == body.len() || body[c_escaped(bytes).len() as int] == BACKSLASH,
    ensures
        kdec(body, 0, acc) == kdec(body, c_escaped(bytes).len(), acc + bytes),
    decreases bytes.len(),
{
    if bytes.len() == 0 {
        assert(acc + bytes =~= acc);
    } else {
        let init = bytes.drop_last();
        let x = bytes.last();
        let a = c_escaped(init);
        let e = c_escape_bytes(x);
        assert(c_escaped(bytes) == a + e);
        assert(body.subrange(0, a.len() as int) =~= (a + e).subrange(0, a.len() as int));
        assert((a + e).subrange(0, a.len() as int) =~= a);
        assert(e[0] == BACKSLASH);
        assert(body[a.len() as int] == (a + e)[a.len() as int]);
        assert(body[a.len() as int] == BACKSLASH);
        lemma_kdec_c_escaped(body, acc, init);
        assert(body.subrange(a.len() as int, (a.len() + e.len()) as int) =~= e) by {
            assert forall|k: int| 0 <= k < e.len() implies body.subrange(
                a.len() as int,
                (a.len() + e.len()) as int,
            )[k] == e[k] by {
                assert(body.subrange(0, (a + e).len() as int)[a.len() + k] == (a + e)[a.len()
                    + k]);
            }
        }
        lemma_kdec_c_token(body, a.len() as int, acc + init, x);
        assert((acc + init).push(x) =~= acc + bytes);
    }
}

/// Decoding undoes Qt's escaping: a `@ByteArray(...)` value in which each
/// byte is written with its C escape (`\n` for a line feed, `\t` for a tab,
/// and so on), or with a hexadecimal escape where it has none, decodes to
/// those bytes, for every byte sequence.
pub proof fn lemma_kdecode_c_escapes(bytes: Seq<u8>)
    ensures
        kdecode(wrapper_prefix() + c_escaped(bytes) + seq![CLOSE_PAREN]) == Ok::<
            Seq<u8>,
            InputMapError,
        >(bytes),
{
    let body = c_escaped(bytes);
    let v = wrapper_prefix() + body + seq![CLOSE_PAREN];
    assert(v.subrange(0, 11) =~= wrapper_prefix());
    assert(v.subrange(11, v.len() - 1) =~= body);
    assert(body.subrange(0, body.len() as int) =~= body);
    lemma_kdec_c_escaped(body, Seq::empty(), bytes);
    assert(Seq::<u8>::empty() + bytes =~= bytes);
}

/// Decoding the value that [`encode_kconfig_byte_array`] writes for `bytes`
/// gives `bytes` back, for every byte sequence.
pub proof fn lemma_kconfig_decode_encode(bytes: Seq<u8>)
    ensures
        kdecode(vstd::utf8::encode_utf8(ascii_text(kencode_bytes(bytes)))) == Ok::<
            Seq<u8>,
            InputMapError,
        >(bytes),
{
    let v = kencode_bytes(bytes);
    let body = escaped(bytes);
    lemma_escaped_ascii(bytes);
    assert(all_ascii(v)) by {
        assert forall|i: int| 0 <= i < v.len() implies #[trigger] v[i] < 128 by {
            if i < 11 {
                assert(v[i] == wrapper_prefix()[i]);
            } else if i < 11 + body.len() {
                assert(v[i] == body[i - 11]);
            } else {
                assert(v[i] == CLOSE_PAREN);
            }
        }
    }
    lemma_ascii_utf8(v);
    assert(v.subrange(0, 11) =~= wrapper_prefix());
    assert(v.subrange(11, v.len() - 1) =~= body);
    assert(body.subrange(0, body.len() as int) =~= body);
    lemma_kdec_escaped(body, Seq::empty(), bytes);
    assert(Seq::<u8>::empty() + bytes =~= bytes);
}

} // verus!
