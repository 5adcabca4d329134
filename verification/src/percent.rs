//! Percent-encoding of query values.
//!
//! A value is encoded with the default encode set, and then every `&` that
//! is left in it is escaped as well, since `&` is what separates the pairs
//! of a query.

use percent_encoding::{percent_encode, DEFAULT_ENCODE_SET};
use vstd::prelude::*;
use vstd::string::{is_ascii, StringSliceAdditionalSpecFns};
use vstd::utf8::{encode_utf8, is_ascii_chars, is_ascii_chars_encode_utf8};

verus! {

/// The bytes of the default encode set: controls, everything above `~`, and
/// the characters space, `"`, `#`, `<`, `>`, `` ` ``, `?`, `{` and `}`.
pub open spec fn in_default_encode_set(b: u8) -> bool {
    ||| b < 0x20
    ||| b > 0x7E
    ||| b == 0x20
    ||| b == 0x22
    ||| b == 0x23
    ||| b == 0x3C
    ||| b == 0x3E
    ||| b == 0x60
    ||| b == 0x3F
    ||| b == 0x7B
    ||| b == 0x7D
}

/// The bytes that are escaped in a query value: those of the default
/// encode set, and `&`.
pub open spec fn in_value_encode_set(b: u8) -> bool {
    in_default_encode_set(b) || b == 0x26
}

/// The upper-case hexadecimal digit for a value below sixteen.
pub open spec fn hex_digit(n: int) -> char
    recommends
        0 <= n < 16,
{
    seq!['0', '1', '2', '3', '4', '5', '6', '7', '8', '9', 'A', 'B', 'C', 'D', 'E', 'F'][n]
}

/// A byte escaped: `%` and its two hexadecimal digits.
pub open spec fn escaped_byte(b: u8) -> Seq<char> {
    seq!['%', hex_digit(b as int / 16), hex_digit(b as int % 16)]
}

/// What one byte becomes under the default encode set: escaped when it is
/// in the set, the byte itself as a character when it is not.
pub open spec fn encoded_byte(b: u8) -> Seq<char> {
    if in_default_encode_set(b) {
        escaped_byte(b)
    } else {
        seq![b as char]
    }
}

/// The encoding of a byte string under the default encode set: each byte's
/// encoding, in order.
pub open spec fn percent_encoded(bytes: Seq<u8>) -> Seq<char>
    decreases bytes.len(),
{
    if bytes.len() == 0 {
        Seq::empty()
    } else {
        percent_encoded(bytes.drop_last()) + encoded_byte(bytes.last())
    }
}

/// What one byte of a query value becomes: escaped when it is in the
/// value encode set, the byte itself as a character when it is not.
pub open spec fn value_encoded_byte(b: u8) -> Seq<char> {
    if in_value_encode_set(b) {
        escaped_byte(b)
    } else {
        seq![b as char]
    }
}

/// The encoding of a query value, given as its bytes: each byte's encoding,
/// in order.
pub open spec fn value_encoded(bytes: Seq<u8>) -> Seq<char>
    decreases bytes.len(),
{
    if bytes.len() == 0 {
        Seq::empty()
    } else {
        value_encoded(bytes.drop_last()) + value_encoded_byte(bytes.last())
    }
}

/// A character that the default encode set lets through: ASCII outside the
/// set.
pub open spec fn is_plain_char(c: char) -> bool {
    '\0' <= c <= '\u{7f}' && !in_default_encode_set(c as u8)
}

/// A character that an encoded query value may hold: ASCII outside the
/// value encode set, which leaves the printable characters from `!` to `~`
/// other than `"`, `#`, `&`, `<`, `>`, `` ` ``, `?`, `{` and `}`.
pub open spec fn is_value_char(c: char) -> bool {
    '\0' <= c <= '\u{7f}' && !in_value_encode_set(c as u8)
}

/// What one character becomes when `&` is escaped.
pub open spec fn ampersand_escaped_char(c: char) -> Seq<char> {
    if c == '&' {
        seq!['%', '2', '6']
    } else {
        seq![c]
    }
}

/// A text with `%26` in place of each `&`.
pub open spec fn ampersands_escaped(text: Seq<char>) -> Seq<char>
    decreases text.len(),
{
    if text.len() == 0 {
        Seq::empty()
    } else {
        ampersands_escaped(text.drop_last()) + ampersand_escaped_char(text.last())
    }
}

/// Calls `percent_encoding::percent_encode` with `DEFAULT_ENCODE_SET` on the
/// UTF-8 bytes of `value` and collects what it displays.
///
/// Trusted: the result is, byte by byte, `%XX` in upper-case hexadecimal for
/// a byte of the encode set and the ASCII character itself for any other.
#[verifier::external_body]
pub(crate) fn percent_encode_default(value: &str) -> (res: String)
    ensures
        res@ == percent_encoded(value.spec_bytes()),
{
    percent_encode(value.as_bytes(), DEFAULT_ENCODE_SET).to_string()
}

/// Writes `%26` for each `&` of an ASCII text and leaves the rest as it is.
fn escape_ampersands(text: &str) -> (res: String)
    requires
        is_ascii(text),
    ensures
        res@ == ampersands_escaped(text@),
{
    proof {
        reveal_strlit("%26");
        assert("%26"@ =~= seq!['%', '2', '6']);
    }
    let n = text.unicode_len();
    let mut res = String::new();
    let mut i: usize = 0;
    while i < n
        invariant
            is_ascii(text),
            n == text@.len(),
            i <= n,
            "%26"@ == seq!['%', '2', '6'],
            res@ == ampersands_escaped(text@.subrange(0, i as int)),
        decreases n - i,
    {
        let b = text.get_ascii(i);
        proof {
            let c = text@[i as int];
            assert('\0' <= c <= '\u{7f}');
            assert((b == 0x26) == (c == '&'));
            assert(text@.subrange(0, i + 1).drop_last() =~= text@.subrange(0, i as int));
            assert(text@.subrange(0, i + 1).last() == c);
            assert(text@.subrange(i as int, i + 1) =~= seq![c]);
        }
        if b == 0x26 {
            res.append("%26");
        } else {
            res.append(text.substring_ascii(i, i + 1));
        }
        i += 1;
    }
    assert(text@.subrange(0, n as int) =~= text@);
    res
}

/// Encodes a query value: every byte of the value encode set becomes `%XX`
/// in upper-case hexadecimal, and every other byte stays the ASCII
/// character that it is.
pub fn encode_query_value(value: &str) -> (res: String)
    ensures
        res@ == value_encoded(value.spec_bytes()),
{
    let encoded = percent_encode_default(value);
    proof {
        lemma_percent_encoded_is_plain(value.spec_bytes());
        assert(is_ascii_chars(encoded@));
        lemma_escaping_completes_encoding(value.spec_bytes());
    }
    escape_ampersands(encoded.as_str())
}

/// Escaping `&` goes character by character, so it distributes over
/// concatenation.
proof fn lemma_ampersands_escaped_concat(a: Seq<char>, b: Seq<char>)
    ensures
        ampersands_escaped(a + b) == ampersands_escaped(a) + ampersands_escaped(b),
    decreases b.len(),
{
    if b.len() == 0 {
        assert(a + b =~= a);
    } else {
        lemma_ampersands_escaped_concat(a, b.drop_last());
        assert((a + b).drop_last() =~= a + b.drop_last());
        assert((a + b).last() == b.last());
    }
}

/// Escaping `&` in a text of one character.
proof fn lemma_ampersands_escaped_single(c: char)
    ensures
        ampersands_escaped(seq![c]) == ampersand_escaped_char(c),
{
    let one = seq![c];
    assert(one.drop_last() =~= Seq::<char>::empty());
    assert(ampersands_escaped(Seq::<char>::empty()) =~= Seq::<char>::empty());
    assert(ampersands_escaped(one) =~= ampersand_escaped_char(c));
}

/// Escaping `&` in what the default encode set gives for one byte is the
/// value encoding of that byte.
proof fn lemma_escaping_completes_byte(b: u8)
    ensures
        ampersands_escaped(encoded_byte(b)) == value_encoded_byte(b),
{
    let e = encoded_byte(b);
    if in_default_encode_set(b) {
        assert(0 <= b as int / 16 < 16);
        assert(0 <= b as int % 16 < 16);
        lemma_ampersands_escaped_single(e[0]);
        lemma_ampersands_escaped_single(e[1]);
        lemma_ampersands_escaped_single(e[2]);
        lemma_ampersands_escaped_concat(seq![e[0]], seq![e[1]]);
        lemma_ampersands_escaped_concat(seq![e[0]] + seq![e[1]], seq![e[2]]);
        assert(e =~= seq![e[0]] + seq![e[1]] + seq![e[2]]);
        assert(ampersands_escaped(e) =~= e);
    } else {
        lemma_ampersands_escaped_single(b as char);
        assert((b == 0x26) == (b as char == '&'));
    }
}

/// The default encoding with `&` escaped afterwards is the value encoding.
pub proof fn lemma_escaping_completes_encoding(bytes: Seq<u8>)
    ensures
        ampersands_escaped(percent_encoded(bytes)) == value_encoded(bytes),
    decreases bytes.len(),
{
    if bytes.len() > 0 {
        lemma_escaping_completes_encoding(bytes.drop_last());
        lemma_escaping_completes_byte(bytes.last());
        lemma_ampersands_escaped_concat(
            percent_encoded(bytes.drop_last()),
            encoded_byte(bytes.last()),
        );
    }
}

/// What the default encode set gives holds no character of that set,
/// whatever the bytes were.
pub proof fn lemma_percent_encoded_is_plain(bytes: Seq<u8>)
    ensures
        forall|i: int|
            0 <= i < percent_encoded(bytes).len() ==> is_plain_char(
                #[trigger] percent_encoded(bytes)[i],
            ),
    decreases bytes.len(),
{
    if bytes.len() > 0 {
        lemma_percent_encoded_is_plain(bytes.drop_last());
        let b = bytes.last();
        let front = percent_encoded(bytes.drop_last());
        let tail = encoded_byte(b);
        assert forall|j: int| 0 <= j < tail.len() implies is_plain_char(#[trigger] tail[j]) by {
            if in_default_encode_set(b) {
                assert(0 <= b as int / 16 < 16);
                assert(0 <= b as int % 16 < 16);
            }
        }
        assert forall|i: int| 0 <= i < percent_encoded(bytes).len() implies is_plain_char(
            #[trigger] percent_encoded(bytes)[i],
        ) by {
            if i < front.len() {
                assert(percent_encoded(bytes)[i] == front[i]);
            } else {
                assert(percent_encoded(bytes)[i] == tail[i - front.len()]);
            }
        }
    }
}

/// An encoded value holds no character of the value encode set: every
/// character of it is printable ASCII other than space, `"`, `#`, `&`, `<`,
/// `>`, `` ` ``, `?`, `{` and `}`, whatever the value was.
pub proof fn lemma_value_encoded_is_clean(bytes: Seq<u8>)
    ensures
        forall|i: int|
            0 <= i < value_encoded(bytes).len() ==> is_value_char(
                #[trigger] value_encoded(bytes)[i],
            ),
    decreases bytes.len(),
{
    if bytes.len() > 0 {
        lemma_value_encoded_is_clean(bytes.drop_last());
        let b = bytes.last();
        let front = value_encoded(bytes.drop_last());
        let tail = value_encoded_byte(b);
        assert forall|j: int| 0 <= j < tail.len() implies is_value_char(#[trigger] tail[j]) by {
            if in_value_encode_set(b) {
                assert(0 <= b as int / 16 < 16);
                assert(0 <= b as int % 16 < 16);
            }
        }
        assert forall|i: int| 0 <= i < value_encoded(bytes).len() implies is_value_char(
            #[trigger] value_encoded(bytes)[i],
        ) by {
            if i < front.len() {
                assert(value_encoded(bytes)[i] == front[i]);
            } else {
                assert(value_encoded(bytes)[i] == tail[i - front.len()]);
            }
        }
    }
}

/// A value made only of characters that an encoded value may hold is its
/// own encoding.
pub proof fn lemma_clean_value_unchanged(value: Seq<char>)
    requires
        forall|i: int| 0 <= i < value.len() ==> is_value_char(#[trigger] value[i]),
    ensures
        value_encoded(encode_utf8(value)) == value,
{
    assert(is_ascii_chars(value));
    is_ascii_chars_encode_utf8(value);
    assert(encode_utf8(value) =~= Seq::new(value.len(), |i: int| value[i] as u8));
    lemma_clean_bytes_unchanged(value);
}

proof fn lemma_clean_bytes_unchanged(value: Seq<char>)
    requires
        forall|i: int| 0 <= i < value.len() ==> is_value_char(#[trigger] value[i]),
    ensures
        value_encoded(Seq::new(value.len(), |i: int| value[i] as u8)) == value,
    decreases value.len(),
{
    let bytes = Seq::new(value.len(), |i: int| value[i] as u8);
    if value.len() > 0 {
        let front = value.drop_last();
        lemma_clean_bytes_unchanged(front);
        assert(bytes.drop_last() =~= Seq::new(front.len(), |i: int| front[i] as u8));
        let c = value.last();
        assert(is_value_char(c));
        assert(bytes.last() == c as u8);
        assert((c as u8) as char == c);
        assert(value_encoded(bytes) =~= value);
    } else {
        assert(value_encoded(bytes) =~= value);
    }
}

} // verus!
