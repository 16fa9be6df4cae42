//! Textual renderings used by the decoder: decimal and uppercase-hex integers,
//! uppercase-hex and base64 byte blobs, and XML entity escaping.

use base64::Engine;
use vstd::prelude::*;
use vstd::string::StrSliceExecFns;

verus! {

/// The character for one digit value in base 10 or base 16 (uppercase).
pub open spec fn digit_char(d: int) -> char {
    if d < 10 {
        ((48 + d) as u8) as char
    } else {
        ((55 + d) as u8) as char
    }
}

/// Decimal digits of a non-negative value, most significant first.
pub open spec fn dec_seq(v: nat) -> Seq<char>
    decreases v,
{
    if v < 10 {
        seq![digit_char(v as int)]
    } else {
        dec_seq(v / 10).push(digit_char((v % 10) as int))
    }
}

/// Decimal rendering of a signed value, with a leading minus sign if negative.
pub open spec fn dec_seq_signed(v: int) -> Seq<char> {
    if v < 0 {
        seq!['-'] + dec_seq((-v) as nat)
    } else {
        dec_seq(v as nat)
    }
}

/// Uppercase hexadecimal digits of a non-negative value, no leading zeros
/// (a single `0` for zero), most significant first.
pub open spec fn hex_seq(v: nat) -> Seq<char>
    decreases v,
{
    if v < 16 {
        seq![digit_char(v as int)]
    } else {
        hex_seq(v / 16).push(digit_char((v % 16) as int))
    }
}

/// Uppercase hex rendering of a byte string: two digits per byte, in order.
pub open spec fn hex_upper_of(bytes: Seq<u8>) -> Seq<char>
    decreases bytes.len(),
{
    if bytes.len() == 0 {
        Seq::empty()
    } else {
        seq![digit_char(bytes[0] as int / 16), digit_char(bytes[0] as int % 16)] + hex_upper_of(
            bytes.skip(1),
        )
    }
}

/// The character for one 6-bit group in the standard base64 alphabet.
pub open spec fn b64_char(v: int) -> char {
    if v < 26 {
        ((65 + v) as u8) as char
    } else if v < 52 {
        ((97 + v - 26) as u8) as char
    } else if v < 62 {
        ((48 + v - 52) as u8) as char
    } else if v == 62 {
        '+'
    } else {
        '/'
    }
}

/// Standard base64 with `=` padding, as RFC 4648 defines it: three input
/// bytes become four alphabet characters; a final group of one or two bytes
/// is padded to four characters.
pub open spec fn base64_std_of(bytes: Seq<u8>) -> Seq<char>
    decreases bytes.len(),
{
    if bytes.len() == 0 {
        Seq::empty()
    } else if bytes.len() == 1 {
        let b0 = bytes[0] as int;
        seq![b64_char(b0 / 4), b64_char((b0 % 4) * 16), '=', '=']
    } else if bytes.len() == 2 {
        let b0 = bytes[0] as int;
        let b1 = bytes[1] as int;
        seq![b64_char(b0 / 4), b64_char((b0 % 4) * 16 + b1 / 16), b64_char((b1 % 16) * 4), '=']
    } else {
        let b0 = bytes[0] as int;
        let b1 = bytes[1] as int;
        let b2 = bytes[2] as int;
        seq![
            b64_char(b0 / 4),
            b64_char((b0 % 4) * 16 + b1 / 16),
            b64_char((b1 % 16) * 4 + b2 / 64),
            b64_char(b2 % 64),
        ] + base64_std_of(bytes.skip(3))
    }
}

/// What escaping one character yields: the five standard XML entities are
/// replaced, every other character stands as itself.
pub open spec fn escape_char(c: char) -> Seq<char> {
    if c == '&' {
        "&amp;"@
    } else if c == '<' {
        "&lt;"@
    } else if c == '>' {
        "&gt;"@
    } else if c == '"' {
        "&quot;"@
    } else if c == '\'' {
        "&apos;"@
    } else {
        seq![c]
    }
}

/// XML entity escaping of a whole character sequence.
pub open spec fn escape_xml(s: Seq<char>) -> Seq<char>
    decreases s.len(),
{
    if s.len() == 0 {
        Seq::empty()
    } else {
        escape_char(s[0]) + escape_xml(s.skip(1))
    }
}

/// Escaping distributes over appending one character at the end.
pub proof fn lemma_escape_snoc(s: Seq<char>, c: char)
    ensures
        escape_xml(s.push(c)) == escape_xml(s) + escape_char(c),
    decreases s.len(),
{
    if s.len() == 0 {
        assert(s.push(c)[0] == c);
        assert(s.push(c).skip(1) =~= Seq::<char>::empty());
        assert(escape_xml(s.push(c)) == escape_char(c) + escape_xml(Seq::<char>::empty()));
        assert(escape_xml(Seq::<char>::empty()) =~= Seq::<char>::empty());
        assert(escape_xml(s.push(c)) =~= escape_xml(s) + escape_char(c));
    } else {
        assert(s.push(c)[0] == s[0]);
        assert(s.push(c).skip(1) =~= s.skip(1).push(c));
        lemma_escape_snoc(s.skip(1), c);
        assert(escape_xml(s.push(c)) == escape_char(s[0]) + (escape_xml(s.skip(1))
            + escape_char(c)));
        assert(escape_xml(s.push(c)) =~= escape_xml(s) + escape_char(c));
    }
}

/// Relies on `String::push`: appends exactly one character.
#[verifier::external_body]
pub(crate) fn push_char(s: &mut String, c: char)
    ensures
        final(s)@ == old(s)@.push(c),
{
    s.push(c);
}

/// Relies on `String::from_utf8`: `Ok` exactly on valid UTF-8 input, whose
/// decoding it returns.
#[verifier::external_body]
pub(crate) fn string_from_utf8(bytes: Vec<u8>) -> (r: Option<String>)
    ensures
        r is Some <==> vstd::utf8::valid_utf8(bytes@),
        r matches Some(s) ==> s@ == vstd::utf8::decode_utf8(bytes@),
{
    String::from_utf8(bytes).ok()
}

/// Relies on `hex::encode_upper`: two uppercase hex digits per input byte,
/// in input order.
#[verifier::external_body]
pub(crate) fn hex_encode_upper(bytes: &Vec<u8>) -> (r: String)
    ensures
        r@ == hex_upper_of(bytes@),
{
    hex::encode_upper(bytes)
}

/// Relies on `base64`'s `STANDARD` engine: standard alphabet, `=` padding.
#[verifier::external_body]
pub(crate) fn base64_encode(bytes: &Vec<u8>) -> (r: String)
    ensures
        r@ == base64_std_of(bytes@),
{
    base64::engine::general_purpose::STANDARD.encode(bytes)
}

/// XML entity encoder: replaces the five standard XML entities
/// (`& < > " '`) and leaves every other character unchanged.
pub fn encode_xml_entities(text: &str) -> (r: String)
    ensures
        r@ == escape_xml(text@),
{
    let n = text.unicode_len();
    let mut out = String::new();
    let mut i: usize = 0;
    while i < n
        invariant
            i <= n,
            n == text@.len(),
            out@ == escape_xml(text@.take(i as int)),
        decreases n - i,
    {
        let c = text.get_char(i);
        proof {
            assert(text@.take(i as int).push(c) =~= text@.take(i + 1 as int));
            lemma_escape_snoc(text@.take(i as int), c);
        }
        if c == '&' {
            out.append("&amp;");
        } else if c == '<' {
            out.append("&lt;");
        } else if c == '>' {
            out.append("&gt;");
        } else if c == '"' {
            out.append("&quot;");
        } else if c == '\'' {
            out.append("&apos;");
        } else {
            push_char(&mut out, c);
        }
        i = i + 1;
    }
    proof {
        assert(text@.take(n as int) =~= text@);
    }
    out
}

/// Appends the decimal digits of `v`.
pub(crate) fn push_dec_u64(out: &mut String, v: u64)
    ensures
        final(out)@ == old(out)@ + dec_seq(v as nat),
    decreases v,
{
    if v >= 10 {
        push_dec_u64(out, v / 10);
    }
    let d = (v % 10) as u8;
    let c = (48 + d) as char;
    proof {
        assert(c == digit_char((v % 10) as int));
        if v < 10 {
            assert(dec_seq(v as nat) =~= seq![digit_char(v as int)]);
            assert(old(out)@ + dec_seq(v as nat) =~= old(out)@.push(c));
        } else {
            assert(old(out)@ + dec_seq(v as nat) =~= (old(out)@ + dec_seq(
                (v / 10) as nat,
            )).push(c));
        }
    }
    push_char(out, c);
}

/// Appends the decimal rendering of a signed value.
pub(crate) fn push_dec_i64(out: &mut String, v: i64)
    ensures
        final(out)@ == old(out)@ + dec_seq_signed(v as int),
{
    if v < 0 {
        push_char(out, '-');
        let mag: u64 = if v == i64::MIN {
            9223372036854775808u64
        } else {
            (-v) as u64
        };
        proof {
            assert(mag as nat == (-(v as int)) as nat);
        }
        push_dec_u64(out, mag);
        proof {
            assert(old(out)@ + dec_seq_signed(v as int) =~= (old(out)@.push('-')) + dec_seq(
                mag as nat,
            ));
        }
    } else {
        push_dec_u64(out, v as u64);
    }
}

/// Appends the uppercase hexadecimal digits of `v`, without a prefix.
pub(crate) fn push_hex_u64(out: &mut String, v: u64)
    ensures
        final(out)@ == old(out)@ + hex_seq(v as nat),
    decreases v,
{
    if v >= 16 {
        push_hex_u64(out, v / 16);
    }
    let d = (v % 16) as u8;
    let c = if d < 10 {
        (48 + d) as char
    } else {
        (55 + d) as char
    };
    proof {
        assert(c == digit_char((v % 16) as int));
        if v < 16 {
            assert(hex_seq(v as nat) =~= seq![digit_char(v as int)]);
            assert(old(out)@ + hex_seq(v as nat) =~= old(out)@.push(c));
        } else {
            assert(old(out)@ + hex_seq(v as nat) =~= (old(out)@ + hex_seq(
                (v / 16) as nat,
            )).push(c));
        }
    }
    push_char(out, c);
}

} // verus!
