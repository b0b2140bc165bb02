//! The wire form of a response.
use vstd::prelude::*;
use vstd::utf8::encode_utf8;

verus! {

/// The character of a decimal digit.
pub open spec fn digit_char(d: nat) -> char {
    ((d + 48) as u8) as char
}

/// The decimal digits of `n`, most significant first, without leading zeros.
pub open spec fn decimal(n: nat) -> Seq<char>
    decreases n,
{
    if n < 10 {
        seq![digit_char(n)]
    } else {
        decimal(n / 10).push(digit_char(n % 10))
    }
}

/// The number that a run of decimal digits stands for.
pub open spec fn decimal_value(ds: Seq<char>) -> nat
    decreases ds.len(),
{
    if ds.len() == 0 {
        0
    } else {
        decimal_value(ds.drop_last()) * 10 + ((ds.last() as u32) - 48) as nat
    }
}

/// A character is a decimal digit.
pub open spec fn is_digit(c: char) -> bool {
    48 <= (c as u32) <= 57
}

/// The digits of `n` are digits, and read back as `n`.
pub proof fn lemma_decimal_round_trip(n: nat)
    ensures
        decimal_value(decimal(n)) == n,
        forall|i: int| 0 <= i < decimal(n).len() ==> is_digit(#[trigger] decimal(n)[i]),
        decimal(n).len() > 0,
    decreases n,
{
    let d = n % 10;
    assert((digit_char(d) as u32) == d + 48);
    if n >= 10 {
        lemma_decimal_round_trip(n / 10);
        assert(decimal(n).drop_last() =~= decimal(n / 10));
        assert((n / 10) * 10 + n % 10 == n);
        assert(decimal(n).last() == digit_char(d));
        assert(decimal_value(decimal(n)) == decimal_value(decimal(n / 10)) * 10 + d);
    } else {
        assert(decimal(n).drop_last() =~= Seq::<char>::empty());
        assert(decimal_value(Seq::<char>::empty()) == 0);
        assert(n % 10 == n);
        assert(decimal(n).last() == digit_char(d));
        assert(decimal_value(decimal(n)) == 0 * 10 + d);
    }
}

/// The number of bytes of a text in UTF-8.
pub open spec fn byte_len(s: Seq<char>) -> nat {
    encode_utf8(s).len()
}

/// The full response: status line, `Content-Length` with the body's byte
/// count, `Content-Type`, a blank line, then the body. No other header is
/// sent.
pub open spec fn response_text(status: Seq<char>, body: Seq<char>, content_type: Seq<char>) -> Seq<
    char,
> {
    "HTTP/1.1 "@ + status + "\r\nContent-Length: "@ + decimal(byte_len(body))
        + "\r\nContent-Type: "@ + content_type + "\r\n\r\n"@ + body
}

/// A response gives, in this order, the status line, a `Content-Length`
/// whose digits read back as the body's exact byte count, a
/// `Content-Type`, a blank line and the body.
pub proof fn lemma_response_layout(status: Seq<char>, body: Seq<char>, content_type: Seq<char>)
    ensures
        ({
            let digits = decimal(byte_len(body));
            &&& response_text(status, body, content_type) == "HTTP/1.1 "@ + status
                + "\r\nContent-Length: "@ + digits + "\r\nContent-Type: "@ + content_type
                + "\r\n\r\n"@ + body
            &&& decimal_value(digits) == byte_len(body)
            &&& forall|i: int| 0 <= i < digits.len() ==> is_digit(#[trigger] digits[i])
        }),
{
    lemma_decimal_round_trip(byte_len(body));
}

/// The text of the decimal digit `d`.
fn digit_text(d: usize) -> (r: &'static str)
    requires
        d < 10,
    ensures
        r@ == seq![digit_char(d as nat)],
{
    proof {
        reveal_strlit("0");
        reveal_strlit("1");
        reveal_strlit("2");
        reveal_strlit("3");
        reveal_strlit("4");
        reveal_strlit("5");
        reveal_strlit("6");
        reveal_strlit("7");
        reveal_strlit("8");
        reveal_strlit("9");
    }
    match d {
        0 => "0",
        1 => "1",
        2 => "2",
        3 => "3",
        4 => "4",
        5 => "5",
        6 => "6",
        7 => "7",
        8 => "8",
        _ => "9",
    }
}

/// Appends the decimal digits of `n` to `out`.
pub fn push_decimal(out: &mut String, n: usize)
    ensures
        final(out)@ == old(out)@ + decimal(n as nat),
    decreases n,
{
    if n >= 10 {
        push_decimal(out, n / 10);
    }
    out.append(digit_text(n % 10));
    assert(final(out)@ =~= old(out)@ + decimal(n as nat));
}

/// Writes a response with the given status line text, body and content type.
pub fn format_response(status: &str, body: &str, content_type: &str) -> (r: String)
    ensures
        r@ == response_text(status@, body@, content_type@),
{
    let mut out = String::new();
    out.append("HTTP/1.1 ");
    out.append(status);
    out.append("\r\nContent-Length: ");
    let length = body.as_bytes().len();
    push_decimal(&mut out, length);
    out.append("\r\nContent-Type: ");
    out.append(content_type);
    out.append("\r\n\r\n");
    out.append(body);
    assert(out@ =~= response_text(status@, body@, content_type@));
    out
}

} // verus!
