use vstd::prelude::*;
use vstd::string::StrSliceExecFns;

verus! {

/// A 20-byte account or contract address.
#[derive(Clone, Copy, Debug, PartialEq, Eq)]
pub struct Address {
    pub bytes: [u8; 20],
}

/// Why a venue could not quote a swap.
#[derive(Clone, Copy, Debug, PartialEq, Eq, Structural)]
pub enum QuoteError {
    /// The venue answered with no usable amount.
    QuoteUnavailable,
    /// The venue could not be reached, or the query failed or timed out.
    SourceUnreachable,
}

/// The amount out of a swap, taken from the list of amounts that a venue
/// reports along the path: its last element.
///
/// Fails with `QuoteUnavailable` exactly when the list is empty.
pub fn amount_out(amounts: &Vec<u128>) -> (r: Result<u128, QuoteError>)
    ensures
        amounts@.len() == 0 <==> r is Err,
        r matches Ok(n) ==> n == amounts@.last(),
        r matches Err(e) ==> e == QuoteError::QuoteUnavailable,
{
    if amounts.len() == 0 {
        Err(QuoteError::QuoteUnavailable)
    } else {
        Ok(amounts[amounts.len() - 1])
    }
}

/// The value of a hexadecimal digit (either case), or -1 for any other
/// character.
pub open spec fn hex_value(c: char) -> int {
    if '0' <= c && c <= '9' {
        c as int - '0' as int
    } else if 'a' <= c && c <= 'f' {
        c as int - 'a' as int + 10
    } else if 'A' <= c && c <= 'F' {
        c as int - 'A' as int + 10
    } else {
        -1
    }
}

/// The text of an address after a leading `0x`, if there is one.
pub open spec fn hex_body(s: Seq<char>) -> Seq<char> {
    if s.len() >= 2 && s[0] == '0' && s[1] == 'x' {
        s.skip(2)
    } else {
        s
    }
}

/// Space, tab, carriage return or line feed: skipped between digits.
pub open spec fn is_hex_space(c: char) -> bool {
    c == ' ' || c == '\t' || c == '\r' || c == '\n'
}

/// The characters of `s` other than spaces, in order.
pub open spec fn hex_digits(s: Seq<char>) -> Seq<char>
    decreases s.len(),
{
    if s.len() == 0 {
        Seq::empty()
    } else if is_hex_space(s.last()) {
        hex_digits(s.drop_last())
    } else {
        hex_digits(s.drop_last()).push(s.last())
    }
}

/// `s` is the text of an address: after an optional `0x`, forty
/// hexadecimal digits, with spaces anywhere among them.
pub open spec fn is_address_text(s: Seq<char>) -> bool {
    &&& hex_digits(hex_body(s)).len() == 40
    &&& forall|i: int| 0 <= i < 40 ==> hex_value(#[trigger] hex_digits(hex_body(s))[i]) >= 0
}

/// The `i`-th byte written by an address text: two digits, high first.
pub open spec fn address_byte(s: Seq<char>, i: int) -> int {
    16 * hex_value(hex_digits(hex_body(s))[2 * i]) + hex_value(hex_digits(hex_body(s))[2 * i + 1])
}

/// The digits of a prefix are a prefix of the digits.
proof fn lemma_hex_digits_prefix(s: Seq<char>, j: int)
    requires
        0 <= j <= s.len(),
    ensures
        hex_digits(s.take(j)).len() <= hex_digits(s).len(),
        forall|q: int|
            0 <= q < hex_digits(s.take(j)).len() ==> #[trigger] hex_digits(s.take(j))[q]
                == hex_digits(s)[q],
    decreases s.len() - j,
{
    if j < s.len() {
        lemma_hex_digits_prefix(s, j + 1);
        assert(s.take(j + 1).drop_last() =~= s.take(j));
    } else {
        assert(s.take(j) =~= s);
    }
}

/// The value of one hexadecimal digit, if `c` is one.
fn hex_digit(c: char) -> (r: Option<u8>)
    ensures
        r is Some <==> hex_value(c) >= 0,
        r matches Some(v) ==> v == hex_value(c) && v < 16,
{
    if '0' <= c && c <= '9' {
        Some((c as u32 - '0' as u32) as u8)
    } else if 'a' <= c && c <= 'f' {
        Some((c as u32 - 'a' as u32 + 10) as u8)
    } else if 'A' <= c && c <= 'F' {
        Some((c as u32 - 'A' as u32 + 10) as u8)
    } else {
        None
    }
}

/// Parses an address written as forty hexadecimal digits (either case),
/// with or without a leading `0x`; spaces, tabs, carriage returns and line
/// feeds among the digits are skipped.
pub fn parse_addr(s: &str) -> (r: Option<Address>)
    ensures
        r is Some <==> is_address_text(s@),
        r matches Some(a) ==> forall|i: int| 0 <= i < 20 ==> a.bytes[i] == address_byte(s@, i),
{
    let n = s.unicode_len();
    let skip: usize = if n >= 2 && s.get_char(0) == '0' && s.get_char(1) == 'x' {
        2
    } else {
        0
    };
    let ghost body = hex_body(s@);
    assert(body =~= s@.skip(skip as int));
    let mut bytes: [u8; 20] = [0u8; 20];
    let mut count: usize = 0;
    let mut high: u8 = 0;
    let mut j: usize = skip;
    while j < n
        invariant
            skip <= j <= n,
            n == s@.len(),
            body == hex_body(s@),
            body =~= s@.skip(skip as int),
            count == hex_digits(body.take(j - skip)).len(),
            count <= 40,
            forall|q: int| 0 <= q < count ==> hex_value(#[trigger] hex_digits(body.take(j - skip))[q]) >= 0,
            forall|b: int|
                0 <= b < count / 2 ==> bytes[b] == 16 * hex_value(hex_digits(body.take(j - skip))[2 * b])
                    + hex_value(hex_digits(body.take(j - skip))[2 * b + 1]),
            count % 2 == 1 ==> high == hex_value(hex_digits(body.take(j - skip))[count - 1]),
            high < 16,
        decreases n - j,
    {
        let c = s.get_char(j);
        let ghost pre = body.take(j - skip);
        let ghost next = body.take(j + 1 - skip);
        assert(next.drop_last() =~= pre);
        assert(next.last() == c);
        if c == ' ' || c == '\t' || c == '\r' || c == '\n' {
            j = j + 1;
        } else {
            match hex_digit(c) {
                None => {
                    proof {
                        lemma_hex_digits_prefix(body, j + 1 - skip);
                        assert(hex_digits(next)[count as int] == c);
                        assert(next =~= body.take(j + 1 - skip));
                    }
                    return None;
                },
                Some(v) => {
                    if count == 40 {
                        proof {
                            lemma_hex_digits_prefix(body, j + 1 - skip);
                        }
                        return None;
                    }
                    assert(hex_digits(next) == hex_digits(pre).push(c));
                    if count % 2 == 0 {
                        high = v;
                    } else {
                        bytes[count / 2] = high * 16 + v;
                    }
                    count = count + 1;
                    j = j + 1;
                },
            }
        }
    }
    assert(body.take(j - skip) =~= body);
    if count != 40 {
        return None;
    }
    Some(Address { bytes })
}

} // verus!
