//! Text that the listener builds or checks: decimal numbers, `host:port`, and
//! strings that are handed to C.
use vstd::prelude::*;
use vstd::slice::slice_to_vec;

use crate::error::NulError;

verus! {

/// The decimal digit of value `d`, for `d` below ten.
pub open spec fn digit(d: nat) -> char {
    "0123456789"@[d as int]
}

/// `n` in decimal, without leading zeros.
pub open spec fn decimal(n: nat) -> Seq<char>
    decreases n,
{
    if n < 10 {
        seq![digit(n)]
    } else {
        decimal(n / 10).push(digit(n % 10))
    }
}

/// `host`, a colon, and `port` in decimal.
pub open spec fn host_port(host: Seq<char>, port: u16) -> Seq<char> {
    host.push(':') + decimal(port as nat)
}

fn digit_str(d: u16) -> (s: &'static str)
    requires
        d < 10,
    ensures
        s@ == seq![digit(d as nat)],
{
    proof {
        reveal_strlit("0123456789");
        reveal_strlit("0");
        reveal_strlit("1");
        reveal_strlit("2");
        reveal_strlit("3");
        reveal_strlit("4");
        reveal_strlit("5");
        reveal_strlit("6");
        reveal_strlit("7");
        reveal_strlit("8");
        reveal_strlit("9");
    }
    match d {
        0 => "0",
        1 => "1",
        2 => "2",
        3 => "3",
        4 => "4",
        5 => "5",
        6 => "6",
        7 => "7",
        8 => "8",
        _ => "9",
    }
}

/// Writes `n` in decimal.
pub fn format_decimal(n: u16) -> (s: String)
    ensures
        s@ == decimal(n as nat),
    decreases n,
{
    if n < 10 {
        digit_str(n).to_owned()
    } else {
        format_decimal(n / 10).concat(digit_str(n % 10))
    }
}

/// Writes the address `host:port`.
pub fn format_host_port(host: &str, port: u16) -> (s: String)
    ensures
        s@ == host_port(host@, port),
{
    proof {
        reveal_strlit(":");
    }
    let number = format_decimal(port);
    host.to_owned().concat(":").concat(number.as_str())
}

/// The bytes of `s`, for a C string that holds them before its terminator.
///
/// A zero byte inside would end the C string early: then the error gives the
/// position of the first one, and all the bytes.
pub fn c_string(s: &str) -> (result: Result<Vec<u8>, NulError>)
    ensures
        match vstd::utf8::encode_utf8(s@).index_of_first(0u8) {
            None => result matches Ok(bytes) && bytes@ == vstd::utf8::encode_utf8(s@),
            Some(first) => result matches Err(nul) && nul.position == first && nul.bytes@
                == vstd::utf8::encode_utf8(s@),
        },
{
    let bytes: &[u8] = s.as_bytes();
    proof {
        bytes@.index_of_first_ensures(0u8);
    }
    let mut i: usize = 0;
    while i < bytes.len()
        invariant
            i <= bytes@.len(),
            bytes@ == vstd::utf8::encode_utf8(s@),
            forall|j: int| 0 <= j < i ==> bytes@[j] != 0,
            bytes@.index_of_first(0u8) matches Some(first) ==> {
                &&& 0 <= first < bytes@.len()
                &&& bytes@[first] == 0
                &&& forall|j: int| 0 <= j < first < bytes@.len() ==> bytes@[j] != 0
            },
            bytes@.index_of_first(0u8) is None ==> !bytes@.contains(0u8),
        decreases bytes@.len() - i,
    {
        if bytes[i] == 0 {
            return Err(NulError { position: i, bytes: slice_to_vec(bytes) });
        }
        i += 1;
    }
    Ok(slice_to_vec(bytes))
}

/// The number that a string of decimal digits stands for.
pub open spec fn value_of(digits: Seq<char>) -> int
    decreases digits.len(),
{
    if digits.len() == 0 {
        0
    } else {
        10 * value_of(digits.drop_last()) + (digits.last() as int - '0' as int)
    }
}

/// `text` is `n` in decimal: digits that stand for `n`, the first of which is zero
/// only where it is the only one.
pub open spec fn writes(text: Seq<char>, n: int) -> bool {
    &&& text.len() > 0
    &&& forall|i: int| 0 <= i < text.len() ==> '0' <= (#[trigger] text[i]) <= '9'
    &&& value_of(text) == n
    &&& text.len() > 1 ==> text[0] != '0'
}

/// `text` is `host`, a colon, and `port` in decimal.
pub open spec fn names(text: Seq<char>, host: Seq<char>, port: u16) -> bool {
    &&& text.len() > host.len()
    &&& text.take(host.len() as int) == host
    &&& text[host.len() as int] == ':'
    &&& writes(text.skip(host.len() as int + 1), port as int)
}

proof fn lemma_decimal(n: nat)
    ensures
        writes(decimal(n), n as int),
        n > 0 ==> decimal(n)[0] != '0',
    decreases n,
{
    reveal_strlit("0123456789");
    reveal_with_fuel(value_of, 2);
    if n >= 10 {
        lemma_decimal(n / 10);
        let text = decimal(n);
        assert(text.drop_last() =~= decimal(n / 10));
    }
}

/// A number is written so that reading the digits gives it back, and without
/// leading zeros.
pub proof fn law_format_decimal(n: u16, s: String)
    requires
        call_ensures(format_decimal, (n,), s),
    ensures
        writes(s@, n as int),
{
    lemma_decimal(n as nat);
}

/// An address is written as its host, unchanged, a colon, and its port in decimal.
pub proof fn law_format_host_port(host: &str, port: u16, s: String)
    requires
        call_ensures(format_host_port, (host, port), s),
    ensures
        names(s@, host@, port),
{
    lemma_host_port(host@, port);
}

pub(crate) proof fn lemma_host_port(host: Seq<char>, port: u16)
    ensures
        names(host_port(host, port), host, port),
{
    lemma_decimal(port as nat);
    let text = host_port(host, port);
    assert(text.take(host.len() as int) =~= host);
    assert(text.skip(host.len() as int + 1) =~= decimal(port as nat));
}

/// A string is handed to C with all its bytes, unless one of them is zero. Then the
/// first such byte is named.
pub proof fn law_c_string(s: &str, result: Result<Vec<u8>, NulError>)
    requires
        call_ensures(c_string, (s,), result),
    ensures
        match result {
            Ok(bytes) => {
                &&& bytes@ == vstd::utf8::encode_utf8(s@)
                &&& forall|i: int| 0 <= i < bytes@.len() ==> (#[trigger] bytes@[i]) != 0
            },
            Err(nul) => {
                &&& nul.bytes@ == vstd::utf8::encode_utf8(s@)
                &&& nul.position < nul.bytes@.len()
                &&& nul.bytes@[nul.position as int] == 0
                &&& forall|i: int| 0 <= i < nul.position ==> (#[trigger] nul.bytes@[i]) != 0
            },
        },
{
    vstd::utf8::encode_utf8(s@).index_of_first_ensures(0u8);
}

} // verus!
