//! Request identifiers: the current time in milliseconds, in lowercase hexadecimal.
use vstd::prelude::*;

verus! {

pub open spec fn hex_digit(d: nat) -> char {
    if d < 10 {
        (('0' as u8) + d) as char
    } else {
        (('a' as u8) + (d - 10)) as char
    }
}

/// Lowercase hexadecimal digits of `n`, most significant first, without leading zeros.
pub open spec fn hex_chars(n: nat) -> Seq<char>
    decreases n,
{
    if n < 16 { seq![hex_digit(n)] } else { hex_chars(n / 16) + seq![hex_digit(n % 16)] }
}

fn hex_str(d: u128) -> (r: &'static str)
    requires
        d < 16,
    ensures
        r@ == seq![hex_digit(d as nat)],
{
    proof {
        reveal_strlit("0"); reveal_strlit("1"); reveal_strlit("2"); reveal_strlit("3");
        reveal_strlit("4"); reveal_strlit("5"); reveal_strlit("6"); reveal_strlit("7");
        reveal_strlit("8"); reveal_strlit("9"); reveal_strlit("a"); reveal_strlit("b");
        reveal_strlit("c"); reveal_strlit("d"); reveal_strlit("e"); reveal_strlit("f");
    }
    if d == 0 { "0" } else if d == 1 { "1" } else if d == 2 { "2" } else if d == 3 { "3" }
    else if d == 4 { "4" } else if d == 5 { "5" } else if d == 6 { "6" } else if d == 7 { "7" }
    else if d == 8 { "8" } else if d == 9 { "9" } else if d == 10 { "a" } else if d == 11 { "b" }
    else if d == 12 { "c" } else if d == 13 { "d" } else if d == 14 { "e" } else { "f" }
}

fn append_hex(s: &mut String, n: u128)
    ensures
        final(s)@ == old(s)@ + hex_chars(n as nat),
    decreases n,
{
    if n >= 16 {
        append_hex(s, n / 16);
    }
    s.append(hex_str(n % 16));
    assert(final(s)@ =~= old(s)@ + hex_chars(n as nat));
}

/// `n` in lowercase hexadecimal.
pub fn hex_id(n: u128) -> (r: String)
    ensures
        r@ == hex_chars(n as nat),
{
    let mut s = String::new();
    append_hex(&mut s, n);
    assert(s@ =~= hex_chars(n as nat));
    s
}

/// Relies on `SystemTime::now` measured from `UNIX_EPOCH`: milliseconds since the
/// epoch, or zero for a clock set before it. Nothing is promised of the value.
#[verifier::external_body]
fn now_millis() -> (r: u128) {
    match std::time::SystemTime::now().duration_since(std::time::UNIX_EPOCH) {
        Ok(d) => d.as_millis(),
        Err(_) => 0,
    }
}

/// An identifier for a request: the current time in milliseconds, in hexadecimal.
pub fn make_req_id() -> (r: String)
    ensures
        exists|n: nat| r@ == hex_chars(n),
{
    let now = now_millis();
    hex_id(now)
}

} // verus!
