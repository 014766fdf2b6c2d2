//! Compute steps of the connection establisher.
//!
//! Opening the stream transport, the protocol handshake and the
//! authentication calls themselves are blocking I/O and live outside this
//! crate. What is decided here: the identity to authenticate as, and the
//! `host:port` endpoint string handed to the transport.

use vstd::prelude::*;
use vstd::string::StringExecFns;

verus! {

/// The identity used when a session descriptor names no username.
///
/// Substituting this fixed fallback is a deliberate policy choice:
/// a descriptor without a username connects as `root`.
pub open spec fn default_identity() -> Seq<char> {
    "root"@
}

/// Resolves the identity to authenticate as: the descriptor's username when
/// present, the documented default otherwise.
pub fn resolve_username(username: Option<String>) -> (r: String)
    ensures
        username is Some ==> r@ == username->0@,
        username is None ==> r@ == default_identity(),
{
    match username {
        Option::Some(u) => u,
        Option::None => "root".to_owned(),
    }
}

/// The decimal digit character for a value below ten.
pub open spec fn digit_char(d: nat) -> char
    recommends
        d < 10,
{
    if d == 0 {
        '0'
    } else if d == 1 {
        '1'
    } else if d == 2 {
        '2'
    } else if d == 3 {
        '3'
    } else if d == 4 {
        '4'
    } else if d == 5 {
        '5'
    } else if d == 6 {
        '6'
    } else if d == 7 {
        '7'
    } else if d == 8 {
        '8'
    } else {
        '9'
    }
}

/// The decimal representation of `n`, most significant digit first,
/// without leading zeros.
pub open spec fn decimal_rep(n: nat) -> Seq<char>
    decreases n,
{
    if n < 10 {
        seq![digit_char(n)]
    } else {
        decimal_rep(n / 10).push(digit_char(n % 10))
    }
}

fn digit_str(d: u32) -> (r: &'static str)
    requires
        d < 10,
    ensures
        r@ == seq![digit_char(d as nat)],
{
    let r: &'static str = match d {
        0 => "0",
        1 => "1",
        2 => "2",
        3 => "3",
        4 => "4",
        5 => "5",
        6 => "6",
        7 => "7",
        8 => "8",
        _ => "9",
    };
    proof {
        reveal_strlit("0");
        reveal_strlit("1");
        reveal_strlit("2");
        reveal_strlit("3");
        reveal_strlit("4");
        reveal_strlit("5");
        reveal_strlit("6");
        reveal_strlit("7");
        reveal_strlit("8");
        reveal_strlit("9");
        assert(r@ =~= seq![digit_char(d as nat)]);
    }
    r
}

/// Renders a number in decimal.
pub fn decimal_string(n: u32) -> (r: String)
    ensures
        r@ == decimal_rep(n as nat),
    decreases n,
{
    if n < 10 {
        digit_str(n).to_owned()
    } else {
        let mut s = decimal_string(n / 10);
        s.append(digit_str(n % 10));
        proof {
            assert(decimal_rep(n as nat) =~= decimal_rep((n / 10) as nat) + seq![
                digit_char((n % 10) as nat),
            ]);
        }
        s
    }
}

/// The `host:port` endpoint string for the stream transport.
pub fn connect_address(host: &str, port: i32) -> (r: String)
    requires
        0 <= port < 65536,
    ensures
        r@ == host@ + seq![':'] + decimal_rep(port as nat),
{
    let mut s = host.to_owned();
    s.append(":");
    let digits = decimal_string(port as u32);
    s.append(digits.as_str());
    proof {
        reveal_strlit(":");
        assert(":"@ =~= seq![':']);
        assert(s@ =~= host@ + seq![':'] + decimal_rep(port as nat));
    }
    s
}

} // verus!
