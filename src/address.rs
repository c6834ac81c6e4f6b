use vstd::prelude::*;

verus! {

/// The first two octets of every probed host; the team subnet and the
/// machine's host octet complete the address.
pub const NETWORK_PREFIX_A: u8 = 172;

pub const NETWORK_PREFIX_B: u8 = 30;

/// An IPv4 address as its four octets, most significant first.
#[derive(Debug, Clone, Copy, PartialEq, Eq, Structural)]
pub struct Ipv4Address(pub u8, pub u8, pub u8, pub u8);

/// An IPv6 address as one 128-bit number.
#[derive(Debug, Clone, Copy, PartialEq, Eq, Structural)]
pub struct Ipv6Address(pub u128);

/// An IPv4 socket address.
#[derive(Debug, Clone, Copy, PartialEq, Eq, Structural)]
pub struct SockAddr {
    pub ip: Ipv4Address,
    pub port: u16,
}

pub open spec fn digit_char(d: nat) -> char {
    if d == 0 {
        '0'
    } else if d == 1 {
        '1'
    } else if d == 2 {
        '2'
    } else if d == 3 {
        '3'
    } else if d == 4 {
        '4'
    } else if d == 5 {
        '5'
    } else if d == 6 {
        '6'
    } else if d == 7 {
        '7'
    } else if d == 8 {
        '8'
    } else {
        '9'
    }
}

/// The decimal representation of `n`, without leading zeros.
pub open spec fn decimal(n: nat) -> Seq<char>
    decreases n,
{
    if n < 10 {
        seq![digit_char(n)]
    } else {
        decimal(n / 10).push(digit_char(n % 10))
    }
}

/// Dotted-quad text of an IPv4 address.
pub open spec fn ipv4_text(a: Ipv4Address) -> Seq<char> {
    decimal(a.0 as nat) + seq!['.'] + decimal(a.1 as nat) + seq!['.'] + decimal(a.2 as nat)
        + seq!['.'] + decimal(a.3 as nat)
}

/// `host:port` text of a socket address.
pub open spec fn sock_text(s: SockAddr) -> Seq<char> {
    ipv4_text(s.ip) + seq![':'] + decimal(s.port as nat)
}

/// The address of a machine inside a team's subnet.
pub open spec fn team_host(subnet: u8, host: u8) -> Ipv4Address {
    Ipv4Address(NETWORK_PREFIX_A, NETWORK_PREFIX_B, subnet, host)
}

fn digit_str(d: u64) -> (r: &'static str)
    requires
        d < 10,
    ensures
        r@ == seq![digit_char(d as nat)],
{
    proof {
        reveal_strlit("0");
        reveal_strlit("1");
        reveal_strlit("2");
        reveal_strlit("3");
        reveal_strlit("4");
        reveal_strlit("5");
        reveal_strlit("6");
        reveal_strlit("7");
        reveal_strlit("8");
        reveal_strlit("9");
    }
    if d == 0 {
        "0"
    } else if d == 1 {
        "1"
    } else if d == 2 {
        "2"
    } else if d == 3 {
        "3"
    } else if d == 4 {
        "4"
    } else if d == 5 {
        "5"
    } else if d == 6 {
        "6"
    } else if d == 7 {
        "7"
    } else if d == 8 {
        "8"
    } else {
        "9"
    }
}

/// Appends the decimal text of `n` to `out`.
pub fn push_decimal(out: &mut String, n: u64)
    ensures
        final(out)@ == old(out)@ + decimal(n as nat),
    decreases n,
{
    if n < 10 {
        out.append(digit_str(n));
    } else {
        push_decimal(out, n / 10);
        out.append(digit_str(n % 10));
        assert(decimal(n as nat) == decimal((n / 10) as nat).push(digit_char((n % 10) as nat)));
    }
}

impl Ipv4Address {
    /// Dotted-quad text, as in `172.30.1.10`.
    pub fn to_text(&self) -> (r: String)
        ensures
            r@ == ipv4_text(*self),
    {
        let mut s = String::new();
        proof {
            reveal_strlit(".");
        }
        push_decimal(&mut s, self.0 as u64);
        s.append(".");
        push_decimal(&mut s, self.1 as u64);
        s.append(".");
        push_decimal(&mut s, self.2 as u64);
        s.append(".");
        push_decimal(&mut s, self.3 as u64);
        s
    }
}

impl SockAddr {
    /// `host:port` text, as in `172.30.1.10:22`.
    pub fn to_text(&self) -> (r: String)
        ensures
            r@ == sock_text(*self),
    {
        let mut s = self.ip.to_text();
        proof {
            reveal_strlit(":");
        }
        s.append(":");
        push_decimal(&mut s, self.port as u64);
        s
    }
}

} // verus!
