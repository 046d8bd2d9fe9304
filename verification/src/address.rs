use vstd::prelude::*;

verus! {

/// The scheme prefix marking a filesystem-socket address.
pub open spec fn unix_prefix() -> Seq<char> {
    seq!['u', 'n', 'i', 'x', ':']
}

/// A resolved bind address: either a TCP `host:port` pair, or the path
/// of a filesystem socket. The latter is only usable on platforms with
/// filesystem sockets; the caller that binds must fail fast elsewhere.
pub enum Address {
    IpPort(String, u16),
    Unix(String),
}

/// Why an address string is not a filesystem-socket address.
#[derive(Clone, Copy, PartialEq, Eq, Structural, Debug)]
pub enum AddressError {
    /// The string does not carry the filesystem-socket scheme prefix.
    NotUnix,
}

/// Whether `s` starts with the filesystem-socket scheme prefix.
pub open spec fn has_unix_prefix(s: Seq<char>) -> bool {
    s.len() >= 5 && s.subrange(0, 5) == unix_prefix()
}

/// Parses an address string as a filesystem-socket address: exactly the
/// strings carrying the scheme prefix are accepted, and the path is
/// everything after it.
pub fn parse_unix_address(s: &str) -> (r: Result<Address, AddressError>)
    ensures
        r is Ok <==> has_unix_prefix(s@),
        r matches Ok(a) ==> (a matches Address::Unix(path) && path@ == s@.skip(5)),
        r is Err ==> r == Result::<Address, AddressError>::Err(AddressError::NotUnix),
{
    let prefix = "unix:";
    proof {
        reveal_strlit("unix:");
        assert(prefix@ =~= unix_prefix());
    }
    let n = s.unicode_len();
    if n < 5 {
        return Err(AddressError::NotUnix);
    }
    let mut i: usize = 0;
    let mut matched = true;
    while i < 5
        invariant
            i <= 5,
            n == s@.len(),
            n >= 5,
            prefix@ == unix_prefix(),
            matched <==> (forall|j: int| 0 <= j < i ==> s@[j] == unix_prefix()[j]),
        decreases 5 - i,
    {
        let c = s.get_char(i);
        let m = prefix.get_char(i);
        matched = matched && c == m;
        i += 1;
    }
    if matched {
        proof {
            assert(s@.subrange(0, 5) =~= unix_prefix());
        }
        let path = s.substring_char(5, n);
        proof {
            assert(path@ =~= s@.skip(5));
        }
        Ok(Address::Unix(path.to_owned()))
    } else {
        proof {
            assert(s@.subrange(0, 5) != unix_prefix()) by {
                let j = choose|j: int| 0 <= j < 5 && s@[j] != unix_prefix()[j];
                assert(s@.subrange(0, 5)[j] != unix_prefix()[j]);
            }
        }
        Err(AddressError::NotUnix)
    }
}

/// Resolves the configured host string and port: a host carrying the
/// filesystem-socket scheme becomes a socket-path address, and anything
/// else is taken as a TCP host with the given port.
pub fn resolve_address(host: &str, port: u16) -> (a: Address)
    ensures
        has_unix_prefix(host@) ==> (a matches Address::Unix(path) && path@ == host@.skip(5)),
        !has_unix_prefix(host@) ==> (a matches Address::IpPort(h, p) && h@ == host@ && p
            == port),
{
    match parse_unix_address(host) {
        Ok(a) => a,
        Err(_) => Address::IpPort(host.to_owned(), port),
    }
}

/// The decimal digit character for a value below ten.
pub open spec fn digit_char(d: nat) -> char {
    if d == 0 {
        '0'
    } else if d == 1 {
        '1'
    } else if d == 2 {
        '2'
    } else if d == 3 {
        '3'
    } else if d == 4 {
        '4'
    } else if d == 5 {
        '5'
    } else if d == 6 {
        '6'
    } else if d == 7 {
        '7'
    } else if d == 8 {
        '8'
    } else {
        '9'
    }
}

/// The decimal rendering of a number, most significant digit first,
/// without leading zeros (a single zero for zero itself).
pub open spec fn dec_digits(n: nat) -> Seq<char>
    decreases n,
{
    if n < 10 {
        seq![digit_char(n)]
    } else {
        dec_digits(n / 10) + seq![digit_char(n % 10)]
    }
}

/// Appends the decimal rendering of `n` to `out`.
fn push_decimal(out: &mut String, n: u16)
    ensures
        final(out)@ == old(out)@ + dec_digits(n as nat),
    decreases n,
{
    if n >= 10 {
        push_decimal(out, n / 10);
    }
    let ghost mid = out@;
    let d = n % 10;
    match d {
        0 => out.append("0"),
        1 => out.append("1"),
        2 => out.append("2"),
        3 => out.append("3"),
        4 => out.append("4"),
        5 => out.append("5"),
        6 => out.append("6"),
        7 => out.append("7"),
        8 => out.append("8"),
        _ => out.append("9"),
    }
    proof {
        reveal_strlit("0");
        reveal_strlit("1");
        reveal_strlit("2");
        reveal_strlit("3");
        reveal_strlit("4");
        reveal_strlit("5");
        reveal_strlit("6");
        reveal_strlit("7");
        reveal_strlit("8");
        reveal_strlit("9");
        assert(out@ =~= mid + seq![digit_char((n % 10) as nat)]);
        if n >= 10 {
            assert(out@ =~= old(out)@ + dec_digits(n as nat));
        } else {
            assert(out@ =~= old(out)@ + dec_digits(n as nat));
        }
    }
}

/// What the rendered form of an address is: `host:port` for a TCP
/// address, and the scheme prefix followed by the path for a
/// filesystem-socket address.
pub open spec fn spec_rendered(a: Address) -> Seq<char> {
    match a {
        Address::IpPort(host, port) => host@ + seq![':'] + dec_digits(port as nat),
        Address::Unix(path) => unix_prefix() + path@,
    }
}

impl Address {
    /// The address as one string, for logging the resolved bind address.
    pub fn render(&self) -> (r: String)
        ensures
            r@ == spec_rendered(*self),
    {
        match self {
            Address::IpPort(host, port) => {
                let mut out = host.clone();
                out.append(":");
                proof {
                    reveal_strlit(":");
                    assert(out@ =~= host@ + seq![':']);
                }
                push_decimal(&mut out, *port);
                proof {
                    assert(out@ =~= spec_rendered(*self));
                }
                out
            },
            Address::Unix(path) => {
                let mut out = String::from_str("unix:");
                proof {
                    reveal_strlit("unix:");
                    assert(out@ =~= unix_prefix());
                }
                out.append(path.as_str());
                out
            },
        }
    }
}

} // verus!
