//! The domain resolver's logic: the library's own model of a resolved
//! address, IPv4 filtering with deduplication, and dotted-decimal formatting.

use vstd::prelude::*;
use vstd::string::*;

verus! {

/// An IPv4 address as its four octets.
#[derive(Clone, Copy, PartialEq, Eq, Structural, Debug)]
pub struct Ipv4 {
    pub a: u8,
    pub b: u8,
    pub c: u8,
    pub d: u8,
}

/// One address a DNS lookup returned: an IPv4 address, or an address of
/// another family, which the resolver discards.
#[derive(Clone, Copy, PartialEq, Eq, Structural, Debug)]
pub enum ResolvedIp {
    V4(Ipv4),
    Other,
}

/// Failure of the domain resolver's filtering: nothing IPv4 was resolved.
#[derive(Clone, Copy, PartialEq, Eq, Structural, Debug)]
pub enum ResolveError {
    NoAddresses,
}

impl ResolveError {
    pub fn message(&self) -> (r: String)
        ensures
            r@ == "No IPv4 addresses found"@,
    {
        String::from_str("No IPv4 addresses found")
    }
}

fn contains_ip(v: &Vec<Ipv4>, x: Ipv4) -> (r: bool)
    ensures
        r == v@.contains(x),
{
    let mut k: usize = 0;
    while k < v.len()
        invariant
            k <= v.len(),
            forall|j: int| 0 <= j < k ==> v@[j] != x,
        decreases v.len() - k,
    {
        if v[k] == x {
            return true;
        }
        k += 1;
    }
    false
}

proof fn lemma_push_contains<A>(s: Seq<A>, e: A)
    ensures
        forall|y: A| #[trigger] s.push(e).contains(y) <==> s.contains(y) || y == e,
{
    assert forall|y: A| #[trigger] s.push(e).contains(y) implies s.contains(y) || y == e by {
        let w = choose|w: int| 0 <= w < s.push(e).len() && s.push(e)[w] == y;
        if w < s.len() {
            assert(s[w] == y);
        } else {
            assert(s.push(e)[s.len() as int] == e);
        }
    }
    assert forall|y: A| s.contains(y) implies #[trigger] s.push(e).contains(y) by {
        let w = choose|w: int| 0 <= w < s.len() && s[w] == y;
        assert(s.push(e)[w] == y);
    }
    assert(s.push(e)[s.len() as int] == e);
    assert(s.push(e).contains(e));
}

/// Keeps the IPv4 addresses among the resolved ones, each exactly once.
pub fn dedup_v4(addrs: &Vec<ResolvedIp>) -> (r: Vec<Ipv4>)
    ensures
        forall|x: Ipv4| r@.contains(x) <==> addrs@.contains(ResolvedIp::V4(x)),
        forall|i: int, j: int| 0 <= i < j < r@.len() ==> r@[i] != r@[j],
{
    let mut out: Vec<Ipv4> = Vec::new();
    let mut k: usize = 0;
    while k < addrs.len()
        invariant
            k <= addrs.len(),
            forall|x: Ipv4| #[trigger] out@.contains(x) <==> addrs@.subrange(0,
                k as int,
            ).contains(ResolvedIp::V4(x)),
            forall|i: int, j: int| 0 <= i < j < out@.len() ==> out@[i] != out@[j],
        decreases addrs.len() - k,
    {
        let ghost pre = addrs@.subrange(0, k as int);
        let ghost post = addrs@.subrange(0, k as int + 1);
        let ghost old_out = out@;
        proof {
            lemma_push_contains(pre, addrs@[k as int]);
            assert(post =~= pre.push(addrs@[k as int]));
        }
        match addrs[k] {
            ResolvedIp::V4(ip) => {
                if !contains_ip(&out, ip) {
                    proof {
                        lemma_push_contains(out@, ip);
                    }
                    out.push(ip);
                }
            },
            ResolvedIp::Other => {},
        }
        k += 1;
        proof {
            assert forall|x: Ipv4| #[trigger] out@.contains(x) <==> post.contains(
                ResolvedIp::V4(x),
            ) by {
                assert(old_out.contains(x) <==> pre.contains(ResolvedIp::V4(x)));
            }
        }
    }
    proof {
        assert(addrs@.subrange(0, addrs@.len() as int) =~= addrs@);
    }
    out
}

/// The character for one decimal digit.
pub open spec fn digit_char(d: u8) -> char {
    if d == 0 {
        '0'
    } else if d == 1 {
        '1'
    } else if d == 2 {
        '2'
    } else if d == 3 {
        '3'
    } else if d == 4 {
        '4'
    } else if d == 5 {
        '5'
    } else if d == 6 {
        '6'
    } else if d == 7 {
        '7'
    } else if d == 8 {
        '8'
    } else {
        '9'
    }
}

/// The decimal form of an octet: one, two or three digits, no leading zeros.
pub open spec fn dec_u8(n: u8) -> Seq<char> {
    if n < 10 {
        seq![digit_char(n)]
    } else if n < 100 {
        seq![digit_char(n / 10), digit_char(n % 10)]
    } else {
        seq![digit_char(n / 100), digit_char((n / 10) % 10), digit_char(n % 10)]
    }
}

/// The dotted-decimal form of an IPv4 address.
pub open spec fn ipv4_chars(ip: Ipv4) -> Seq<char> {
    dec_u8(ip.a) + seq!['.'] + dec_u8(ip.b) + seq!['.'] + dec_u8(ip.c) + seq!['.'] + dec_u8(ip.d)
}

fn digit_str(d: u8) -> (r: &'static str)
    requires
        d < 10,
    ensures
        r@ == seq![digit_char(d)],
{
    let r: &'static str = match d {
        0 => "0",
        1 => "1",
        2 => "2",
        3 => "3",
        4 => "4",
        5 => "5",
        6 => "6",
        7 => "7",
        8 => "8",
        _ => "9",
    };
    proof {
        reveal_strlit("0");
        reveal_strlit("1");
        reveal_strlit("2");
        reveal_strlit("3");
        reveal_strlit("4");
        reveal_strlit("5");
        reveal_strlit("6");
        reveal_strlit("7");
        reveal_strlit("8");
        reveal_strlit("9");
        assert(r@ =~= seq![digit_char(d)]);
    }
    r
}

fn push_octet(s: &mut String, n: u8)
    ensures
        final(s)@ == old(s)@ + dec_u8(n),
{
    if n >= 100 {
        s.append(digit_str(n / 100));
        s.append(digit_str((n / 10) % 10));
        s.append(digit_str(n % 10));
        proof {
            assert(s@ =~= old(s)@ + dec_u8(n));
        }
    } else if n >= 10 {
        s.append(digit_str(n / 10));
        s.append(digit_str(n % 10));
        proof {
            assert(s@ =~= old(s)@ + dec_u8(n));
        }
    } else {
        s.append(digit_str(n));
        proof {
            assert(s@ =~= old(s)@ + dec_u8(n));
        }
    }
}

/// Formats an IPv4 address in dotted-decimal form.
pub fn ipv4_to_string(ip: &Ipv4) -> (r: String)
    ensures
        r@ == ipv4_chars(*ip),
{
    let mut s = String::new();
    push_octet(&mut s, ip.a);
    s.append(".");
    push_octet(&mut s, ip.b);
    s.append(".");
    push_octet(&mut s, ip.c);
    s.append(".");
    push_octet(&mut s, ip.d);
    proof {
        reveal_strlit(".");
        assert("."@ =~= seq!['.']);
        assert(s@ =~= ipv4_chars(*ip));
    }
    s
}

/// The string list `v` holds exactly the dotted-decimal forms of the IPv4
/// addresses among `addrs`: every entry formats one of them, and every one of
/// them is formatted by some entry.
pub open spec fn lists_v4_strings(addrs: Seq<ResolvedIp>, v: Seq<String>) -> bool {
    (forall|i: int|
        0 <= i < v.len() ==> (exists|j: int|
            {
                &&& 0 <= j < addrs.len()
                &&& (#[trigger] addrs[j]) matches ResolvedIp::V4(x) && (#[trigger] v[i])@
                    == ipv4_chars(x)
            })) && (forall|x: Ipv4|
        #[trigger] addrs.contains(ResolvedIp::V4(x)) ==> (exists|i: int|
            0 <= i < v.len() && (#[trigger] v[i])@ == ipv4_chars(x)))
}

/// Turns the resolved addresses into the IP list: IPv4 only, deduplicated,
/// formatted dotted-decimal; an empty result is the resolver's error.
#[verifier::rlimit(100)]
pub fn resolved_ips(addrs: &Vec<ResolvedIp>) -> (r: Result<Vec<String>, ResolveError>)
    ensures
        r is Ok <==> (exists|x: Ipv4| addrs@.contains(ResolvedIp::V4(x))),
        r matches Err(e) ==> e == ResolveError::NoAddresses,
        r matches Ok(v) ==> v@.len() > 0,
        r matches Ok(v) ==> lists_v4_strings(addrs@, v@),
{
    let unique = dedup_v4(addrs);
    if unique.len() == 0 {
        proof {
            assert forall|x: Ipv4| !addrs@.contains(ResolvedIp::V4(x)) by {
                assert(!unique@.contains(x));
            }
        }
        return Err(ResolveError::NoAddresses);
    }
    let mut out: Vec<String> = Vec::new();
    let mut k: usize = 0;
    while k < unique.len()
        invariant
            k <= unique.len(),
            out@.len() == k,
            forall|x: Ipv4| unique@.contains(x) <==> addrs@.contains(ResolvedIp::V4(x)),
            forall|j: int| 0 <= j < k ==> out@[j]@ == ipv4_chars(unique@[j]),
        decreases unique.len() - k,
    {
        out.push(ipv4_to_string(&unique[k]));
        k += 1;
    }
    proof {
        assert(unique@.contains(unique@[0]));
        assert forall|i: int|
            0 <= i < out@.len() implies (exists|j: int|
            {
                &&& 0 <= j < addrs@.len()
                &&& (#[trigger] addrs@[j]) matches ResolvedIp::V4(x) && (#[trigger] out@[i])@
                    == ipv4_chars(x)
            }) by {
            assert(unique@.contains(unique@[i]));
            assert(addrs@.contains(ResolvedIp::V4(unique@[i])));
            let w = choose|w: int|
                0 <= w < addrs@.len() && addrs@[w] == ResolvedIp::V4(unique@[i]);
            assert(out@[i]@ == ipv4_chars(unique@[i]));
            assert(addrs@[w] matches ResolvedIp::V4(x) && out@[i]@ == ipv4_chars(x));
        }
        assert forall|x: Ipv4| #[trigger] addrs@.contains(ResolvedIp::V4(x)) implies (exists|
            i: int,
        |
            0 <= i < out@.len() && (#[trigger] out@[i])@ == ipv4_chars(x)) by {
            assert(unique@.contains(x));
            let w = choose|w: int| 0 <= w < unique@.len() && unique@[w] == x;
            assert(out@[w]@ == ipv4_chars(x));
        }
        assert(lists_v4_strings(addrs@, out@));
    }
    Ok(out)
}

} // verus!
