use vstd::prelude::*;
use crate::config::Config;

verus! {

/// An ASCII decimal digit.
pub open spec fn is_digit(c: char) -> bool {
    '0' <= c && c <= '9'
}

/// Every character of `s` is a decimal digit.
pub open spec fn all_digits(s: Seq<char>) -> bool {
    forall|i: int| 0 <= i < s.len() ==> is_digit(#[trigger] s[i])
}

/// The value of a string of decimal digits, most significant first.
pub open spec fn decimal_value(s: Seq<char>) -> nat
    decreases s.len(),
{
    if s.len() == 0 {
        0
    } else {
        decimal_value(s.drop_last()) * 10 + ((s.last() as u32) - ('0' as u32)) as nat
    }
}

/// `s` is one or more decimal digits whose value is at most `limit`.
pub open spec fn decimal_within(s: Seq<char>, limit: nat) -> bool {
    &&& s.len() >= 1
    &&& all_digits(s)
    &&& decimal_value(s) <= limit
}

proof fn lemma_prefix_value_le(s: Seq<char>, j: int)
    requires
        all_digits(s),
        0 <= j <= s.len(),
    ensures
        decimal_value(s.subrange(0, j)) <= decimal_value(s),
    decreases s.len(),
{
    if j < s.len() {
        let t = s.drop_last();
        assert(all_digits(t)) by {
            assert forall|i: int| 0 <= i < t.len() implies is_digit(#[trigger] t[i]) by {
                assert(t[i] == s[i]);
            }
        }
        lemma_prefix_value_le(t, j);
        assert(t.subrange(0, j) == s.subrange(0, j));
    } else {
        assert(s.subrange(0, j) == s);
    }
}

/// Reads a decimal number of at most `limit`; `None` when `s` is empty,
/// holds a character that is not a digit, or is worth more.
pub fn parse_decimal(s: &str, limit: u32) -> (r: Option<u32>)
    ensures
        r == (if decimal_within(s@, limit as nat) {
            Some(decimal_value(s@) as u32)
        } else {
            None::<u32>
        }),
{
    let n = s.unicode_len();
    if n == 0 {
        return None;
    }
    let mut v: u32 = 0;
    let mut i: usize = 0;
    while i < n
        invariant
            n == s@.len(),
            i <= n,
            all_digits(s@.subrange(0, i as int)),
            v as nat == decimal_value(s@.subrange(0, i as int)),
            v <= limit,
        decreases n - i,
    {
        let c = s.get_char(i);
        if !('0' <= c && c <= '9') {
            assert(!is_digit(s@[i as int]));
            return None;
        }
        let d: u32 = (c as u32) - ('0' as u32);
        let next: u64 = (v as u64) * 10 + (d as u64);
        let ghost pre = s@.subrange(0, i + 1);
        proof {
            assert(pre.drop_last() == s@.subrange(0, i as int));
            assert(all_digits(pre)) by {
                assert forall|k: int| 0 <= k < pre.len() implies is_digit(#[trigger] pre[k]) by {
                    if k < i {
                        assert(pre[k] == s@.subrange(0, i as int)[k]);
                    }
                }
            }
            assert(decimal_value(pre) == next as nat);
        }
        if next > limit as u64 {
            proof {
                if all_digits(s@) {
                    lemma_prefix_value_le(s@, i + 1);
                }
            }
            return None;
        }
        v = next as u32;
        i = i + 1;
    }
    assert(s@.subrange(0, n as int) == s@);
    Some(v)
}

/// One dotted-quad group: one to three digits, worth at most 255, with no
/// leading zero unless the group is `0` itself.
pub open spec fn octet_text(s: Seq<char>) -> bool {
    &&& s.len() <= 3
    &&& decimal_within(s, 255)
    &&& s.len() > 1 ==> s[0] != '0'
}

/// Reads one group of a dotted-quad address.
pub fn parse_octet(s: &str) -> (r: Option<u8>)
    ensures
        r == (if octet_text(s@) {
            Some(decimal_value(s@) as u8)
        } else {
            None::<u8>
        }),
{
    let n = s.unicode_len();
    if n > 3 {
        return None;
    }
    match parse_decimal(s, 255) {
        None => None,
        Some(v) => {
            if n > 1 && s.get_char(0) == '0' {
                None
            } else {
                Some(v as u8)
            }
        },
    }
}

/// The pieces of `s` between occurrences of `sep`, in order; an empty piece
/// stands wherever two separators meet or one is at either end.
pub open spec fn fields(s: Seq<char>, sep: char) -> Seq<Seq<char>>
    decreases s.len(),
{
    if s.len() == 0 {
        seq![Seq::<char>::empty()]
    } else {
        let f = fields(s.drop_last(), sep);
        if s.last() == sep {
            f.push(Seq::<char>::empty())
        } else {
            f.update(f.len() - 1, f.last().push(s.last()))
        }
    }
}

proof fn lemma_fields_nonempty(s: Seq<char>, sep: char)
    ensures
        fields(s, sep).len() >= 1,
    decreases s.len(),
{
    if s.len() > 0 {
        lemma_fields_nonempty(s.drop_last(), sep);
    }
}

/// Splits `s` at every `sep`.
pub fn split_fields(s: &str, sep: char) -> (r: Vec<String>)
    ensures
        r@.map_values(|x: String| x@) == fields(s@, sep),
{
    let n = s.unicode_len();
    let mut out: Vec<String> = Vec::new();
    let mut start: usize = 0;
    let mut i: usize = 0;
    assert(s@.subrange(0, 0) =~= Seq::<char>::empty());
    assert(out@.map_values(|x: String| x@) =~= Seq::<Seq<char>>::empty());
    while i < n
        invariant
            n == s@.len(),
            start <= i <= n,
            fields(s@.subrange(0, i as int), sep) == out@.map_values(|x: String| x@).push(
                s@.subrange(start as int, i as int),
            ),
        decreases n - i,
    {
        let c = s.get_char(i);
        let ghost pre = s@.subrange(0, i + 1);
        proof {
            assert(pre.drop_last() == s@.subrange(0, i as int));
            lemma_fields_nonempty(s@.subrange(0, i as int), sep);
        }
        if c == sep {
            let piece = String::from_str(s.substring_char(start, i));
            let ghost before = out@;
            out.push(piece);
            assert(out@.map_values(|x: String| x@) =~= before.map_values(|x: String| x@).push(
                piece@,
            ));
            start = i + 1;
            assert(s@.subrange(start as int, i + 1) =~= Seq::<char>::empty());
        } else {
            assert(s@.subrange(start as int, i + 1) =~= s@.subrange(start as int, i as int).push(c));
        }
        i = i + 1;
    }
    let last = String::from_str(s.substring_char(start, n));
    let ghost before = out@;
    out.push(last);
    assert(out@.map_values(|x: String| x@) =~= before.map_values(|x: String| x@).push(last@));
    assert(s@.subrange(0, n as int) == s@);
    out
}

/// The four bytes of a dotted-quad IPv4 address, as std reads one.
pub open spec fn ipv4_octets(s: Seq<char>) -> Option<Seq<u8>> {
    let f = fields(s, '.');
    if f.len() == 4 && forall|k: int| 0 <= k < 4 ==> octet_text(#[trigger] f[k]) {
        Some(seq![
            decimal_value(f[0]) as u8,
            decimal_value(f[1]) as u8,
            decimal_value(f[2]) as u8,
            decimal_value(f[3]) as u8,
        ])
    } else {
        None
    }
}

/// Reads a dotted-quad IPv4 address.
pub fn parse_ipv4(s: &str) -> (r: Option<[u8; 4]>)
    ensures
        match ipv4_octets(s@) {
            Some(o) => r matches Some(a) && a@ == o,
            None => r is None,
        },
{
    let parts = split_fields(s, '.');
    proof {
        assert(forall|k: int| 0 <= k < parts@.len() ==> #[trigger] parts@[k]@ == fields(s@, '.')[k]);
    }
    if parts.len() != 4 {
        return None;
    }
    let mut octets: [u8; 4] = [0, 0, 0, 0];
    let mut k: usize = 0;
    while k < 4
        invariant
            parts@.len() == 4,
            forall|j: int| 0 <= j < 4 ==> #[trigger] parts@[j]@ == fields(s@, '.')[j],
            k <= 4,
            forall|j: int| 0 <= j < k ==> octet_text(#[trigger] fields(s@, '.')[j]),
            forall|j: int| 0 <= j < k ==> #[trigger] octets@[j] == decimal_value(fields(s@, '.')[j]) as u8,
        decreases 4 - k,
    {
        match parse_octet(parts[k].as_str()) {
            None => return None,
            Some(b) => {
                octets[k] = b;
                k = k + 1;
            },
        }
    }
    assert(octets@ =~= ipv4_octets(s@)->Some_0);
    Some(octets)
}

/// The digits of a port number: an optional leading `+` is skipped.
pub open spec fn port_digits(s: Seq<char>) -> Seq<char> {
    if s.len() >= 1 && s[0] == '+' {
        s.drop_first()
    } else {
        s
    }
}

/// A port number as std reads a `u16`.
pub open spec fn port_value(s: Seq<char>) -> Option<u16> {
    if decimal_within(port_digits(s), 65535) {
        Some(decimal_value(port_digits(s)) as u16)
    } else {
        None
    }
}

/// Reads a port number.
pub fn parse_port(s: &str) -> (r: Option<u16>)
    ensures
        r == port_value(s@),
{
    let n = s.unicode_len();
    let digits = if n >= 1 && s.get_char(0) == '+' {
        s.substring_char(1, n)
    } else {
        s
    };
    assert(digits@ == port_digits(s@));
    match parse_decimal(digits, 65535) {
        None => None,
        Some(v) => Some(v as u16),
    }
}

/// Entry `i` of `s` is its first `c`.
pub open spec fn is_first_of(s: Seq<char>, c: char, i: int) -> bool {
    &&& 0 <= i < s.len()
    &&& s[i] == c
    &&& forall|j: int| 0 <= j < i ==> s[j] != c
}

/// The first position of `c` in `s`.
pub fn find_char(s: &str, c: char) -> (r: Option<usize>)
    ensures
        match r {
            Some(i) => is_first_of(s@, c, i as int),
            None => forall|j: int| 0 <= j < s@.len() ==> s@[j] != c,
        },
{
    let n = s.unicode_len();
    let mut i: usize = 0;
    while i < n
        invariant
            n == s@.len(),
            i <= n,
            forall|j: int| 0 <= j < i ==> s@[j] != c,
        decreases n - i,
    {
        if s.get_char(i) == c {
            return Some(i);
        }
        i = i + 1;
    }
    None
}

/// The address and port that `addr` names: what precedes its first `:` is a
/// dotted-quad IPv4 address, what follows it a port number.
pub open spec fn bind_address(addr: Seq<char>) -> Option<(Seq<u8>, u16)> {
    if exists|i: int| is_first_of(addr, ':', i) {
        let i = choose|i: int| is_first_of(addr, ':', i);
        match (ipv4_octets(addr.subrange(0, i)), port_value(addr.subrange(i + 1, addr.len() as int))) {
            (Some(ip), Some(port)) => Some((ip, port)),
            _ => None,
        }
    } else {
        None
    }
}

impl Config {
    /// The IPv4 address and port to listen on, read from `addr`; `None` when
    /// it is not of the form `a.b.c.d:port`.
    pub fn host(&self) -> (r: Option<([u8; 4], u16)>)
        ensures
            match bind_address(self.addr@) {
                Some((ip, port)) => r matches Some(v) && v.0@ == ip && v.1 == port,
                None => r is None,
            },
    {
        let a = self.addr.as_str();
        match find_char(a, ':') {
            None => None,
            Some(sep) => {
                proof {
                    assert forall|j: int| is_first_of(a@, ':', j) implies j == sep by {
                        if j < sep {
                            assert(a@[j] != ':');
                        } else if sep < j {
                            assert(a@[sep as int] != ':');
                        }
                    }
                }
                let n = a.unicode_len();
                let ip = parse_ipv4(a.substring_char(0, sep));
                let port = parse_port(a.substring_char(sep + 1, n));
                match (ip, port) {
                    (Some(ip), Some(port)) => Some((ip, port)),
                    _ => None,
                }
            },
        }
    }
}

} // verus!
