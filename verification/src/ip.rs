//! IP address literals: the textual forms that `IpAddr::from_str` accepts,
//! and the address each denotes.
use vstd::prelude::*;
use crate::text::{all_digits, decimal, digit_value, digits_value, chars_of, chars_slice};

verus! {

/// An IP address, by its numeric value: 32 bits for IPv4, 128 for IPv6.
/// As with `std::net::IpAddr`, a V4 address never equals a V6 one.
#[derive(Clone, Copy, Debug, PartialEq, Eq, Structural)]
pub enum IpAddress {
    V4(u32),
    V6(u128),
}

// ---------------------------------------------------------------------
// Specification.
// ---------------------------------------------------------------------

/// The pieces of `s` between occurrences of `sep` (empty pieces kept), as
/// `str::split` yields them.
pub open spec fn split_on(s: Seq<char>, sep: char) -> Seq<Seq<char>>
    decreases s.len(),
{
    if s.len() == 0 {
        seq![Seq::<char>::empty()]
    } else {
        let p = split_on(s.drop_last(), sep);
        if s.last() == sep {
            p.push(Seq::<char>::empty())
        } else {
            p.update(p.len() - 1, p.last().push(s.last()))
        }
    }
}

pub open spec fn is_hex_digit(c: char) -> bool {
    ('0' <= c <= '9') || ('a' <= c <= 'f') || ('A' <= c <= 'F')
}

pub open spec fn hex_digit_value(c: char) -> nat {
    if '0' <= c <= '9' {
        (c as nat - '0' as nat) as nat
    } else if 'a' <= c <= 'f' {
        (c as nat - 'a' as nat + 10) as nat
    } else {
        (c as nat - 'A' as nat + 10) as nat
    }
}

pub open spec fn all_hex(s: Seq<char>) -> bool {
    forall|i: int| 0 <= i < s.len() ==> is_hex_digit(#[trigger] s[i])
}

pub open spec fn hex_value(s: Seq<char>) -> nat
    decreases s.len(),
{
    if s.len() == 0 {
        0
    } else {
        hex_value(s.drop_last()) * 16 + hex_digit_value(s.last())
    }
}

/// One decimal part of an IPv4 address: one to three digits, at most 255,
/// and no leading zero unless the part is `0` itself.
pub open spec fn dec_octet(p: Seq<char>) -> Option<u8> {
    if 1 <= p.len() <= 3 && all_digits(p) && digits_value(p) <= 255 && (p.len() > 1 ==> p[0]
        != '0') {
        Some(digits_value(p) as u8)
    } else {
        None
    }
}

/// One group of an IPv6 address: one to four hex digits, either case.
pub open spec fn h16(p: Seq<char>) -> Option<u16> {
    if 1 <= p.len() <= 4 && all_hex(p) {
        Some(hex_value(p) as u16)
    } else {
        None
    }
}

/// The number that a sequence of bytes denotes, most significant first.
pub open spec fn octets_value(o: Seq<u8>) -> nat
    decreases o.len(),
{
    if o.len() == 0 {
        0
    } else {
        octets_value(o.drop_last()) * 256 + o.last() as nat
    }
}

/// The number that a sequence of 16-bit groups denotes, most significant first.
pub open spec fn groups_value(g: Seq<u16>) -> nat
    decreases g.len(),
{
    if g.len() == 0 {
        0
    } else {
        groups_value(g.drop_last()) * 65536 + g.last() as nat
    }
}

pub open spec fn all_octets(parts: Seq<Seq<char>>) -> bool {
    forall|i: int| 0 <= i < parts.len() ==> (#[trigger] dec_octet(parts[i])) is Some
}

pub open spec fn all_h16(parts: Seq<Seq<char>>) -> bool {
    forall|i: int| 0 <= i < parts.len() ==> (#[trigger] h16(parts[i])) is Some
}

pub open spec fn octet_values(parts: Seq<Seq<char>>) -> Seq<u8> {
    parts.map_values(|p: Seq<char>| dec_octet(p)->0)
}

pub open spec fn h16_values(parts: Seq<Seq<char>>) -> Seq<u16> {
    parts.map_values(|p: Seq<char>| h16(p)->0)
}

/// Dotted-quad IPv4 text: exactly four decimal parts.
pub open spec fn spec_parse_ipv4(s: Seq<char>) -> Option<u32> {
    let parts = split_on(s, '.');
    if parts.len() == 4 && all_octets(parts) {
        Some(octets_value(octet_values(parts)) as u32)
    } else {
        None
    }
}

/// The two groups that an embedded IPv4 address stands for.
pub open spec fn ipv4_groups(v: u32) -> Seq<u16> {
    seq![(v / 65536) as u16, (v % 65536) as u16]
}

/// Groups on one side of `::` (or the whole address when there is none):
/// colon-separated groups, the last of which may be an IPv4 address
/// standing for two groups.
pub open spec fn tail_groups(t: Seq<char>) -> Option<Seq<u16>> {
    if t.len() == 0 {
        Some(Seq::<u16>::empty())
    } else {
        let parts = split_on(t, ':');
        if all_h16(parts) {
            Some(h16_values(parts))
        } else if all_h16(parts.drop_last()) && spec_parse_ipv4(parts.last()) is Some {
            Some(h16_values(parts.drop_last()) + ipv4_groups(spec_parse_ipv4(parts.last())->0))
        } else {
            None
        }
    }
}

/// Groups before `::`: colon-separated groups, with no IPv4 part.
pub open spec fn head_groups(h: Seq<char>) -> Option<Seq<u16>> {
    if h.len() == 0 {
        Some(Seq::<u16>::empty())
    } else {
        let parts = split_on(h, ':');
        if all_h16(parts) {
            Some(h16_values(parts))
        } else {
            None
        }
    }
}

pub open spec fn double_colon_at(s: Seq<char>, k: int) -> bool {
    0 <= k && k + 1 < s.len() && s[k] == ':' && s[k + 1] == ':'
}

/// The first place at or after `from` where `::` stands.
pub open spec fn find_double_colon(s: Seq<char>, from: int) -> Option<int>
    decreases s.len() - from,
{
    if from < 0 || from + 1 >= s.len() {
        None
    } else if double_colon_at(s, from) {
        Some(from)
    } else {
        find_double_colon(s, from + 1)
    }
}

/// IPv6 text: eight groups, or fewer with one `::` standing for at least
/// one group of zeros; the last two groups may be written as IPv4.
pub open spec fn spec_parse_ipv6(s: Seq<char>) -> Option<u128> {
    match find_double_colon(s, 0) {
        Some(k) => {
            let head = head_groups(s.subrange(0, k));
            let tail = tail_groups(s.subrange(k + 2, s.len() as int));
            if head is Some && tail is Some && head->0.len() + tail->0.len() <= 7 {
                let zeros = Seq::new((8 - head->0.len() - tail->0.len()) as nat, |i: int| 0u16);
                Some(groups_value(head->0 + zeros + tail->0) as u128)
            } else {
                None
            }
        },
        None => {
            let all = tail_groups(s);
            if all is Some && all->0.len() == 8 {
                Some(groups_value(all->0) as u128)
            } else {
                None
            }
        },
    }
}

/// The address that `IpAddr::from_str` reads from `s`, if any.
pub open spec fn spec_parse_ip(s: Seq<char>) -> Option<IpAddress> {
    match spec_parse_ipv4(s) {
        Some(v) => Some(IpAddress::V4(v)),
        None => match spec_parse_ipv6(s) {
            Some(v) => Some(IpAddress::V6(v)),
            None => None,
        },
    }
}

// ---------------------------------------------------------------------
// Lemmas.
// ---------------------------------------------------------------------

proof fn lemma_split_nonempty(s: Seq<char>, sep: char)
    ensures
        split_on(s, sep).len() >= 1,
    decreases s.len(),
{
    if s.len() > 0 {
        lemma_split_nonempty(s.drop_last(), sep);
    }
}

pub open spec fn pow256(n: nat) -> nat
    decreases n,
{
    if n == 0 {
        1
    } else {
        256 * pow256((n - 1) as nat)
    }
}

proof fn lemma_octets_bound(o: Seq<u8>)
    ensures
        octets_value(o) < pow256(o.len()),
    decreases o.len(),
{
    if o.len() > 0 {
        let p = octets_value(o.drop_last());
        let q = pow256((o.len() - 1) as nat);
        lemma_octets_bound(o.drop_last());
        let l = o.last() as nat;
        assert(p * 256 + l < 256 * q) by (nonlinear_arith)
            requires
                p < q,
                l < 256,
        ;
    }
}

pub open spec fn pow65536(n: nat) -> nat
    decreases n,
{
    if n == 0 {
        1
    } else {
        65536 * pow65536((n - 1) as nat)
    }
}

proof fn lemma_groups_bound(g: Seq<u16>)
    ensures
        groups_value(g) < pow65536(g.len()),
    decreases g.len(),
{
    if g.len() > 0 {
        let p = groups_value(g.drop_last());
        let q = pow65536((g.len() - 1) as nat);
        lemma_groups_bound(g.drop_last());
        let l = g.last() as nat;
        assert(p * 65536 + l < 65536 * q) by (nonlinear_arith)
            requires
                p < q,
                l < 65536,
        ;
    }
}

proof fn lemma_pow65536_le_8(n: nat)
    requires
        n <= 8,
    ensures
        pow65536(n) <= pow65536(8),
        pow65536(8) == 0x1_0000_0000_0000_0000_0000_0000_0000_0000,
    decreases 8 - n,
{
    reveal_with_fuel(pow65536, 9);
    if n < 8 {
        lemma_pow65536_le_8(n + 1);
    }
}

// ---------------------------------------------------------------------
// Implementation.
// ---------------------------------------------------------------------

/// The character sequences held by a list of character vectors.
pub open spec fn views(v: Seq<Vec<char>>) -> Seq<Seq<char>> {
    v.map_values(|x: Vec<char>| x@)
}

/// Splits at every `sep`, keeping empty pieces.
pub fn split_chars(s: &[char], sep: char) -> (r: Vec<Vec<char>>)
    ensures
        views(r@) == split_on(s@, sep),
        r@.len() == split_on(s@, sep).len(),
        forall|i: int| 0 <= i < r@.len() ==> #[trigger] r@[i]@ == split_on(s@, sep)[i],
{
    let mut done: Vec<Vec<char>> = Vec::new();
    let mut cur: Vec<char> = Vec::new();
    let mut i: usize = 0;
    assert(s@.subrange(0, 0) == Seq::<char>::empty());
    while i < s.len()
        invariant
            i <= s.len(),
            done@.len() + 1 == split_on(s@.subrange(0, i as int), sep).len(),
            forall|k: int|
                0 <= k < done@.len() ==> #[trigger] done@[k]@ == split_on(
                    s@.subrange(0, i as int),
                    sep,
                )[k],
            cur@ == split_on(s@.subrange(0, i as int), sep).last(),
        decreases s.len() - i,
    {
        let ghost pre = s@.subrange(0, i as int);
        let ghost next = s@.subrange(0, i + 1);
        assert(next.drop_last() == pre);
        proof {
            lemma_split_nonempty(pre, sep);
        }
        let c = s[i];
        if c == sep {
            let w = cur;
            done.push(w);
            cur = Vec::new();
        } else {
            cur.push(c);
        }
        i = i + 1;
    }
    assert(s@.subrange(0, s@.len() as int) == s@);
    done.push(cur);
    assert(views(done@) =~= split_on(s@, sep));
    done
}

/// Reads one decimal part of an IPv4 address.
pub fn parse_dec_octet(p: &[char]) -> (r: Option<u8>)
    ensures
        r == dec_octet(p@),
{
    if p.len() < 1 || p.len() > 3 {
        return None;
    }
    let mut v: u32 = 0;
    let mut i: usize = 0;
    while i < p.len()
        invariant
            1 <= p.len() <= 3,
            i <= p.len(),
            all_digits(p@.subrange(0, i as int)),
            v == digits_value(p@.subrange(0, i as int)),
            v < pow10(i as nat),
        decreases p.len() - i,
    {
        let c = p[i];
        assert(p@.subrange(0, i + 1).drop_last() == p@.subrange(0, i as int));
        if !('0' <= c && c <= '9') {
            assert(!all_digits(p@));
            return None;
        }
        proof {
            lemma_pow10_small(i as nat);
            let ghost q = pow10(i as nat);
            let ghost d = digit_value(c);
            assert(v * 10 + d < 10 * q) by (nonlinear_arith)
                requires
                    v < q,
                    d < 10,
            ;
        }
        v = v * 10 + ((c as u32) - 48);
        i = i + 1;
    }
    assert(p@.subrange(0, p@.len() as int) == p@);
    if v > 255 {
        return None;
    }
    if p.len() > 1 && p[0] == '0' {
        return None;
    }
    Some(v as u8)
}

fn hex_digit(c: char) -> (r: Option<u32>)
    ensures
        match r {
            Some(d) => is_hex_digit(c) && d == hex_digit_value(c) && d < 16,
            None => !is_hex_digit(c),
        },
{
    if '0' <= c && c <= '9' {
        Some((c as u32) - 48)
    } else if 'a' <= c && c <= 'f' {
        Some((c as u32) - 97 + 10)
    } else if 'A' <= c && c <= 'F' {
        Some((c as u32) - 65 + 10)
    } else {
        None
    }
}

/// Reads one group of an IPv6 address.
pub fn parse_h16(p: &[char]) -> (r: Option<u16>)
    ensures
        r == h16(p@),
{
    if p.len() < 1 || p.len() > 4 {
        return None;
    }
    let mut v: u32 = 0;
    let mut i: usize = 0;
    while i < p.len()
        invariant
            1 <= p.len() <= 4,
            i <= p.len(),
            all_hex(p@.subrange(0, i as int)),
            v == hex_value(p@.subrange(0, i as int)),
            v < pow16(i as nat),
        decreases p.len() - i,
    {
        let c = p[i];
        assert(p@.subrange(0, i + 1).drop_last() == p@.subrange(0, i as int));
        match hex_digit(c) {
            None => {
                assert(!all_hex(p@));
                return None;
            },
            Some(d) => {
                proof {
                    lemma_pow16_small(i as nat);
                    let ghost q = pow16(i as nat);
                    assert(v * 16 + d < 16 * q) by (nonlinear_arith)
                        requires
                            v < q,
                            d < 16,
                    ;
                }
                v = v * 16 + d;
            },
        }
        i = i + 1;
    }
    assert(p@.subrange(0, p@.len() as int) == p@);
    proof {
        lemma_pow16_small(p.len() as nat);
    }
    Some(v as u16)
}

pub open spec fn pow10(n: nat) -> nat
    decreases n,
{
    if n == 0 {
        1
    } else {
        10 * pow10((n - 1) as nat)
    }
}

proof fn lemma_pow10_small(n: nat)
    requires
        n <= 3,
    ensures
        pow10(n) <= 1000,
{
    reveal_with_fuel(pow10, 4);
}

pub open spec fn pow16(n: nat) -> nat
    decreases n,
{
    if n == 0 {
        1
    } else {
        16 * pow16((n - 1) as nat)
    }
}

proof fn lemma_pow16_small(n: nat)
    requires
        n <= 4,
    ensures
        pow16(n) <= 65536,
{
    reveal_with_fuel(pow16, 5);
}

/// The number four bytes denote.
fn value_of_octets(o: &Vec<u8>) -> (r: u32)
    requires
        o@.len() == 4,
    ensures
        r == octets_value(o@),
{
    let mut acc: u32 = 0;
    let mut i: usize = 0;
    while i < 4
        invariant
            o@.len() == 4,
            i <= 4,
            acc == octets_value(o@.subrange(0, i as int)),
        decreases 4 - i,
    {
        proof {
            lemma_octets_bound(o@.subrange(0, i as int));
            reveal_with_fuel(pow256, 5);
            assert(o@.subrange(0, i + 1).drop_last() == o@.subrange(0, i as int));
            let ghost q = pow256(i as nat);
            let ghost l = o@[i as int] as nat;
            assert(q <= 16777216) by {
                if i == 0 {
                } else if i == 1 {
                } else if i == 2 {
                } else {
                }
            }
            assert(acc * 256 + l < 4294967296) by (nonlinear_arith)
                requires
                    acc < q,
                    q <= 16777216,
                    l < 256,
            ;
        }
        acc = acc * 256 + (o[i] as u32);
        i = i + 1;
    }
    assert(o@.subrange(0, 4) == o@);
    acc
}

/// The number eight groups denote.
fn value_of_groups(g: &Vec<u16>) -> (r: u128)
    requires
        g@.len() == 8,
    ensures
        r == groups_value(g@),
{
    let mut acc: u128 = 0;
    let mut i: usize = 0;
    while i < 8
        invariant
            g@.len() == 8,
            i <= 8,
            acc == groups_value(g@.subrange(0, i as int)),
        decreases 8 - i,
    {
        proof {
            assert(g@.subrange(0, i + 1).drop_last() == g@.subrange(0, i as int));
            lemma_groups_bound(g@.subrange(0, i + 1));
            lemma_pow65536_le_8((i + 1) as nat);
        }
        acc = acc * 65536 + (g[i] as u128);
        i = i + 1;
    }
    assert(g@.subrange(0, 8) == g@);
    acc
}

/// Reads dotted-quad IPv4 text.
pub fn parse_ipv4(s: &[char]) -> (r: Option<u32>)
    ensures
        r == spec_parse_ipv4(s@),
{
    let parts = split_chars(s, '.');
    let ghost sp = split_on(s@, '.');
    if parts.len() != 4 {
        return None;
    }
    let mut octs: Vec<u8> = Vec::new();
    let mut i: usize = 0;
    while i < 4
        invariant
            parts@.len() == 4,
            views(parts@) == sp,
            sp == split_on(s@, '.'),
            i <= 4,
            octs@.len() == i,
            forall|k: int| 0 <= k < i ==> (#[trigger] dec_octet(sp[k])) == Some(octs@[k]),
        decreases 4 - i,
    {
        assert(parts@[i as int]@ == sp[i as int]);
        match parse_dec_octet(parts[i].as_slice()) {
            None => {
                assert(!all_octets(sp));
                return None;
            },
            Some(o) => {
                octs.push(o);
            },
        }
        i = i + 1;
    }
    assert(all_octets(sp));
    assert(octs@ =~= octet_values(sp));
    Some(value_of_octets(&octs))
}

/// Reads the first `n` pieces as IPv6 groups.
fn h16_prefix(parts: &Vec<Vec<char>>, n: usize) -> (r: Option<Vec<u16>>)
    requires
        n <= parts@.len(),
    ensures
        match r {
            Some(g) => all_h16(views(parts@).take(n as int)) && g@ == h16_values(
                views(parts@).take(n as int),
            ),
            None => !all_h16(views(parts@).take(n as int)),
        },
{
    let ghost sp = views(parts@).take(n as int);
    let mut g: Vec<u16> = Vec::new();
    let mut i: usize = 0;
    while i < n
        invariant
            n <= parts@.len(),
            sp == views(parts@).take(n as int),
            i <= n,
            g@.len() == i,
            forall|k: int| 0 <= k < i ==> (#[trigger] h16(sp[k])) == Some(g@[k]),
        decreases n - i,
    {
        assert(parts@[i as int]@ == sp[i as int]);
        match parse_h16(parts[i].as_slice()) {
            None => {
                assert(h16(sp[i as int]) is None);
                return None;
            },
            Some(v) => {
                g.push(v);
            },
        }
        i = i + 1;
    }
    assert(all_h16(sp));
    assert(g@ =~= h16_values(sp));
    Some(g)
}

fn tail_groups_exec(t: &[char]) -> (r: Option<Vec<u16>>)
    ensures
        match r {
            Some(g) => tail_groups(t@) == Some(g@),
            None => tail_groups(t@) is None,
        },
{
    if t.len() == 0 {
        return Some(Vec::new());
    }
    let parts = split_chars(t, ':');
    let ghost sp = split_on(t@, ':');
    proof {
        lemma_split_nonempty(t@, ':');
    }
    let n = parts.len();
    assert(views(parts@).take(n as int) == sp);
    match h16_prefix(&parts, n) {
        Some(g) => {
            return Some(g);
        },
        None => {},
    }
    assert(views(parts@).take(n - 1) == sp.drop_last());
    match h16_prefix(&parts, n - 1) {
        None => None,
        Some(g) => {
            assert(parts@[n - 1]@ == sp.last());
            match parse_ipv4(parts[n - 1].as_slice()) {
                None => None,
                Some(v) => {
                    let mut g = g;
                    g.push((v / 65536) as u16);
                    g.push((v % 65536) as u16);
                    assert(g@ =~= h16_values(sp.drop_last()) + ipv4_groups(v));
                    Some(g)
                },
            }
        },
    }
}

fn head_groups_exec(h: &[char]) -> (r: Option<Vec<u16>>)
    ensures
        match r {
            Some(g) => head_groups(h@) == Some(g@),
            None => head_groups(h@) is None,
        },
{
    if h.len() == 0 {
        return Some(Vec::new());
    }
    let parts = split_chars(h, ':');
    let n = parts.len();
    assert(views(parts@).take(n as int) == split_on(h@, ':'));
    h16_prefix(&parts, n)
}

fn find_double_colon_exec(s: &[char]) -> (r: Option<usize>)
    ensures
        match r {
            Some(k) => find_double_colon(s@, 0) == Some(k as int) && double_colon_at(s@, k as int),
            None => find_double_colon(s@, 0) is None,
        },
{
    let mut i: usize = 0;
    while i < s.len() && s.len() - i > 1
        invariant
            i <= s.len(),
            find_double_colon(s@, 0) == find_double_colon(s@, i as int),
        decreases s.len() - i,
    {
        if s[i] == ':' && s[i + 1] == ':' {
            return Some(i);
        }
        i = i + 1;
    }
    None
}

/// Reads IPv6 text.
pub fn parse_ipv6(s: &[char]) -> (r: Option<u128>)
    ensures
        r == spec_parse_ipv6(s@),
{
    match find_double_colon_exec(s) {
        Some(k) => {
            let head = chars_slice(s, 0, k);
            let tail = chars_slice(s, k + 2, s.len());
            let h = match head_groups_exec(head.as_slice()) {
                Some(h) => h,
                None => {
                    return None;
                },
            };
            let t = match tail_groups_exec(tail.as_slice()) {
                Some(t) => t,
                None => {
                    return None;
                },
            };
            if h.len() > 7 || t.len() > 7 - h.len() {
                return None;
            }
            let zeros: usize = 8 - h.len() - t.len();
            let mut all = h;
            let ghost hv = all@;
            let mut j: usize = 0;
            while j < zeros
                invariant
                    j <= zeros,
                    all@ == hv + Seq::new(j as nat, |i: int| 0u16),
                decreases zeros - j,
            {
                all.push(0u16);
                j = j + 1;
                assert(all@ =~= hv + Seq::new(j as nat, |i: int| 0u16));
            }
            let mut j: usize = 0;
            let ghost mid = all@;
            while j < t.len()
                invariant
                    j <= t.len(),
                    all@ == mid + t@.subrange(0, j as int),
                decreases t.len() - j,
            {
                all.push(t[j]);
                j = j + 1;
                assert(all@ =~= mid + t@.subrange(0, j as int));
            }
            assert(t@.subrange(0, t@.len() as int) == t@);
            Some(value_of_groups(&all))
        },
        None => {
            match tail_groups_exec(s) {
                Some(g) => {
                    if g.len() == 8 {
                        Some(value_of_groups(&g))
                    } else {
                        None
                    }
                },
                None => None,
            }
        },
    }
}

impl IpAddress {
    /// Reads an IP address literal as `IpAddr::from_str` does: IPv4 first,
    /// then IPv6. `None` for any other text.
    pub fn parse(s: &str) -> (r: Option<IpAddress>)
        ensures
            r == spec_parse_ip(s@),
    {
        let cs = chars_of(s);
        match parse_ipv4(cs.as_slice()) {
            Some(v) => Some(IpAddress::V4(v)),
            None => match parse_ipv6(cs.as_slice()) {
                Some(v) => Some(IpAddress::V6(v)),
                None => None,
            },
        }
    }
}

// ---------------------------------------------------------------------
// Laws.
// ---------------------------------------------------------------------

/// Splitting text joined at a separator splits each side.
proof fn lemma_split_concat(x: Seq<char>, y: Seq<char>, sep: char)
    ensures
        split_on(x + seq![sep] + y, sep) == split_on(x, sep) + split_on(y, sep),
    decreases y.len(),
{
    let xs = x + seq![sep];
    if y.len() == 0 {
        assert(xs + y =~= xs);
        assert(xs.drop_last() =~= x);
        assert(split_on(y, sep) == seq![Seq::<char>::empty()]);
        assert(split_on(x, sep).push(Seq::<char>::empty()) =~= split_on(x, sep) + split_on(y, sep));
    } else {
        let y0 = y.drop_last();
        let c = y.last();
        lemma_split_concat(x, y0, sep);
        lemma_split_nonempty(y0, sep);
        lemma_split_nonempty(x, sep);
        assert((xs + y).drop_last() =~= xs + y0);
        assert((xs + y).last() == c);
        let a = split_on(x, sep);
        let b = split_on(y0, sep);
        if c == sep {
            assert((a + b).push(Seq::<char>::empty()) =~= a + b.push(Seq::<char>::empty()));
        } else {
            let ab = a + b;
            assert(ab.last() == b.last());
            assert(ab.update(ab.len() - 1, ab.last().push(c)) =~= a + b.update(
                b.len() - 1,
                b.last().push(c),
            ));
        }
    }
}

/// Text without the separator is a single piece.
proof fn lemma_split_single(x: Seq<char>, sep: char)
    requires
        forall|i: int| 0 <= i < x.len() ==> x[i] != sep,
    ensures
        split_on(x, sep) == seq![x],
    decreases x.len(),
{
    if x.len() > 0 {
        let x0 = x.drop_last();
        assert forall|i: int| 0 <= i < x0.len() implies x0[i] != sep by {
            assert(x0[i] == x[i]);
        }
        lemma_split_single(x0, sep);
        assert(x.last() == x[x.len() - 1]);
        assert(x.last() != sep);
        assert(x0.push(x.last()) =~= x);
        assert(seq![x0].update(0, x0.push(x.last())) =~= seq![x]);
    } else {
        assert(x =~= Seq::<char>::empty());
    }
}

/// The first digit of a number's decimal text is `0` only for zero itself.
proof fn lemma_decimal_first(n: nat)
    ensures
        decimal(n).len() >= 1,
        n >= 10 ==> decimal(n).len() >= 2 && decimal(n)[0] != '0',
        n < 10 ==> decimal(n).len() == 1,
        n < 100 ==> decimal(n).len() <= 2,
        n < 1000 ==> decimal(n).len() <= 3,
    decreases n,
{
    crate::text::lemma_decimal_digits(n);
    if n >= 10 {
        lemma_decimal_first(n / 10);
        crate::text::lemma_decimal_digits(n / 10);
        let d = decimal(n / 10);
        assert(decimal(n) == d.push(crate::text::digit_char(n % 10)));
        assert(decimal(n)[0] == d[0]);
        if n / 10 < 10 {
            assert(d.len() == 1);
            assert(d[0] == crate::text::digit_char(n / 10));
            assert(crate::text::digit_value(d[0]) == digits_value(d)) by {
                assert(d.drop_last() =~= Seq::<char>::empty());
            }
        }
    } else {
        assert(decimal(n) == seq![crate::text::digit_char(n)]);
    }
}

proof fn lemma_dec_octet_of_decimal(n: u8)
    ensures
        dec_octet(decimal(n as nat)) == Some(n),
        forall|i: int| 0 <= i < decimal(n as nat).len() ==> decimal(n as nat)[i] != '.',
{
    crate::text::lemma_decimal_digits(n as nat);
    lemma_decimal_first(n as nat);
    let d = decimal(n as nat);
    assert forall|i: int| 0 <= i < d.len() implies d[i] != '.' by {
        assert(crate::text::is_ascii_digit(d[i]));
    }
    if n as nat >= 10 {
        assert(d[0] != '0');
    }
}

/// The dotted-decimal text of four bytes reads back as the address they
/// make, most significant byte first.
pub proof fn law_ipv4_text_round_trip(a: u8, b: u8, c: u8, d: u8)
    ensures
        spec_parse_ip(
            decimal(a as nat) + seq!['.'] + decimal(b as nat) + seq!['.'] + decimal(c as nat)
                + seq!['.'] + decimal(d as nat),
        ) == Some(IpAddress::V4((((a as nat * 256 + b as nat) * 256 + c as nat) * 256 + d as nat) as u32)),
{
    let da = decimal(a as nat);
    let db = decimal(b as nat);
    let dc = decimal(c as nat);
    let dd = decimal(d as nat);
    lemma_dec_octet_of_decimal(a);
    lemma_dec_octet_of_decimal(b);
    lemma_dec_octet_of_decimal(c);
    lemma_dec_octet_of_decimal(d);
    lemma_split_single(da, '.');
    lemma_split_single(db, '.');
    lemma_split_single(dc, '.');
    lemma_split_single(dd, '.');
    let s1 = da + seq!['.'] + db;
    let s2 = s1 + seq!['.'] + dc;
    let s3 = s2 + seq!['.'] + dd;
    lemma_split_concat(da, db, '.');
    lemma_split_concat(s1, dc, '.');
    lemma_split_concat(s2, dd, '.');
    let parts = split_on(s3, '.');
    assert(parts =~= seq![da, db, dc, dd]);
    assert(all_octets(parts));
    let o = octet_values(parts);
    assert(o =~= seq![a, b, c, d]);
    assert(o.drop_last() =~= seq![a, b, c]);
    assert(o.drop_last().drop_last() =~= seq![a, b]);
    assert(o.drop_last().drop_last().drop_last() =~= seq![a]);
    assert(seq![a].drop_last() =~= Seq::<u8>::empty());
    let v = (((a as nat * 256 + b as nat) * 256 + c as nat) * 256 + d as nat);
    reveal_with_fuel(octets_value, 5);
    assert(octets_value(o) == v);
    assert(v < 4294967296) by (nonlinear_arith)
        requires
            a < 256,
            b < 256,
            c < 256,
            d < 256,
            v == (((a as nat * 256 + b as nat) * 256 + c as nat) * 256 + d as nat),
    ;
}

} // verus!
