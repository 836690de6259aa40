//! LAN discovery: the request and answer packets, and the client's list of servers seen
//! in the latest discovery round.

use vstd::prelude::*;
use crate::settings::json::{lemma_str_lt_total, lemma_str_lt_trans, str_eq, str_less, str_lt};
use crate::text::{decimal, digit_char, to_owned_string, usize_to_decimal};

verus! {

/// The discovery request a client broadcasts.
pub const MAGIC: [u8; 17] = [70u8, 79, 82, 71, 69, 95, 68, 73, 83, 67, 79, 86, 69, 82, 95, 86, 49];

/// The bytes of [`MAGIC`].
pub open spec fn magic_bytes() -> Seq<u8> {
    seq![70u8, 79, 82, 71, 69, 95, 68, 73, 83, 67, 79, 86, 69, 82, 95, 86, 49]
}

/// The prefix of a discovery answer, before the game port.
pub open spec fn response_prefix() -> Seq<u8> {
    seq![70u8, 79, 82, 71, 69, 95, 82, 69, 83, 80, 95, 86, 49, 59]
}

/// The discovery request, as bytes.
pub fn magic() -> (r: Vec<u8>)
    ensures
        r@ == magic_bytes(),
{
    let mut v: Vec<u8> = Vec::new();
    v.push(70); v.push(79); v.push(82); v.push(71); v.push(69); v.push(95);
    v.push(68); v.push(73); v.push(83); v.push(67); v.push(79); v.push(86);
    v.push(69); v.push(82); v.push(95); v.push(86); v.push(49);
    assert(v@ =~= magic_bytes());
    v
}

/// True when a received packet is a discovery request.
pub fn is_discovery_request(packet: &[u8]) -> (r: bool)
    ensures
        r == (packet@ == magic_bytes()),
{
    let m = magic();
    if packet.len() != m.len() {
        return false;
    }
    let mut i: usize = 0;
    while i < m.len()
        invariant
            i <= m@.len(),
            m@ == magic_bytes(),
            packet@.len() == m@.len(),
            forall|k: int| 0 <= k < i ==> packet@[k] == m@[k],
        decreases m@.len() - i,
    {
        if packet[i] != m[i] {
            return false;
        }
        i += 1;
    }
    assert(packet@ =~= magic_bytes());
    true
}

/// The ASCII bytes of a decimal form.
pub open spec fn ascii_bytes(s: Seq<char>) -> Seq<u8> {
    s.map_values(|c: char| c as u8)
}

/// The discovery answer of a server whose game port is `port`: the prefix, then the
/// port in decimal.
pub open spec fn response_bytes(port: u16) -> Seq<u8> {
    response_prefix() + ascii_bytes(decimal(port as nat))
}

proof fn lemma_decimal_ascii(n: nat)
    ensures
        forall|i: int| 0 <= i < decimal(n).len() ==> crate::text::is_digit(#[trigger] decimal(n)[i]),
    decreases n,
{
    if n >= 10 {
        lemma_decimal_ascii(n / 10);
        let d = decimal(n / 10);
        assert forall|i: int| 0 <= i < decimal(n).len() implies crate::text::is_digit(#[trigger] decimal(n)[i]) by {
            if i < d.len() {
                assert(decimal(n)[i] == d[i]);
            } else {
                assert(decimal(n)[i] == crate::text::digit_char(n % 10));
            }
        }
    }
}

/// The discovery answer of a server whose game port is `port`.
pub fn discovery_response(port: u16) -> (r: Vec<u8>)
    ensures
        r@ == response_bytes(port),
{
    let mut v: Vec<u8> = Vec::new();
    v.push(70); v.push(79); v.push(82); v.push(71); v.push(69); v.push(95);
    v.push(82); v.push(69); v.push(83); v.push(80); v.push(95); v.push(86);
    v.push(49); v.push(59);
    assert(v@ =~= response_prefix());
    let d = crate::text::chars_of(usize_to_decimal(port as usize).as_str());
    let mut i: usize = 0;
    proof { lemma_decimal_ascii(port as nat); }
    while i < d.len()
        invariant
            i <= d@.len(),
            d@ == decimal(port as nat),
            forall|k: int| 0 <= k < d@.len() ==> crate::text::is_digit(#[trigger] d@[k]),
            v@ == response_prefix() + ascii_bytes(d@.take(i as int)),
        decreases d@.len() - i,
    {
        let c = d[i];
        let b: u8 = (c as u32) as u8;
        proof {
            assert(ascii_bytes(d@.take(i + 1)) =~= ascii_bytes(d@.take(i as int)).push(c as u8));
        }
        v.push(b);
        proof {
            assert(response_prefix() + ascii_bytes(d@.take(i + 1))
                =~= (response_prefix() + ascii_bytes(d@.take(i as int))).push(c as u8));
        }
        i += 1;
    }
    proof { assert(d@.take(i as int) =~= d@); }
    v
}

/// The value of ASCII decimal digits.
pub open spec fn digits_value_bytes(d: Seq<u8>) -> nat
    decreases d.len(),
{
    if d.len() == 0 {
        0
    } else {
        digits_value_bytes(d.drop_last()) * 10 + (d.last() - 48) as nat
    }
}

/// The packet starts with the answer prefix.
pub open spec fn has_response_prefix(packet: Seq<u8>) -> bool {
    packet.len() >= response_prefix().len() && packet.take(response_prefix().len() as int) == response_prefix()
}

/// The bytes after the answer prefix, without a leading `+`.
pub open spec fn announced_digits(packet: Seq<u8>) -> Seq<u8> {
    let rest = packet.skip(response_prefix().len() as int);
    if rest.len() > 0 && rest[0] == 43u8 { rest.drop_first() } else { rest }
}

/// The port an answer packet announces, as the client reads it: the bytes after the
/// prefix read as a `u16` in decimal (an optional `+`, then one or more digits).
pub open spec fn announced_port(packet: Seq<u8>) -> Option<u16> {
    if has_response_prefix(packet) {
        let d = announced_digits(packet);
        if d.len() > 0 && (forall|i: int| 0 <= i < d.len() ==> 48 <= #[trigger] d[i] <= 57)
            && digits_value_bytes(d) <= u16::MAX {
            Some(digits_value_bytes(d) as u16)
        } else {
            None
        }
    } else {
        None
    }
}

proof fn lemma_digits_bytes_grow(d: Seq<u8>, k: int)
    requires
        0 <= k <= d.len(),
        forall|i: int| 0 <= i < d.len() ==> 48 <= #[trigger] d[i] <= 57,
    ensures
        digits_value_bytes(d.take(k)) <= digits_value_bytes(d),
    decreases d.len() - k,
{
    if k < d.len() {
        lemma_digits_bytes_grow(d, k + 1);
        assert(d.take(k + 1).drop_last() =~= d.take(k));
    } else {
        assert(d.take(k) =~= d);
    }
}

/// The ASCII bytes of `decimal(n)` are digits that read back as `n`.
proof fn lemma_decimal_bytes_value(n: nat)
    ensures
        ascii_bytes(decimal(n)).len() >= 1,
        forall|i: int| 0 <= i < ascii_bytes(decimal(n)).len() ==> 48 <= #[trigger] ascii_bytes(decimal(n))[i] <= 57,
        digits_value_bytes(ascii_bytes(decimal(n))) == n,
    decreases n,
{
    let b = ascii_bytes(decimal(n));
    if n < 10 {
        assert(b.drop_last().len() == 0);
        assert(digits_value_bytes(b.drop_last()) == 0);
        assert(b.last() == digit_char(n) as u8);
        assert((digit_char(n) as u8) - 48 == n);
        assert(digits_value_bytes(b) == n);
    } else {
        lemma_decimal_bytes_value(n / 10);
        let a = ascii_bytes(decimal(n / 10));
        assert(b.drop_last() =~= a);
        assert(b.last() == digit_char(n % 10) as u8);
        assert((digit_char(n % 10) as u8) - 48 == n % 10);
        assert(digits_value_bytes(b) == digits_value_bytes(a) * 10 + n % 10);
        assert((n / 10) * 10 + n % 10 == n);
        assert forall|i: int| 0 <= i < b.len() implies 48 <= #[trigger] b[i] <= 57 by {
            if i < a.len() {
                assert(b[i] == a[i]);
            }
        }
    }
}

/// What the client reads back of a server's discovery answer is the server's game
/// port; and an answer is never taken for a request.
pub proof fn discovery_answer_roundtrip(port: u16)
    ensures
        announced_port(response_bytes(port)) == Some(port),
        response_bytes(port) != magic_bytes(),
{
    let r = response_bytes(port);
    let pre = response_prefix();
    let d = ascii_bytes(decimal(port as nat));
    lemma_decimal_bytes_value(port as nat);
    assert(r.take(pre.len() as int) =~= pre);
    assert(r.skip(pre.len() as int) =~= d);
    assert(d[0] != 43u8);
    assert(announced_digits(r) == d);
    assert(r[5] != magic_bytes()[5] || r[6] != magic_bytes()[6]);
}

/// The port announced by a discovery answer, if the packet is one.
pub fn parse_discovery_response(packet: &[u8]) -> (r: Option<u16>)
    ensures
        r == announced_port(packet@),
{
    let p = response_prefix_vec();
    let n = packet.len();
    if n < p.len() {
        return None;
    }
    let mut i: usize = 0;
    while i < p.len()
        invariant
            i <= p@.len() <= n,
            n == packet@.len(),
            p@ == response_prefix(),
            forall|k: int| 0 <= k < i ==> packet@[k] == p@[k],
        decreases p@.len() - i,
    {
        if packet[i] != p[i] {
            assert(packet@.take(p@.len() as int)[i as int] != response_prefix()[i as int]);
            return None;
        }
        i += 1;
    }
    assert(packet@.take(p@.len() as int) =~= response_prefix());
    let ghost rest = packet@.skip(p@.len() as int);
    let mut j: usize = p.len();
    if j < n && packet[j] == 43u8 {
        j = j + 1;
    }
    let first = j;
    let ghost d = announced_digits(packet@);
    assert(d =~= packet@.subrange(first as int, n as int));
    assert(has_response_prefix(packet@));
    if first == n {
        return None;
    }
    let mut acc: u32 = 0;
    while j < n
        invariant
            first <= j <= n,
            n == packet@.len(),
            d == packet@.subrange(first as int, n as int),
            d == announced_digits(packet@),
            has_response_prefix(packet@),
            forall|k: int| 0 <= k < j - first ==> 48 <= #[trigger] d[k] <= 57,
            acc == digits_value_bytes(d.take(j - first)),
            acc <= u16::MAX,
        decreases n - j,
    {
        let b = packet[j];
        if b < 48 || b > 57 {
            assert(d[j - first] == b);
            return None;
        }
        proof {
            assert(d.take(j - first + 1).drop_last() =~= d.take(j - first));
            assert(d.take(j - first + 1).last() == b);
        }
        let next: u32 = acc * 10 + (b - 48) as u32;
        if next > 65535 {
            proof {
                assert(d[j - first] == b);
                if forall|k: int| 0 <= k < d.len() ==> 48 <= #[trigger] d[k] <= 57 {
                    lemma_digits_bytes_grow(d, j - first + 1);
                }
            }
            return None;
        }
        acc = next;
        j += 1;
    }
    assert(d.take(n - first) =~= d);
    Some(acc as u16)
}

fn response_prefix_vec() -> (r: Vec<u8>)
    ensures
        r@ == response_prefix(),
{
    let mut v: Vec<u8> = Vec::new();
    v.push(70); v.push(79); v.push(82); v.push(71); v.push(69); v.push(95);
    v.push(82); v.push(69); v.push(83); v.push(80); v.push(95); v.push(86);
    v.push(49); v.push(59);
    assert(v@ =~= response_prefix());
    v
}

/// The address a discovered server is listed under: `https://`, its IP, `:`, the port.
pub fn server_url(ip: &str, port: u16) -> (r: String)
    ensures
        r@ == "https://"@ + ip@ + ":"@ + decimal(port as nat),
{
    let mut s = to_owned_string("https://");
    s.append(ip);
    s.append(":");
    let d = usize_to_decimal(port as usize);
    s.append(d.as_str());
    s
}

/// How many discovery rounds a visit of the join screen runs.
pub const DISCOVERY_CYCLES: usize = 5;

/// The client's discovery state: rounds left, the current round, and the servers seen
/// with the round that last saw each.
pub struct DiscoveryControl {
    pub cycles_remaining: usize,
    pub current_generation: u64,
    /// The addresses seen, with the round that last saw each.
    pub seen_servers: Vec<(String, u64)>,
}

/// The addresses are strictly increasing.
pub open spec fn strictly_sorted(s: Seq<Seq<char>>) -> bool {
    forall|i: int, j: int| 0 <= i < j < s.len() ==> str_lt(#[trigger] s[i], #[trigger] s[j])
}

/// The addresses held by strings.
pub open spec fn addrs(v: Seq<String>) -> Seq<Seq<char>> {
    v.map_values(|s: String| s@)
}

/// The servers seen, as addresses with the round that last saw each.
pub open spec fn seen_view(v: Seq<(String, u64)>) -> Seq<(Seq<char>, u64)> {
    v.map_values(|e: (String, u64)| (e.0@, e.1))
}

impl DiscoveryControl {
    /// The servers seen so far with their rounds.
    pub open spec fn seen(&self) -> Seq<(Seq<char>, u64)> {
        seen_view(self.seen_servers@)
    }

    /// No rounds left, round 0, nothing seen.
    pub fn new() -> (r: DiscoveryControl)
        ensures
            r.cycles_remaining == 0,
            r.current_generation == 0,
            r.seen().len() == 0,
    {
        let r = DiscoveryControl { cycles_remaining: 0, current_generation: 0, seen_servers: Vec::new() };
        assert(r.seen() =~= Seq::<(Seq<char>, u64)>::empty());
        r
    }

    /// Entering the join screen: [`DISCOVERY_CYCLES`] rounds to run.
    pub fn reset(&mut self)
        ensures
            final(self).cycles_remaining == DISCOVERY_CYCLES,
            final(self).current_generation == old(self).current_generation,
            final(self).seen() == old(self).seen(),
    {
        self.cycles_remaining = DISCOVERY_CYCLES;
    }

    /// Starts a round when none is running, rounds are left and the timer has fired:
    /// one round fewer left, the next round number, which is returned.
    pub fn start_cycle(&mut self, task_running: bool, timer_finished: bool) -> (r: Option<u64>)
        requires
            old(self).current_generation < u64::MAX,
        ensures
            if !task_running && old(self).cycles_remaining > 0 && timer_finished {
                &&& r == Some((old(self).current_generation + 1) as u64)
                &&& final(self).cycles_remaining == old(self).cycles_remaining - 1
                &&& final(self).current_generation == old(self).current_generation + 1
            } else {
                &&& r is None
                &&& final(self).cycles_remaining == old(self).cycles_remaining
                &&& final(self).current_generation == old(self).current_generation
            },
            final(self).seen() == old(self).seen(),
    {
        if task_running || self.cycles_remaining == 0 || !timer_finished {
            return None;
        }
        self.cycles_remaining = self.cycles_remaining - 1;
        self.current_generation = self.current_generation + 1;
        Some(self.current_generation)
    }

    /// Takes the addresses a round found: afterwards exactly those are seen, all in the
    /// current round; returns them sorted, each once.
    pub fn collect(&mut self, found: Vec<String>) -> (r: Vec<String>)
        ensures
            final(self).cycles_remaining == old(self).cycles_remaining,
            final(self).current_generation == old(self).current_generation,
            strictly_sorted(addrs(r@)),
            forall|a: Seq<char>| #[trigger] addrs(r@).contains(a)
                <==> addrs(found@).contains(a),
            final(self).seen() == addrs(r@).map_values(|a: Seq<char>| (a, old(self).current_generation)),
    {
        let gen = self.current_generation;
        let mut sorted: Vec<String> = Vec::new();
        let ghost fv = addrs(found@);
        let mut i: usize = 0;
        while i < found.len()
            invariant
                i <= found@.len(),
                fv == addrs(found@),
                strictly_sorted(addrs(sorted@)),
                forall|a: Seq<char>| #[trigger] addrs(sorted@).contains(a)
                    <==> fv.take(i as int).contains(a),
            decreases found@.len() - i,
        {
            let ghost before = addrs(sorted@);
            let x = found[i].clone();
            let ghost xv = x@;
            insert_sorted_unique(&mut sorted, x);
            proof {
                assert(fv.take(i + 1) =~= fv.take(i as int).push(fv[i as int]));
                assert forall|a: Seq<char>| addrs(sorted@).contains(a)
                    <==> fv.take(i + 1).contains(a) by {
                    let t1 = fv.take(i + 1);
                    let t0 = fv.take(i as int);
                    assert(before.contains(a) <==> t0.contains(a));
                    assert(xv == fv[i as int]);
                    if a == xv {
                        assert(t1[i as int] == a);
                    }
                    if t1.contains(a) {
                        let k = choose|k: int| 0 <= k < t1.len() && #[trigger] t1[k] == a;
                        if k < i {
                            assert(t0[k] == a);
                        }
                    }
                    if t0.contains(a) {
                        let k = choose|k: int| 0 <= k < t0.len() && #[trigger] t0[k] == a;
                        assert(t1[k] == a);
                    }
                }
            }
            i += 1;
        }
        proof { assert(fv.take(i as int) =~= fv); }
        let mut seen: Vec<(String, u64)> = Vec::new();
        let mut k: usize = 0;
        while k < sorted.len()
            invariant
                k <= sorted@.len(),
                seen_view(seen@) == addrs(sorted@).take(k as int).map_values(|a: Seq<char>| (a, gen)),
            decreases sorted@.len() - k,
        {
            let ghost before = seen_view(seen@);
            let name = sorted[k].clone();
            seen.push((name, gen));
            proof {
                assert(seen_view(seen@) =~= before.push((addrs(sorted@)[k as int], gen)));
                assert(seen_view(seen@) =~= addrs(sorted@).take(k + 1).map_values(|a: Seq<char>| (a, gen)));
            }
            k += 1;
        }
        proof {
            assert(addrs(sorted@).take(k as int) =~= addrs(sorted@));
        }
        self.seen_servers = seen;
        sorted
    }
}

/// Inserts `x` into the strictly sorted `v` unless it is already there.
fn insert_sorted_unique(v: &mut Vec<String>, x: String)
    requires
        strictly_sorted(addrs(old(v)@)),
    ensures
        strictly_sorted(addrs(final(v)@)),
        forall|a: Seq<char>| #[trigger] addrs(final(v)@).contains(a)
            <==> (addrs(old(v)@).contains(a) || a == x@),
{
    let ghost s = addrs(v@);
    let mut i: usize = 0;
    while i < v.len() && str_less(v[i].as_str(), x.as_str())
        invariant
            i <= v@.len(),
            s == addrs(v@),
            s == addrs(old(v)@),
            forall|k: int| 0 <= k < i ==> str_lt(#[trigger] s[k], x@),
        decreases v@.len() - i,
    {
        i += 1;
    }
    if i < v.len() && str_eq(v[i].as_str(), x.as_str()) {
        proof {
            assert(s[i as int] == x@);
        }
        return;
    }
    proof {
        if i < s.len() {
            lemma_str_lt_total(s[i as int], x@);
        }
    }
    let ghost xv = x@;
    v.insert(i, x);
    proof {
        let t = addrs(v@);
        assert(t =~= s.insert(i as int, xv));
        s.insert_ensures(i as int, xv);
        assert forall|p: int, q: int| 0 <= p < q < t.len() implies str_lt(#[trigger] t[p], #[trigger] t[q]) by {
            if p < i && q == i {
            } else if p < i && q > i {
                assert(t[q] == s[q - 1]);
                if q - 1 > p {
                } 
            } else if p == i && q > i {
                assert(t[q] == s[q - 1]);
                if q - 1 > i {
                    lemma_str_lt_trans(xv, s[i as int], s[q - 1]);
                }
            } else if q < i {
                assert(t[p] == s[p] && t[q] == s[q]);
            } else {
                assert(t[p] == s[p - 1] && t[q] == s[q - 1]);
            }
        }
        assert forall|a: Seq<char>| t.contains(a) <==> (s.contains(a) || a == xv) by {
            if t.contains(a) {
                let k = choose|k: int| 0 <= k < t.len() && #[trigger] t[k] == a;
                if k < i { assert(s[k] == a); } else if k > i { assert(s[k - 1] == a); }
            }
            if s.contains(a) {
                let k = choose|k: int| 0 <= k < s.len() && #[trigger] s[k] == a;
                if k < i { assert(t[k] == a); } else { assert(t[k + 1] == a); }
            }
            if a == xv {
                assert(t[i as int] == a);
            }
        }
    }
}

} // verus!
