pub mod pattern;

use vstd::prelude::*;

use crate::error::Error;
use crate::route::pattern::{
    find_from, is_cidr_line, is_cidr_shape, is_domain_line, is_domain_pattern, lower_seq,
    parse_cidr, spec_ipv4_literal, spec_parse_cidr,
};
use crate::socks5::target::{target_wf, Socks5Target, TargetView};
use crate::util::{trim_of, TrimInPlace};

verus! {

/// What the router decides for a target.
#[derive(Copy, Clone, Debug, PartialEq, Eq, Structural)]
pub enum Action {
    Direct,
    Proxy,
    Reject,
}

/// The mathematical shape of a rule section.
#[verifier::ext_equal]
pub struct SectionView {
    pub exact_domains: Seq<Seq<u8>>,
    pub suffix_domains: Seq<Seq<u8>>,
    pub ipv4_index: Seq<(u32, u8)>,
    pub ipv4_prefixes: Seq<(u32, u8)>,
}

/// One rule section: exact and suffix domain patterns, the
/// authoritative IPv4 prefixes, and a coarse snapshot of those
/// prefixes at the even lengths 2 to 30 that the prefix-length binary
/// search walks.
#[derive(Debug)]
pub struct Section {
    pub exact_domains: Vec<Vec<u8>>,
    pub suffix_domains: Vec<Vec<u8>>,
    pub ipv4_index: Vec<(u32, u8)>,
    pub ipv4_prefixes: Vec<(u32, u8)>,
}

impl View for Section {
    type V = SectionView;

    open spec fn view(&self) -> SectionView {
        SectionView {
            exact_domains: self.exact_domains@.map_values(|v: Vec<u8>| v@),
            suffix_domains: self.suffix_domains@.map_values(|v: Vec<u8>| v@),
            ipv4_index: self.ipv4_index@,
            ipv4_prefixes: self.ipv4_prefixes@,
        }
    }
}

/// The network mask that keeps the leading `len` bits.
pub open spec fn mask_of(len: int) -> u32 {
    if len <= 0 {
        0u32
    } else {
        (0xffffffffu32 << ((32 - len) as u32)) as u32
    }
}

/// Computes the network mask for a prefix length.
fn prefix_mask(len: u8) -> (m: u32)
    requires
        len <= 32,
    ensures
        m == mask_of(len as int),
{
    if len == 0 {
        0
    } else {
        0xffffffffu32 << ((32 - len) as u32)
    }
}

/// The address lies inside the prefix: its leading `len` bits equal
/// the network.
pub open spec fn ip_in_prefix(ip: u32, net: u32, len: u8) -> bool {
    len <= 32 && (ip & mask_of(len as int)) == net
}

/// The list holds this network and length pair.
pub open spec fn has_pair(l: Seq<(u32, u8)>, net: u32, len: u8) -> bool {
    exists|i: int| 0 <= i < l.len() && l[i] == (net, len)
}

/// The list holds this octet sequence.
pub open spec fn in_domain_list(l: Seq<Seq<u8>>, d: Seq<u8>) -> bool {
    exists|i: int| 0 <= i < l.len() && l[i] == d
}

impl SectionView {
    /// The name, already lower-cased, matches the section: it is an
    /// exact entry, a suffix entry whole, or a suffix entry starting
    /// right after one of its dots.
    pub open spec fn domain_matched(self, d: Seq<u8>) -> bool {
        ||| in_domain_list(self.exact_domains, d)
        ||| in_domain_list(self.suffix_domains, d)
        ||| exists|i: int|
            0 <= i < d.len() && d[i] == 0x2e && in_domain_list(self.suffix_domains, d.skip(i + 1))
    }

    /// The coarse index holds the address's snapshot at this length.
    pub open spec fn index_has(self, ip: u32, l: int) -> bool {
        has_pair(self.ipv4_index, ip & mask_of(l), l as u8)
    }

    /// Where the four-step binary search over the coarse index lands:
    /// the bounds of the prefix lengths left to scan.
    pub open spec fn search_bounds(self, ip: u32) -> (int, int) {
        let (s1, e1) = if self.index_has(ip, 16) {
            (16int, 32int)
        } else {
            (0int, 16int)
        };
        let m2 = (s1 + e1) / 2;
        let (s2, e2) = if self.index_has(ip, m2) {
            (m2, e1)
        } else {
            (s1, m2)
        };
        let m3 = (s2 + e2) / 2;
        let (s3, e3) = if self.index_has(ip, m3) {
            (m3, e2)
        } else {
            (s2, m3)
        };
        let m4 = (s3 + e3) / 2;
        if self.index_has(ip, m4) {
            (m4, e3)
        } else {
            (s3, m4)
        }
    }

    /// Some authoritative prefix of a length inside `[start, end)`
    /// holds the address.
    pub open spec fn scan_hit(self, ip: u32, start: int, end: int) -> bool {
        exists|l: int|
            start <= l < end && has_pair(self.ipv4_prefixes, ip & mask_of(l), (l as u8))
    }

    /// The address matches the section: the zero-length prefix is
    /// present, or the scan over the range the index search leaves
    /// finds a prefix, where a search that lands at 30 also tries the
    /// full address as a host route.
    pub open spec fn ipv4_matched(self, ip: u32) -> bool {
        ||| has_pair(self.ipv4_prefixes, 0u32, 0u8)
        ||| {
            let (start, end) = self.search_bounds(ip);
            if start == 0 {
                self.scan_hit(ip, 1, end)
            } else if start == 30 {
                has_pair(self.ipv4_prefixes, ip, 32u8) || self.scan_hit(ip, 30, end)
            } else {
                self.scan_hit(ip, start, end)
            }
        }
    }
}

/// A match always names a prefix that holds the address: whenever a
/// section reports an IPv4 match, some authoritative prefix of that
/// section contains the address.
pub proof fn lemma_ipv4_match_sound(s: SectionView, ip: u32)
    requires
        s.ipv4_matched(ip),
    ensures
        exists|j: int|
            0 <= j < s.ipv4_prefixes.len() && ip_in_prefix(
                ip,
                #[trigger] s.ipv4_prefixes[j].0,
                s.ipv4_prefixes[j].1,
            ),
{
    if has_pair(s.ipv4_prefixes, 0u32, 0u8) {
        let j = choose|j: int| 0 <= j < s.ipv4_prefixes.len() && s.ipv4_prefixes[j] == (0u32, 0u8);
        assert(ip & 0 == 0) by (bit_vector);
        assert(ip_in_prefix(ip, s.ipv4_prefixes[j].0, s.ipv4_prefixes[j].1));
    } else {
        let (start, end) = s.search_bounds(ip);
        if start != 0 && start == 30 && has_pair(s.ipv4_prefixes, ip, 32u8) {
            let j = choose|j: int|
                0 <= j < s.ipv4_prefixes.len() && s.ipv4_prefixes[j] == (ip, 32u8);
            assert(ip & mask_of(32) == ip) by (bit_vector);
            assert(ip_in_prefix(ip, s.ipv4_prefixes[j].0, s.ipv4_prefixes[j].1));
        } else {
            let lo = if start == 0 {
                1int
            } else {
                start
            };
            assert(s.scan_hit(ip, lo, end));
            let l = choose|l: int|
                lo <= l < end && has_pair(s.ipv4_prefixes, ip & mask_of(l), (l as u8));
            let j = choose|j: int|
                0 <= j < s.ipv4_prefixes.len() && s.ipv4_prefixes[j] == (
                ip & mask_of(l),
                (l as u8),
                );
            assert(ip_in_prefix(ip, s.ipv4_prefixes[j].0, s.ipv4_prefixes[j].1));
        }
    }
}

/// What inserting a domain pattern adds: a caret marks an exact
/// entry, anything else a suffix entry; the stored name is
/// lower-cased.
pub open spec fn sv_insert_domain(s: SectionView, t: Seq<u8>) -> SectionView {
    if t.len() >= 1 && t[0] == 0x5e {
        SectionView { exact_domains: s.exact_domains.push(lower_seq(t.skip(1))), ..s }
    } else {
        SectionView { suffix_domains: s.suffix_domains.push(lower_seq(t)), ..s }
    }
}

/// The coarse snapshots a prefix contributes to the index: walking
/// 16, then 8 or 24, and so on by halved steps, every visited length
/// not exceeding the prefix is recorded with the network cut to it.
pub open spec fn index_additions(net: u32, prefix: u8) -> Seq<(u32, u8)> {
    let l1: int = 16;
    let l2: int = if l1 <= prefix {
        24
    } else {
        8
    };
    let l3: int = if l2 <= prefix {
        l2 + 4
    } else {
        l2 - 4
    };
    let l4: int = if l3 <= prefix {
        l3 + 2
    } else {
        l3 - 2
    };
    (if l1 <= prefix {
        seq![((net & mask_of(l1)), l1 as u8)]
    } else {
        Seq::empty()
    }) + (if l2 <= prefix {
        seq![((net & mask_of(l2)), l2 as u8)]
    } else {
        Seq::empty()
    }) + (if l3 <= prefix {
        seq![((net & mask_of(l3)), l3 as u8)]
    } else {
        Seq::empty()
    }) + (if l4 <= prefix {
        seq![((net & mask_of(l4)), l4 as u8)]
    } else {
        Seq::empty()
    })
}

/// A coarser mask keeps only bits the finer mask keeps: masking by
/// the finer one first changes nothing.
proof fn lemma_shift_mask_comp(x: u32, a: u32, b: u32)
    requires
        b <= a <= 31,
    ensures
        (x & (0xffffffffu32 << b)) & (0xffffffffu32 << a) == x & (0xffffffffu32 << a),
{
    assert((x & (0xffffffffu32 << b)) & (0xffffffffu32 << a) == x & (0xffffffffu32 << a))
        by (bit_vector)
        requires
            b <= a <= 31u32,
    ;
}

/// An address inside a prefix agrees with its network on every
/// coarser length as well.
proof fn lemma_mask_coarser(ip: u32, net: u32, i: u32, l: u32)
    requires
        1 <= i <= l <= 32,
        ip & mask_of(l as int) == net,
    ensures
        ip & mask_of(i as int) == net & mask_of(i as int),
{
    let a: u32 = (32 - i) as u32;
    let b: u32 = (32 - l) as u32;
    assert(mask_of(i as int) == 0xffffffffu32 << a);
    assert(mask_of(l as int) == 0xffffffffu32 << b);
    lemma_shift_mask_comp(ip, a, b);
}

/// What inserting a CIDR rule adds: the canonical network and length
/// to the authoritative prefixes, and its snapshots to the index.
pub open spec fn sv_insert_ipv4(s: SectionView, ip: u32, prefix: u8) -> SectionView {
    let net = ip & mask_of(prefix as int);
    SectionView {
        ipv4_prefixes: s.ipv4_prefixes.push((net, prefix)),
        ipv4_index: s.ipv4_index + index_additions(net, prefix),
        ..s
    }
}

/// Every index entry a rule contributes carries one of its walk
/// lengths, and each walk length not beyond the prefix is present.
proof fn lemma_additions_members(net: u32, prefix: u8)
    requires
        prefix <= 32,
    ensures
        ({
            let p = prefix as int;
            let l1: int = 16;
            let l2: int = if l1 <= p {
                24
            } else {
                8
            };
            let l3: int = if l2 <= p {
                l2 + 4
            } else {
                l2 - 4
            };
            let l4: int = if l3 <= p {
                l3 + 2
            } else {
                l3 - 2
            };
            let a = index_additions(net, prefix);
            &&& forall|t: int|
                0 <= t < a.len() ==> ((#[trigger] a[t] == (net & mask_of(l1), l1 as u8) && l1
                    <= p) || (a[t] == (net & mask_of(l2), l2 as u8) && l2 <= p) || (a[t] == (
                net & mask_of(l3),
                l3 as u8,
                ) && l3 <= p) || (a[t] == (net & mask_of(l4), l4 as u8) && l4 <= p))
            &&& l1 <= p ==> has_pair(a, net & mask_of(l1), l1 as u8)
            &&& l2 <= p ==> has_pair(a, net & mask_of(l2), l2 as u8)
            &&& l3 <= p ==> has_pair(a, net & mask_of(l3), l3 as u8)
            &&& l4 <= p ==> has_pair(a, net & mask_of(l4), l4 as u8)
        }),
{
    let p = prefix as int;
    let l1: int = 16;
    let l2: int = if l1 <= p {
        24
    } else {
        8
    };
    let l3: int = if l2 <= p {
        l2 + 4
    } else {
        l2 - 4
    };
    let l4: int = if l3 <= p {
        l3 + 2
    } else {
        l3 - 2
    };
    let a = index_additions(net, prefix);
    let n1: int = if l1 <= p {
        1
    } else {
        0
    };
    let n2: int = if l2 <= p {
        1
    } else {
        0
    };
    let n3: int = if l3 <= p {
        1
    } else {
        0
    };
    if l1 <= p {
        assert(a[0] == (net & mask_of(l1), l1 as u8));
    }
    if l2 <= p {
        assert(a[n1] == (net & mask_of(l2), l2 as u8));
    }
    if l3 <= p {
        assert(a[n1 + n2] == (net & mask_of(l3), l3 as u8));
    }
    if l4 <= p {
        assert(a[n1 + n2 + n3] == (net & mask_of(l4), l4 as u8));
    }
}

/// A section holding exactly one CIDR rule matches exactly the
/// addresses inside that rule's prefix: the walk the insert records
/// in the coarse index steers the prefix-length search to the rule
/// for every address the rule covers, and a match never reaches
/// beyond the rule.
pub proof fn lemma_single_rule_exact(ip: u32, addr: u32, prefix: u8)
    requires
        prefix <= 32,
    ensures
        ({
            let s = sv_insert_ipv4(sv_empty(), addr, prefix);
            s.ipv4_matched(ip) == ip_in_prefix(ip, addr & mask_of(prefix as int), prefix)
        }),
{
    let s = sv_insert_ipv4(sv_empty(), addr, prefix);
    let p = prefix as int;
    let net = addr & mask_of(p);
    assert(s.ipv4_prefixes =~= seq![(net, prefix)]);
    assert(s.ipv4_index =~= index_additions(net, prefix));
    if s.ipv4_matched(ip) {
        lemma_ipv4_match_sound(s, ip);
        let j = choose|j: int|
            0 <= j < s.ipv4_prefixes.len() && ip_in_prefix(
                ip,
                #[trigger] s.ipv4_prefixes[j].0,
                s.ipv4_prefixes[j].1,
            );
        assert(s.ipv4_prefixes[j] == (net, prefix));
        assert(ip_in_prefix(ip, net, prefix));
    }
    if ip_in_prefix(ip, net, prefix) {
        if prefix == 0 {
            assert(addr & 0 == 0) by (bit_vector);
            assert(net == 0);
            assert(s.ipv4_prefixes[0] == (0u32, 0u8));
            assert(has_pair(s.ipv4_prefixes, 0u32, 0u8));
        } else {
            lemma_additions_members(net, prefix);
            let l1: int = 16;
            let l2: int = if l1 <= p {
                24
            } else {
                8
            };
            let l3: int = if l2 <= p {
                l2 + 4
            } else {
                l2 - 4
            };
            let l4: int = if l3 <= p {
                l3 + 2
            } else {
                l3 - 2
            };
            assert forall|m: int| m == l1 || m == l2 || m == l3 || m == l4 implies (
            s.index_has(ip, m) == (m <= p)) by {
                if m <= p {
                    lemma_mask_coarser(ip, net, m as u32, prefix as u32);
                    assert(has_pair(index_additions(net, prefix), net & mask_of(m), m as u8));
                    assert(net & mask_of(m) == ip & mask_of(m));
                } else {
                    if s.index_has(ip, m) {
                        let t = choose|t: int|
                            0 <= t < s.ipv4_index.len() && s.ipv4_index[t] == (
                            ip & mask_of(m),
                            m as u8,
                            );
                        assert(false);
                    }
                }
            }
            let bounds = s.search_bounds(ip);
            if p == 32 {
                assert(bounds.0 == 30);
                assert(0xffffffffu32 << 0u32 == 0xffffffffu32) by (bit_vector);
                assert(mask_of(32) == 0xffffffffu32);
                assert(ip & 0xffffffffu32 == ip) by (bit_vector);
                assert(net == ip);
                assert(s.ipv4_prefixes[0] == (ip, 32u8));
                assert(has_pair(s.ipv4_prefixes, ip, 32u8));
            } else {
                let st = bounds.0;
                let en = bounds.1;
                assert(st <= p < en);
                assert(s.ipv4_prefixes[0] == (net, prefix));
                assert(p as u8 == prefix);
                assert(has_pair(s.ipv4_prefixes, ip & mask_of(p), p as u8));
                if st == 0 {
                    assert(p >= 1);
                    assert(s.scan_hit(ip, 1, en));
                } else if st == 30 {
                    assert(s.scan_hit(ip, 30, en));
                } else {
                    assert(s.scan_hit(ip, st, en));
                }
            }
        }
    }
}

/// An empty section view.
pub open spec fn sv_empty() -> SectionView {
    SectionView {
        exact_domains: Seq::empty(),
        suffix_domains: Seq::empty(),
        ipv4_index: Seq::empty(),
        ipv4_prefixes: Seq::empty(),
    }
}

/// An empty router view, defaulting to proxy.
pub open spec fn rv_empty() -> RouterView {
    RouterView { direct: sv_empty(), proxy: sv_empty(), reject: sv_empty(), default: Action::Proxy }
}

/// Looks a network and length pair up in a list.
fn contains_pair(list: &Vec<(u32, u8)>, net: u32, len: u8) -> (r: bool)
    ensures
        r == has_pair(list@, net, len),
{
    let mut i: usize = 0;
    while i < list.len()
        invariant
            i <= list@.len(),
            forall|k: int| 0 <= k < i ==> list@[k] != (net, len),
        decreases list@.len() - i,
    {
        let (n, l) = list[i];
        if n == net && l == len {
            return true;
        }
        i = i + 1;
    }
    false
}

/// Compares an entry against the tail of `d` that starts at `from`.
fn eq_from(entry: &Vec<u8>, d: &Vec<u8>, from: usize) -> (r: bool)
    requires
        from <= d@.len(),
    ensures
        r == (entry@ == d@.skip(from as int)),
{
    if entry.len() != d.len() - from {
        proof {
            assert(entry@.len() != d@.skip(from as int).len());
        }
        return false;
    }
    let mut i: usize = 0;
    while i < entry.len()
        invariant
            from + entry@.len() == d@.len(),
            d@.len() <= usize::MAX,
            i <= entry@.len(),
            forall|k: int| 0 <= k < i ==> entry@[k] == d@[from + k],
        decreases entry@.len() - i,
    {
        if entry[i] != d[from + i] {
            proof {
                assert(d@.skip(from as int)[i as int] == d@[from + i]);
            }
            return false;
        }
        i = i + 1;
    }
    proof {
        assert(entry@ =~= d@.skip(from as int));
    }
    true
}

/// Looks the tail of `d` that starts at `from` up in a pattern list.
fn contains_domain_from(list: &Vec<Vec<u8>>, d: &Vec<u8>, from: usize) -> (r: bool)
    requires
        from <= d@.len(),
    ensures
        r == in_domain_list(list@.map_values(|v: Vec<u8>| v@), d@.skip(from as int)),
{
    let ghost lv = list@.map_values(|v: Vec<u8>| v@);
    let mut i: usize = 0;
    while i < list.len()
        invariant
            from <= d@.len(),
            lv == list@.map_values(|v: Vec<u8>| v@),
            i <= list@.len(),
            forall|k: int| 0 <= k < i ==> lv[k] != d@.skip(from as int),
        decreases list@.len() - i,
    {
        if eq_from(&list[i], d, from) {
            proof {
                assert(lv[i as int] == d@.skip(from as int));
            }
            return true;
        }
        i = i + 1;
    }
    false
}

impl Section {
    /// A section with no rules.
    pub fn empty() -> (s: Section)
        ensures
            s@ == sv_empty(),
    {
        let s = Section {
            exact_domains: Vec::new(),
            suffix_domains: Vec::new(),
            ipv4_index: Vec::new(),
            ipv4_prefixes: Vec::new(),
        };
        proof {
            assert(s@ =~~= sv_empty());
        }
        s
    }

    /// Inserts a domain pattern line: a leading caret marks an exact
    /// name, anything else a suffix; the name is stored lower-cased.
    pub fn insert_domain(&mut self, line: Vec<u8>)
        ensures
            final(self)@ == sv_insert_domain(old(self)@, line@),
    {
        if line.len() >= 1 && line[0] == 0x5e {
            let rest = vstd::slice::slice_subrange(line.as_slice(), 1, line.len());
            proof {
                assert(rest@ =~= line@.skip(1));
            }
            let low = pattern::to_lower(rest);
            self.exact_domains.push(low);
        } else {
            let low = pattern::to_lower(line.as_slice());
            self.suffix_domains.push(low);
        }
        proof {
            assert(self@ =~~= sv_insert_domain(old(self)@, line@));
        }
    }

    /// Inserts a CIDR rule: the network is canonicalised to the
    /// prefix length, and its coarse snapshots join the index.
    pub fn insert_ipv4(&mut self, ip: u32, prefix: u8)
        requires
            prefix <= 32,
        ensures
            final(self)@ == sv_insert_ipv4(old(self)@, ip, prefix),
    {
        let net = ip & prefix_mask(prefix);
        let l1: u8 = 16;
        if l1 <= prefix {
            self.ipv4_index.push((net & prefix_mask(l1), l1));
        }
        let l2: u8 = if l1 <= prefix {
            24
        } else {
            8
        };
        if l2 <= prefix {
            self.ipv4_index.push((net & prefix_mask(l2), l2));
        }
        let l3: u8 = if l2 <= prefix {
            l2 + 4
        } else {
            l2 - 4
        };
        if l3 <= prefix {
            self.ipv4_index.push((net & prefix_mask(l3), l3));
        }
        let l4: u8 = if l3 <= prefix {
            l3 + 2
        } else {
            l3 - 2
        };
        if l4 <= prefix {
            self.ipv4_index.push((net & prefix_mask(l4), l4));
        }
        self.ipv4_prefixes.push((net, prefix));
        proof {
            assert(self@.ipv4_index =~= sv_insert_ipv4(old(self)@, ip, prefix).ipv4_index);
            assert(self@ =~~= sv_insert_ipv4(old(self)@, ip, prefix));
        }
    }

    /// Matches a name against the section's domain patterns; the
    /// lookup is case-insensitive.
    pub fn match_domain(&self, domain: &[u8]) -> (r: bool)
        ensures
            r == self@.domain_matched(lower_seq(domain@)),
    {
        let d = pattern::to_lower(domain);
        if contains_domain_from(&self.exact_domains, &d, 0) {
            proof {
                assert(d@.skip(0) =~= d@);
            }
            return true;
        }
        if contains_domain_from(&self.suffix_domains, &d, 0) {
            proof {
                assert(d@.skip(0) =~= d@);
            }
            return true;
        }
        proof {
            assert(d@.skip(0) =~= d@);
        }
        let mut i: usize = 0;
        while i < d.len()
            invariant
                d@ == lower_seq(domain@),
                !in_domain_list(self@.exact_domains, d@),
                !in_domain_list(self@.suffix_domains, d@),
                forall|k: int|
                    0 <= k < i && d@[k] == 0x2e ==> !in_domain_list(
                        self@.suffix_domains,
                        d@.skip(k + 1),
                    ),
            decreases d@.len() - i,
        {
            if d[i] == 0x2e {
                if contains_domain_from(&self.suffix_domains, &d, i + 1) {
                    return true;
                }
            }
            i = i + 1;
        }
        false
    }

    /// Matches an address against the section's prefixes: a
    /// binary search over the coarse index bounds the prefix lengths,
    /// and the authoritative list is scanned over that range. A hit
    /// always names a prefix that holds the address.
    pub fn match_ipv4(&self, ip: u32) -> (r: bool)
        ensures
            r == self@.ipv4_matched(ip),
            r ==> exists|j: int|
                0 <= j < self@.ipv4_prefixes.len() && ip_in_prefix(
                    ip,
                    #[trigger] self@.ipv4_prefixes[j].0,
                    self@.ipv4_prefixes[j].1,
                ),
    {
        if contains_pair(&self.ipv4_prefixes, 0, 0) {
            proof {
                let j = choose|j: int|
                    0 <= j < self@.ipv4_prefixes.len() && self@.ipv4_prefixes[j] == (0u32, 0u8);
                assert(ip & 0 == 0) by (bit_vector);
                assert(ip_in_prefix(ip, self@.ipv4_prefixes[j].0, self@.ipv4_prefixes[j].1));
            }
            return true;
        }
        let mut start: u8 = 0;
        let mut end: u8 = 32;
        let m1 = (start + end) / 2;
        if self.index_lookup(ip, m1) {
            start = m1;
        } else {
            end = m1;
        }
        let m2 = (start + end) / 2;
        if self.index_lookup(ip, m2) {
            start = m2;
        } else {
            end = m2;
        }
        let m3 = (start + end) / 2;
        if self.index_lookup(ip, m3) {
            start = m3;
        } else {
            end = m3;
        }
        let m4 = (start + end) / 2;
        if self.index_lookup(ip, m4) {
            start = m4;
        } else {
            end = m4;
        }
        proof {
            assert((start as int, end as int) == self@.search_bounds(ip));
        }
        let ghost bounds = self@.search_bounds(ip);
        if start == 0 {
            start = 1;
        } else if start == 30 {
            if contains_pair(&self.ipv4_prefixes, ip, 32) {
                proof {
                    let j = choose|j: int|
                        0 <= j < self@.ipv4_prefixes.len() && self@.ipv4_prefixes[j] == (
                        ip,
                        32u8,
                        );
                    assert(ip & mask_of(32) == ip) by (bit_vector);
                    assert(ip_in_prefix(ip, self@.ipv4_prefixes[j].0, self@.ipv4_prefixes[j].1));
                }
                return true;
            }
        }
        let ghost scan_lo = start as int;
        let mut l = start;
        while l < end
            invariant
                self@.search_bounds(ip) == bounds,
                bounds.1 == end as int,
                scan_lo == if bounds.0 == 0 {
                    1int
                } else {
                    bounds.0
                },
                1 <= scan_lo <= l <= end <= 32,
                bounds.0 == 30 ==> !has_pair(self@.ipv4_prefixes, ip, 32u8),
                !has_pair(self@.ipv4_prefixes, 0u32, 0u8),
                forall|k: int|
                    scan_lo <= k < l ==> !has_pair(self@.ipv4_prefixes, ip & mask_of(k), k as u8),
            decreases end - l,
        {
            let net = ip & prefix_mask(l);
            if contains_pair(&self.ipv4_prefixes, net, l) {
                proof {
                    assert(self@.scan_hit(ip, scan_lo, end as int));
                    let j = choose|j: int|
                        0 <= j < self@.ipv4_prefixes.len() && self@.ipv4_prefixes[j] == (
                        net,
                        l,
                        );
                    assert(ip_in_prefix(ip, self@.ipv4_prefixes[j].0, self@.ipv4_prefixes[j].1));
                }
                return true;
            }
            l = l + 1;
        }
        proof {
            if bounds.0 == 0 {
                assert(!self@.scan_hit(ip, 1, bounds.1));
            } else if bounds.0 == 30 {
                assert(!self@.scan_hit(ip, 30, bounds.1));
            } else {
                assert(!self@.scan_hit(ip, bounds.0, bounds.1));
            }
        }
        false
    }

    /// Looks the address's snapshot at one length up in the index.
    fn index_lookup(&self, ip: u32, l: u8) -> (r: bool)
        requires
            l <= 32,
        ensures
            r == self@.index_has(ip, l as int),
    {
        contains_pair(&self.ipv4_index, ip & prefix_mask(l), l)
    }
}

/// The router's mathematical shape: three sections and the default.
#[verifier::ext_equal]
pub struct RouterView {
    pub direct: SectionView,
    pub proxy: SectionView,
    pub reject: SectionView,
    pub default: Action,
}

/// The router: a section per action, and the default action for
/// targets no rule covers.
#[derive(Debug)]
pub struct Router {
    pub direct: Section,
    pub proxy: Section,
    pub reject: Section,
    pub default: Action,
}

impl View for Router {
    type V = RouterView;

    open spec fn view(&self) -> RouterView {
        RouterView {
            direct: self.direct@,
            proxy: self.proxy@,
            reject: self.reject@,
            default: self.default,
        }
    }
}

/// The 32-bit value of four address octets, most significant first.
pub open spec fn ipv4_value(a: Seq<u8>) -> u32
    recommends
        a.len() == 4,
{
    (a[0] * 0x1000000 + a[1] * 0x10000 + a[2] * 0x100 + a[3]) as u32
}

impl RouterView {
    /// The decision for an IPv4 address: reject rules win, then proxy
    /// rules where the default is direct, then direct rules, then the
    /// default.
    pub open spec fn spec_route_ipv4(self, ip: u32) -> Action {
        if self.reject.ipv4_matched(ip) {
            Action::Reject
        } else if self.default == Action::Direct && self.proxy.ipv4_matched(ip) {
            Action::Proxy
        } else if self.direct.ipv4_matched(ip) {
            Action::Direct
        } else {
            self.default
        }
    }

    /// The decision for a domain name. A dotted name ending in a
    /// digit is treated as an IPv4 literal: routed as the address it
    /// denotes, or rejected where it denotes none. Other names go
    /// through the domain sections in the same precedence order.
    pub open spec fn spec_route_domain(self, name: Seq<u8>) -> Action {
        if name.len() > 0 && pattern::is_digit(name.last()) && name.contains(0x2e) {
            match spec_ipv4_literal(name) {
                Some(ip) => self.spec_route_ipv4(ip),
                None => Action::Reject,
            }
        } else if self.reject.domain_matched(lower_seq(name)) {
            Action::Reject
        } else if self.default == Action::Direct && self.proxy.domain_matched(lower_seq(name)) {
            Action::Proxy
        } else if self.direct.domain_matched(lower_seq(name)) {
            Action::Direct
        } else {
            self.default
        }
    }

    /// The decision for a target: IPv4 addresses and domains go
    /// through their matchers; IPv6 always takes the default.
    pub open spec fn spec_route(self, t: TargetView) -> Action {
        match t {
            TargetView::V4(a, _) => self.spec_route_ipv4(ipv4_value(a)),
            TargetView::V6(_, _) => self.default,
            TargetView::Domain(n, _) => self.spec_route_domain(n),
        }
    }
}

/// An IPv6 target always routes to the configured default action.
pub proof fn lemma_route_v6_default(r: RouterView, a: Seq<u8>, p: u16)
    ensures
        r.spec_route(TargetView::V6(a, p)) == r.default,
{
}

/// Positions at or past `from` hold no occurrence where the scan
/// reported none.
proof fn lemma_find_from_none(s: Seq<u8>, from: int, b: u8)
    requires
        0 <= from,
        find_from(s, from, b) == s.len(),
    ensures
        forall|i: int| from <= i < s.len() ==> s[i] != b,
    decreases s.len() - from,
{
    if from < s.len() {
        assert(s[from] != b);
        lemma_find_from_none(s, from + 1, b);
    }
}

impl Router {
    /// A router with no rules, defaulting to proxy.
    pub fn empty() -> (r: Router)
        ensures
            r@ == rv_empty(),
    {
        let r = Router {
            direct: Section::empty(),
            proxy: Section::empty(),
            reject: Section::empty(),
            default: Action::Proxy,
        };
        proof {
            assert(r@ =~~= rv_empty());
        }
        r
    }

    /// Routes an IPv4 address.
    fn route_ipv4(&self, ip: u32) -> (a: Action)
        ensures
            a == self@.spec_route_ipv4(ip),
    {
        if self.reject.match_ipv4(ip) {
            Action::Reject
        } else if self.default == Action::Direct && self.proxy.match_ipv4(ip) {
            Action::Proxy
        } else if self.direct.match_ipv4(ip) {
            Action::Direct
        } else {
            self.default
        }
    }

    /// Routes a domain name, re-reading dotted numeric names as IPv4
    /// literals.
    fn route_domain(&self, name: &[u8]) -> (a: Action)
        ensures
            a == self@.spec_route_domain(name@),
    {
        let n = name.len();
        let dot = pattern::scan_for(name, 0, 0x2e);
        let numeric = n > 0 && name[n - 1] >= 0x30 && name[n - 1] <= 0x39;
        proof {
            if dot == n {
                lemma_find_from_none(name@, 0, 0x2e);
            } else {
                assert(name@.contains(0x2e)) by {
                    assert(name@[dot as int] == 0x2e);
                }
            }
        }
        if numeric && dot < n {
            match pattern::parse_ipv4_literal(name) {
                Some(ip) => self.route_ipv4(ip),
                None => Action::Reject,
            }
        } else if self.reject.match_domain(name) {
            Action::Reject
        } else if self.default == Action::Direct && self.proxy.match_domain(name) {
            Action::Proxy
        } else if self.direct.match_domain(name) {
            Action::Direct
        } else {
            self.default
        }
    }

    /// Routes a target to its action.
    pub fn route(&self, target: &Socks5Target) -> (a: Action)
        requires
            target_wf(target@),
        ensures
            a == self@.spec_route(target@),
    {
        match target {
            Socks5Target::V4(addr, _) => {
                let ip = (addr[0] as u32) * 0x1000000 + (addr[1] as u32) * 0x10000 + (addr[2]
                    as u32) * 0x100 + (addr[3] as u32);
                self.route_ipv4(ip)
            },
            Socks5Target::V6(_, _) => self.default,
            Socks5Target::Domain(name, _) => self.route_domain(name.as_slice()),
        }
    }

    /// The configured default action.
    pub fn default(&self) -> (a: Action)
        ensures
            a == self@.default,
    {
        self.default
    }
}

/// The bytes of the `[direct]` header.
pub open spec fn kw_direct_header() -> Seq<u8> {
    seq![0x5bu8, 0x64u8, 0x69u8, 0x72u8, 0x65u8, 0x63u8, 0x74u8, 0x5du8]
}

/// The bytes of the `[proxy]` header.
pub open spec fn kw_proxy_header() -> Seq<u8> {
    seq![0x5bu8, 0x70u8, 0x72u8, 0x6fu8, 0x78u8, 0x79u8, 0x5du8]
}

/// The bytes of the `[reject]` header.
pub open spec fn kw_reject_header() -> Seq<u8> {
    seq![0x5bu8, 0x72u8, 0x65u8, 0x6au8, 0x65u8, 0x63u8, 0x74u8, 0x5du8]
}

/// The bytes of the `[default]` header.
pub open spec fn kw_default_header() -> Seq<u8> {
    seq![0x5bu8, 0x64u8, 0x65u8, 0x66u8, 0x61u8, 0x75u8, 0x6cu8, 0x74u8, 0x5du8]
}

/// The bytes of the `direct` token.
pub open spec fn kw_direct() -> Seq<u8> {
    seq![0x64u8, 0x69u8, 0x72u8, 0x65u8, 0x63u8, 0x74u8]
}

/// The bytes of the `proxy` token.
pub open spec fn kw_proxy() -> Seq<u8> {
    seq![0x70u8, 0x72u8, 0x6fu8, 0x78u8, 0x79u8]
}

/// Selects a router's section by the action it serves.
pub open spec fn rv_section(r: RouterView, k: Action) -> SectionView {
    match k {
        Action::Direct => r.direct,
        Action::Proxy => r.proxy,
        Action::Reject => r.reject,
    }
}

/// Replaces a router's section for the given action.
pub open spec fn rv_with_section(r: RouterView, k: Action, s: SectionView) -> RouterView {
    match k {
        Action::Direct => RouterView { direct: s, ..r },
        Action::Proxy => RouterView { proxy: s, ..r },
        Action::Reject => RouterView { reject: s, ..r },
    }
}

/// What one rule line does to the router under construction. The
/// state is the router so far and the open section, none meaning the
/// default section. Blank and comment lines change nothing; a header
/// opens its section; inside a section a line must be a CIDR rule or
/// a domain pattern; the default section takes one of the two action
/// tokens. A line that fits none of these is handed back as the
/// fault.
pub open spec fn spec_apply_line(st: (RouterView, Option<Action>), line: Seq<u8>) -> Result<
    (RouterView, Option<Action>),
    Seq<u8>,
> {
    let t = trim_of(line);
    if t.len() == 0 || t[0] == 0x23 {
        Ok(st)
    } else if t[0] == 0x5b {
        if t == kw_direct_header() {
            Ok((st.0, Some(Action::Direct)))
        } else if t == kw_proxy_header() {
            Ok((st.0, Some(Action::Proxy)))
        } else if t == kw_reject_header() {
            Ok((st.0, Some(Action::Reject)))
        } else if t == kw_default_header() {
            Ok((st.0, None))
        } else {
            Err(t)
        }
    } else {
        match st.1 {
            Some(k) => {
                if is_cidr_shape(t) {
                    match spec_parse_cidr(t) {
                        Some((ip, p)) => Ok(
                            (rv_with_section(st.0, k, sv_insert_ipv4(rv_section(st.0, k), ip, p)), st.1),
                        ),
                        None => Err(t),
                    }
                } else if is_domain_pattern(t) {
                    Ok((rv_with_section(st.0, k, sv_insert_domain(rv_section(st.0, k), t)), st.1))
                } else {
                    Err(t)
                }
            },
            None => {
                if t == kw_direct() {
                    Ok((RouterView { default: Action::Direct, ..st.0 }, st.1))
                } else if t == kw_proxy() {
                    Ok((RouterView { default: Action::Proxy, ..st.0 }, st.1))
                } else {
                    Err(t)
                }
            },
        }
    }
}

/// Folds the remaining lines over the state: the router once all are
/// consumed, or the first line the grammar refuses.
pub open spec fn spec_parse_from(lines: Seq<Seq<u8>>, st: (RouterView, Option<Action>)) -> Result<
    RouterView,
    Seq<u8>,
>
    decreases lines.len(),
{
    if lines.len() == 0 {
        Ok(st.0)
    } else {
        match spec_apply_line(st, lines.first()) {
            Ok(st2) => spec_parse_from(lines.drop_first(), st2),
            Err(l) => Err(l),
        }
    }
}

/// What parsing a whole rules file yields, starting from the empty
/// router with the default section open.
pub open spec fn spec_parse_rules(lines: Seq<Seq<u8>>) -> Result<RouterView, Seq<u8>> {
    spec_parse_from(lines, (rv_empty(), None))
}

/// Recognises the `[direct]` header.
fn is_direct_header(v: &[u8]) -> (r: bool)
    ensures
        r == (v@ == kw_direct_header()),
{
    let ok = v.len() == 8 && v[0] == 0x5b && v[1] == 0x64 && v[2] == 0x69 && v[3] == 0x72 && v[4]
        == 0x65 && v[5] == 0x63 && v[6] == 0x74 && v[7] == 0x5d;
    proof {
        if ok {
            assert(v@ =~= kw_direct_header());
        }
    }
    ok
}

/// Recognises the `[proxy]` header.
fn is_proxy_header(v: &[u8]) -> (r: bool)
    ensures
        r == (v@ == kw_proxy_header()),
{
    let ok = v.len() == 7 && v[0] == 0x5b && v[1] == 0x70 && v[2] == 0x72 && v[3] == 0x6f && v[4]
        == 0x78 && v[5] == 0x79 && v[6] == 0x5d;
    proof {
        if ok {
            assert(v@ =~= kw_proxy_header());
        }
    }
    ok
}

/// Recognises the `[reject]` header.
fn is_reject_header(v: &[u8]) -> (r: bool)
    ensures
        r == (v@ == kw_reject_header()),
{
    let ok = v.len() == 8 && v[0] == 0x5b && v[1] == 0x72 && v[2] == 0x65 && v[3] == 0x6a && v[4]
        == 0x65 && v[5] == 0x63 && v[6] == 0x74 && v[7] == 0x5d;
    proof {
        if ok {
            assert(v@ =~= kw_reject_header());
        }
    }
    ok
}

/// Recognises the `[default]` header.
fn is_default_header(v: &[u8]) -> (r: bool)
    ensures
        r == (v@ == kw_default_header()),
{
    let ok = v.len() == 9 && v[0] == 0x5b && v[1] == 0x64 && v[2] == 0x65 && v[3] == 0x66 && v[4]
        == 0x61 && v[5] == 0x75 && v[6] == 0x6c && v[7] == 0x74 && v[8] == 0x5d;
    proof {
        if ok {
            assert(v@ =~= kw_default_header());
        }
    }
    ok
}

/// Recognises the `direct` token.
fn is_direct_token(v: &[u8]) -> (r: bool)
    ensures
        r == (v@ == kw_direct()),
{
    let ok = v.len() == 6 && v[0] == 0x64 && v[1] == 0x69 && v[2] == 0x72 && v[3] == 0x65 && v[4]
        == 0x63 && v[5] == 0x74;
    proof {
        if ok {
            assert(v@ =~= kw_direct());
        }
    }
    ok
}

/// Recognises the `proxy` token.
fn is_proxy_token(v: &[u8]) -> (r: bool)
    ensures
        r == (v@ == kw_proxy()),
{
    let ok = v.len() == 5 && v[0] == 0x70 && v[1] == 0x72 && v[2] == 0x6f && v[3] == 0x78 && v[4]
        == 0x79;
    proof {
        if ok {
            assert(v@ =~= kw_proxy());
        }
    }
    ok
}

impl Router {
    /// Parses the lines of a rules file into a router. A line the
    /// grammar refuses aborts the load, and the error carries that
    /// line, trimmed, verbatim.
    pub fn parse(lines: &Vec<Vec<u8>>) -> (r: Result<Router, Error>)
        ensures
            match spec_parse_rules(lines@.map_values(|v: Vec<u8>| v@)) {
                Ok(rv) => r matches Ok(rt) && rt@ == rv,
                Err(bad) => r matches Err(e) && e matches Error::RouteError(l) && l@ == bad,
            },
    {
        let ghost lv = lines@.map_values(|v: Vec<u8>| v@);
        let mut router = Router::empty();
        let mut cur: Option<Action> = None;
        let mut i: usize = 0;
        proof {
            assert(lv.skip(0) =~= lv);
        }
        while i < lines.len()
            invariant
                lv == lines@.map_values(|v: Vec<u8>| v@),
                i <= lines@.len(),
                spec_parse_rules(lv) == spec_parse_from(lv.skip(i as int), (router@, cur)),
            decreases lines@.len() - i,
        {
            let ghost rv0 = router@;
            let ghost cur0 = cur;
            let ghost i0 = i as int;
            let mut line = vstd::slice::slice_to_vec(lines[i].as_slice());
            line.trim_in_place();
            let ghost t = trim_of(lv[i0]);
            proof {
                assert(line@ == t);
                assert(lv.skip(i0).first() == lv[i0]);
                assert(lv.skip(i0).drop_first() =~= lv.skip(i0 + 1));
            }
            if line.len() == 0 || line[0] == 0x23 {
                // blank or comment
            } else if line[0] == 0x5b {
                if is_direct_header(line.as_slice()) {
                    cur = Some(Action::Direct);
                } else if is_proxy_header(line.as_slice()) {
                    cur = Some(Action::Proxy);
                } else if is_reject_header(line.as_slice()) {
                    cur = Some(Action::Reject);
                } else if is_default_header(line.as_slice()) {
                    cur = None;
                } else {
                    return Err(Error::RouteError(line));
                }
            } else {
                match cur {
                    Some(k) => {
                        if is_cidr_line(line.as_slice()) {
                            match parse_cidr(line.as_slice()) {
                                Some((ip, p)) => {
                                    match k {
                                        Action::Direct => router.direct.insert_ipv4(ip, p),
                                        Action::Proxy => router.proxy.insert_ipv4(ip, p),
                                        Action::Reject => router.reject.insert_ipv4(ip, p),
                                    }
                                    proof {
                                        assert(router@ =~~= rv_with_section(
                                            rv0,
                                            k,
                                            sv_insert_ipv4(rv_section(rv0, k), ip, p),
                                        ));
                                    }
                                },
                                None => {
                                    return Err(Error::RouteError(line));
                                },
                            }
                        } else if is_domain_line(line.as_slice()) {
                            match k {
                                Action::Direct => router.direct.insert_domain(line),
                                Action::Proxy => router.proxy.insert_domain(line),
                                Action::Reject => router.reject.insert_domain(line),
                            }
                            proof {
                                assert(router@ =~~= rv_with_section(
                                    rv0,
                                    k,
                                    sv_insert_domain(rv_section(rv0, k), t),
                                ));
                            }
                        } else {
                            return Err(Error::RouteError(line));
                        }
                    },
                    None => {
                        if is_direct_token(line.as_slice()) {
                            router.default = Action::Direct;
                        } else if is_proxy_token(line.as_slice()) {
                            router.default = Action::Proxy;
                        } else {
                            return Err(Error::RouteError(line));
                        }
                    },
                }
            }
            i = i + 1;
            proof {
                assert(spec_apply_line((rv0, cur0), lv[i0]) == Result::<
                    (RouterView, Option<Action>),
                    Seq<u8>,
                >::Ok((router@, cur)));
            }
        }
        proof {
            assert(lv.skip(lines@.len() as int) =~= Seq::<Seq<u8>>::empty());
        }
        Ok(router)
    }
}


} // verus!
