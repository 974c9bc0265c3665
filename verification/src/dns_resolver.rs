//! The decisions around name resolution: which host a `domain[:port]` entry
//! names, whether a text looks like a domain, which entries to resolve, and
//! how the resolved addresses are merged. The lookups themselves are I/O and
//! run in the program.
use vstd::prelude::*;

use crate::net::IpAddress;
use crate::text::{
    chars_of, contains_char, copy_range, lemma_split_no_sep, split_char, split_on, split_state, starts_with, starts_with_char,
    string_from_chars, trim, trim_chars, trim_end_char, trim_end_matches_char, trim_start_char,
    trim_start_matches_char, trim_ws, trimmed_nonempty,
};

verus! {

broadcast use vstd::string::group_string_axioms;

/// The first index at or after `i` where `]:` begins, if any.
pub open spec fn find_bracket_colon_from(s: Seq<char>, i: int) -> Option<int>
    decreases s.len() - i,
{
    if i < 0 || i + 1 >= s.len() {
        None
    } else if s[i] == ']' && s[i + 1] == ':' {
        Some(i)
    } else {
        find_bracket_colon_from(s, i + 1)
    }
}

/// How many times `:` occurs in `s`.
pub open spec fn colon_count(s: Seq<char>) -> nat
    decreases s.len(),
{
    if s.len() == 0 {
        0
    } else {
        colon_count(s.drop_last()) + if s.last() == ':' {
            1nat
        } else {
            0nat
        }
    }
}

/// Whether every character of `s` is a hexadecimal digit, `:` or `.`: the
/// characters an IPv6 address is written with.
pub open spec fn ipv6_shaped(s: Seq<char>) -> bool {
    forall|i: int|
        0 <= i < s.len() ==> {
            let u = #[trigger] s[i] as u32;
            (48 <= u && u <= 57) || (97 <= u && u <= 102) || (65 <= u && u <= 70) || u == 58 || u
                == 46
        }
}

/// The host that an entry names. A `domain` or a bare IPv6 address (more
/// than one `:`, and only hexadecimal digits, `:` and `.`) is the host as it stands; a `domain:port` entry names the
/// part before the `:`; a bracketed `[v6]:port` or `[v6]` entry names the
/// part inside the brackets.
pub open spec fn hostname_of(d: Seq<char>) -> Seq<char> {
    if d.contains(':') {
        if starts_with_char(d, '[') {
            match find_bracket_colon_from(d, 0) {
                Some(end) => d.subrange(1, end),
                None => trim_end_char(trim_start_char(d, '['), ']'),
            }
        } else if colon_count(d) > 1 && ipv6_shaped(d) {
            d
        } else {
            split_on(d, ':')[0]
        }
    } else {
        d
    }
}

/// The part of a text that decides whether it is a domain: it has a dot and
/// neither a space, a tab nor a `/` (a CIDR block).
pub open spec fn domain_shaped(t: Seq<char>) -> bool {
    !t.contains('/') && t.contains('.') && !t.contains(' ') && !t.contains('\t')
}

/// The entries of `domains` that are resolved: each trimmed, blank ones left out.
pub open spec fn domains_to_resolve_spec(domains: Seq<Seq<char>>) -> Seq<Seq<char>> {
    trimmed_nonempty(domains)
}

/// `acc` followed by the addresses of `new` that it does not hold yet, each
/// at its first occurrence.
pub open spec fn extend_unique(acc: Seq<IpAddress>, new: Seq<IpAddress>) -> Seq<IpAddress>
    decreases new.len(),
{
    if new.len() == 0 {
        acc
    } else {
        let a = extend_unique(acc, new.drop_last());
        if a.contains(new.last()) {
            a
        } else {
            a.push(new.last())
        }
    }
}

/// The addresses of all the lists, in order, each kept at its first occurrence.
pub open spec fn merge_unique(lists: Seq<Seq<IpAddress>>) -> Seq<IpAddress>
    decreases lists.len(),
{
    if lists.len() == 0 {
        seq![]
    } else {
        extend_unique(merge_unique(lists.drop_last()), lists.last())
    }
}

/// The address lists held in a vector of vectors.
pub open spec fn address_lists(lists: Seq<Vec<IpAddress>>) -> Seq<Seq<IpAddress>> {
    lists.map_values(|l: Vec<IpAddress>| l@)
}

/// The index of `]:` in `v` at or after `start`, as `find_bracket_colon_from` says.
fn find_bracket_colon(v: &Vec<char>) -> (r: Option<usize>)
    ensures
        match r {
            Some(i) => find_bracket_colon_from(v@, 0) == Some(i as int) && i + 1 < v.len() && v@[i
                as int] == ']',
            None => find_bracket_colon_from(v@, 0) is None,
        },
{
    let mut i: usize = 0;
    while v.len() > 0 && i < v.len() - 1
        invariant
            i <= v.len(),
            find_bracket_colon_from(v@, 0) == find_bracket_colon_from(v@, i as int),
        decreases v.len() - i,
    {
        if v[i] == ']' && v[i + 1] == ':' {
            return Some(i);
        }
        i = i + 1;
    }
    None
}

/// Whether `:` occurs more than once in `v`.
fn several_colons(v: &Vec<char>) -> (b: bool)
    ensures
        b == (colon_count(v@) > 1),
{
    let mut n: usize = 0;
    let mut i: usize = 0;
    assert(v@.take(0) =~= Seq::<char>::empty());
    while i < v.len()
        invariant
            i <= v.len(),
            n == colon_count(v@.take(i as int)),
            n <= i,
        decreases v.len() - i,
    {
        assert(v@.take(i + 1).drop_last() =~= v@.take(i as int));
        assert(v@.take(i + 1).last() == v@[i as int]);
        if v[i] == ':' {
            n = n + 1;
        }
        i = i + 1;
    }
    assert(v@.take(v.len() as int) =~= v@);
    n > 1
}

/// Whether `v` is written only with hexadecimal digits, `:` and `.`.
fn looks_ipv6(v: &Vec<char>) -> (b: bool)
    ensures
        b == ipv6_shaped(v@),
{
    let mut i: usize = 0;
    while i < v.len()
        invariant
            i <= v.len(),
            forall|k: int|
                0 <= k < i ==> {
                    let u = #[trigger] v@[k] as u32;
                    (48 <= u && u <= 57) || (97 <= u && u <= 102) || (65 <= u && u <= 70) || u
                        == 58 || u == 46
                },
        decreases v.len() - i,
    {
        let u = v[i] as u32;
        if !((48 <= u && u <= 57) || (97 <= u && u <= 102) || (65 <= u && u <= 70) || u == 58 || u
            == 46) {
            return false;
        }
        i = i + 1;
    }
    true
}

/// The host to look up for an entry, as `hostname_of` says.
pub fn hostname_for_lookup(domain: &str) -> (host: String)
    ensures
        host@ == hostname_of(domain@),
{
    let d = chars_of(domain);
    if contains_char(&d, ':') {
        if starts_with(&d, '[') {
            match find_bracket_colon(&d) {
                Some(end) => {
                    let inner = copy_range(&d, 1, end);
                    string_from_chars(inner.as_slice())
                },
                None => {
                    let a = trim_start_matches_char(&d, '[');
                    let b = trim_end_matches_char(&a, ']');
                    string_from_chars(b.as_slice())
                },
            }
        } else if several_colons(&d) && looks_ipv6(&d) {
            domain.to_string()
        } else {
            let pieces = split_char(&d, ':');
            assert(pieces.deep_view().len() > 0);
            proof {
                crate::text::lemma_chars_deep_view(pieces[0]);
            }
            string_from_chars(pieces[0].as_slice())
        }
    } else {
        domain.to_string()
    }
}

/// Whether `s` looks like a domain (and not an IP address or a CIDR block).
/// `ip_parse` is what `IpAddr::from_str` makes of `s` trimmed, as the program
/// gets it: a text that parses as an address is never a domain.
pub fn looks_like_domain(s: &str, ip_parse: Option<IpAddress>) -> (b: bool)
    ensures
        b == (ip_parse is None && domain_shaped(trim_ws(s@))),
{
    if ip_parse.is_some() {
        return false;
    }
    let t = trim(s);
    let v = chars_of(t.as_str());
    if contains_char(&v, '/') {
        return false;
    }
    contains_char(&v, '.') && !contains_char(&v, ' ') && !contains_char(&v, '\t')
}

/// The entries to resolve, trimmed, blank ones left out, order kept.
pub fn domains_to_resolve(domains: &Vec<String>) -> (out: Vec<String>)
    ensures
        out.deep_view() == domains_to_resolve_spec(domains.deep_view()),
{
    let mut out: Vec<String> = Vec::new();
    let mut i: usize = 0;
    assert(domains.deep_view().take(0) =~= Seq::<Seq<char>>::empty());
    while i < domains.len()
        invariant
            i <= domains.len(),
            out.deep_view() == trimmed_nonempty(domains.deep_view().take(i as int)),
        decreases domains.len() - i,
    {
        assert(domains.deep_view().take(i + 1).drop_last() =~= domains.deep_view().take(i as int));
        assert(domains.deep_view().take(i + 1).last() == domains[i as int]@);
        let v = chars_of(domains[i].as_str());
        let t = trim_chars(&v);
        if t.len() > 0 {
            let s = string_from_chars(t.as_slice());
            let ghost before = out.deep_view();
            out.push(s);
            assert(out.deep_view() =~= before.push(t@));
        }
        i = i + 1;
    }
    assert(domains.deep_view().take(domains.len() as int) =~= domains.deep_view());
    out
}

/// Whether `ip` is in `v`.
fn holds_address(v: &Vec<IpAddress>, ip: &IpAddress) -> (b: bool)
    ensures
        b == v@.contains(*ip),
{
    let mut i: usize = 0;
    while i < v.len()
        invariant
            i <= v.len(),
            forall|k: int| 0 <= k < i ==> v@[k] != *ip,
        decreases v.len() - i,
    {
        if v[i].same_as(ip) {
            return true;
        }
        i = i + 1;
    }
    false
}

/// Appends the addresses of `new` that `all` does not hold yet, as
/// `extend_unique` says.
pub fn add_unique(all: &mut Vec<IpAddress>, new: &Vec<IpAddress>)
    ensures
        final(all)@ == extend_unique(old(all)@, new@),
{
    let mut i: usize = 0;
    assert(new@.take(0) =~= Seq::<IpAddress>::empty());
    while i < new.len()
        invariant
            i <= new.len(),
            all@ == extend_unique(old(all)@, new@.take(i as int)),
        decreases new.len() - i,
    {
        assert(new@.take(i + 1).drop_last() =~= new@.take(i as int));
        assert(new@.take(i + 1).last() == new@[i as int]);
        let ip = new[i];
        if !holds_address(all, &ip) {
            all.push(ip);
        }
        i = i + 1;
    }
    assert(new@.take(new.len() as int) =~= new@);
}

/// The resolved addresses of several entries merged, each address kept at
/// its first occurrence, as `merge_unique` says.
pub fn merge_resolved(lists: &Vec<Vec<IpAddress>>) -> (out: Vec<IpAddress>)
    ensures
        out@ == merge_unique(address_lists(lists@)),
{
    let mut out: Vec<IpAddress> = Vec::new();
    let mut i: usize = 0;
    assert(address_lists(lists@).take(0) =~= Seq::<Seq<IpAddress>>::empty());
    while i < lists.len()
        invariant
            i <= lists.len(),
            out@ == merge_unique(address_lists(lists@).take(i as int)),
        decreases lists.len() - i,
    {
        assert(address_lists(lists@).take(i + 1).drop_last() =~= address_lists(lists@).take(i as int));
        assert(address_lists(lists@).take(i + 1).last() == lists[i as int]@);
        add_unique(&mut out, &lists[i]);
        i = i + 1;
    }
    assert(address_lists(lists@).take(lists.len() as int) =~= address_lists(lists@));
    out
}

/// Extending never repeats an address: if `acc` has no duplicates, neither
/// has the result.
pub proof fn lemma_extend_unique_no_duplicates(acc: Seq<IpAddress>, new: Seq<IpAddress>)
    requires
        acc.no_duplicates(),
    ensures
        extend_unique(acc, new).no_duplicates(),
    decreases new.len(),
{
    if new.len() > 0 {
        lemma_extend_unique_no_duplicates(acc, new.drop_last());
    }
}

/// Extending keeps `acc` as it was, at the front of the result.
pub proof fn lemma_extend_unique_prefix(acc: Seq<IpAddress>, new: Seq<IpAddress>)
    ensures
        extend_unique(acc, new).len() >= acc.len(),
        extend_unique(acc, new).take(acc.len() as int) == acc,
    decreases new.len(),
{
    if new.len() > 0 {
        lemma_extend_unique_prefix(acc, new.drop_last());
        let a = extend_unique(acc, new.drop_last());
        assert(a.push(new.last()).take(acc.len() as int) =~= a.take(acc.len() as int));
    } else {
        assert(acc.take(acc.len() as int) =~= acc);
    }
}

/// An address is in the extended list exactly when it is in `acc` or in `new`.
pub proof fn lemma_extend_unique_members(acc: Seq<IpAddress>, new: Seq<IpAddress>, x: IpAddress)
    ensures
        extend_unique(acc, new).contains(x) <==> (acc.contains(x) || new.contains(x)),
    decreases new.len(),
{
    if new.len() > 0 {
        lemma_extend_unique_members(acc, new.drop_last(), x);
        let a = extend_unique(acc, new.drop_last());
        if new.drop_last().contains(x) {
            let k = choose|k: int| 0 <= k < new.drop_last().len() && new.drop_last()[k] == x;
            assert(new[k] == x);
        }
        if new.contains(x) && !new.drop_last().contains(x) {
            let k = choose|k: int| 0 <= k < new.len() && new[k] == x;
            if k < new.len() - 1 {
                assert(new.drop_last()[k] == x);
            }
            assert(new.last() == x);
        }
        if a.push(new.last()).contains(x) && !a.contains(x) {
            let k = choose|k: int| 0 <= k < a.push(new.last()).len() && a.push(new.last())[k] == x;
            if k < a.len() {
                assert(a[k] == x);
            }
        }
        if a.contains(x) {
            let k = choose|k: int| 0 <= k < a.len() && a[k] == x;
            assert(a.push(new.last())[k] == x);
        }
        assert(a.push(new.last())[a.len() as int] == new.last());
    }
}

/// Merging resolved lists gives every resolved address exactly once: the
/// result has no duplicates and holds an address exactly when some list does.
pub proof fn lemma_merge_unique(lists: Seq<Seq<IpAddress>>, x: IpAddress)
    ensures
        merge_unique(lists).no_duplicates(),
        merge_unique(lists).contains(x) <==> exists|i: int|
            0 <= i < lists.len() && (#[trigger] lists[i]).contains(x),
    decreases lists.len(),
{
    if lists.len() > 0 {
        lemma_merge_unique(lists.drop_last(), x);
        let m = merge_unique(lists.drop_last());
        lemma_extend_unique_no_duplicates(m, lists.last());
        lemma_extend_unique_members(m, lists.last(), x);
        if exists|i: int| 0 <= i < lists.len() && (#[trigger] lists[i]).contains(x) {
            let i = choose|i: int| 0 <= i < lists.len() && (#[trigger] lists[i]).contains(x);
            if i < lists.len() - 1 {
                assert(lists.drop_last()[i] == lists[i]);
            }
        }
        if exists|i: int|
            0 <= i < lists.drop_last().len() && (#[trigger] lists.drop_last()[i]).contains(x) {
            let i = choose|i: int|
                0 <= i < lists.drop_last().len() && (#[trigger] lists.drop_last()[i]).contains(x);
            assert(lists[i] == lists.drop_last()[i]);
        }
        assert(lists[lists.len() - 1] == lists.last());
    } else {
        assert(merge_unique(lists) =~= Seq::<IpAddress>::empty());
    }
}

/// Text after the first separator never changes the first piece.
proof fn lemma_split_first_piece(h: Seq<char>, p: Seq<char>, sep: char)
    requires
        !h.contains(sep),
    ensures
        split_state(h.push(sep) + p, sep).0.len() >= 1,
        split_state(h.push(sep) + p, sep).0[0] == h,
    decreases p.len(),
{
    if p.len() == 0 {
        assert(h.push(sep) + p =~= h.push(sep));
        assert(h.push(sep).drop_last() =~= h);
        lemma_split_no_sep(h, sep);
    } else {
        lemma_split_first_piece(h, p.drop_last(), sep);
        assert((h.push(sep) + p).drop_last() =~= h.push(sep) + p.drop_last());
    }
}

/// A text without `:` counts none.
proof fn lemma_no_colon_count(s: Seq<char>)
    requires
        !s.contains(':'),
    ensures
        colon_count(s) == 0,
    decreases s.len(),
{
    if s.len() > 0 {
        assert(!s.drop_last().contains(':')) by {
            if s.drop_last().contains(':') {
                let k = choose|k: int| 0 <= k < s.drop_last().len() && s.drop_last()[k] == ':';
                assert(s[k] == ':');
            }
        }
        assert(s[s.len() - 1] == s.last());
        lemma_no_colon_count(s.drop_last());
    }
}

/// Colons of a concatenation add up.
proof fn lemma_colon_count_concat(a: Seq<char>, b: Seq<char>)
    ensures
        colon_count(a + b) == colon_count(a) + colon_count(b),
    decreases b.len(),
{
    if b.len() == 0 {
        assert(a + b =~= a);
    } else {
        assert((a + b).drop_last() =~= a + b.drop_last());
        assert((a + b).last() == b.last());
        lemma_colon_count_concat(a, b.drop_last());
    }
}

/// The port of a `host:port` entry is ignored: the host is what is looked up.
pub proof fn lemma_port_is_ignored(host: Seq<char>, port: Seq<char>)
    requires
        !host.contains(':'),
        !port.contains(':'),
        !starts_with_char(host, '['),
        host.len() > 0,
    ensures
        hostname_of(host) == host,
        hostname_of(host.push(':') + port) == host,
{
    let d = host.push(':') + port;
    assert(d[host.len() as int] == ':');
    assert(d[0] == host[0]);
    lemma_no_colon_count(host);
    lemma_no_colon_count(port);
    lemma_colon_count_concat(host, seq![':']);
    assert(host.push(':') =~= host + seq![':']);
    assert(seq![':'].drop_last() =~= Seq::<char>::empty());
    assert(colon_count(Seq::<char>::empty()) == 0);
    assert(colon_count(seq![':']) == 1);
    lemma_colon_count_concat(host.push(':'), port);
    assert(colon_count(d) == 1);
    assert(d.contains(':'));
    assert(!starts_with_char(d, '['));
    lemma_split_first_piece(host, port, ':');
}

/// An entry that already is an IPv6 address without brackets (it holds more
/// than one `:` and is written with hexadecimal digits, `:` and `.`) is looked
/// up as it stands, never cut at a `:`.
pub proof fn lemma_bare_ipv6_kept(d: Seq<char>)
    requires
        colon_count(d) > 1,
        ipv6_shaped(d),
        !starts_with_char(d, '['),
    ensures
        hostname_of(d) == d,
{
    if !d.contains(':') {
        lemma_no_colon_count(d);
    }
}

/// An entry that is not bracketed and is not an IPv6 address (it holds one
/// `:` only, or a character that an IPv6 address is not written with) names
/// the part before its first `:`, whatever follows.
pub proof fn lemma_cut_at_first_colon(host: Seq<char>, rest: Seq<char>)
    requires
        !host.contains(':'),
        !starts_with_char(host, '['),
        host.len() > 0,
        colon_count(host.push(':') + rest) == 1 || !ipv6_shaped(host.push(':') + rest),
    ensures
        hostname_of(host.push(':') + rest) == host,
{
    let d = host.push(':') + rest;
    assert(d[host.len() as int] == ':');
    assert(d.contains(':'));
    assert(d[0] == host[0]);
    assert(!starts_with_char(d, '['));
    lemma_split_first_piece(host, rest, ':');
}

/// `]:` found from `i` on is the first one at or after `i`.
proof fn lemma_find_bracket_colon_at(s: Seq<char>, i: int, j: int)
    requires
        0 <= i <= j,
        j + 1 < s.len(),
        s[j] == ']',
        s[j + 1] == ':',
        forall|k: int| i <= k < j ==> s[k] != ']',
    ensures
        find_bracket_colon_from(s, i) == Some(j),
    decreases j - i,
{
    if i < j {
        lemma_find_bracket_colon_at(s, i + 1, j);
    }
}

/// A bracketed `[h]:port` entry names `h` (when `h` holds no `]`), whatever
/// the port.
pub proof fn lemma_bracketed_host(h: Seq<char>, port: Seq<char>)
    requires
        !h.contains(']'),
    ensures
        hostname_of(seq!['['] + h + seq![']', ':'] + port) == h,
{
    let d = seq!['['] + h + seq![']', ':'] + port;
    let j: int = h.len() as int + 1;
    assert(d[j] == ']');
    assert(d[j + 1] == ':');
    assert(d.contains(':'));
    assert(starts_with_char(d, '['));
    assert forall|k: int| 0 <= k < j implies d[k] != ']' by {
        if k > 0 {
            assert(d[k] == h[k - 1]);
        }
    }
    lemma_find_bracket_colon_at(d, 0, j);
    assert(d.subrange(1, j) =~= h);
}

} // verus!
