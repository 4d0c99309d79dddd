//! Exported directories: their options and client access lists, how an NFS
//! mount path selects an export, and the signed file handles that name
//! files inside the exports.

use vstd::prelude::*;
use hmac::Mac;
use vstd::string::{StringExecFns, StringSliceAdditionalSpecFns};
use vstd::utf8::encode_utf8;
use crate::config::{Config, ExportEntry};
use crate::paths::{file_name, file_name_of, trim_leading_slashes, trim_leading_slashes_of};
use crate::xdr::{be32, be64, bytes_eq, copy_range, get_u32, get_u64, put_bytes, put_u32, put_u64, u32_bytes, u64_bytes};

verus! {

/// The UTF-8 bytes of a string.
pub open spec fn text(s: String) -> Seq<u8> {
    encode_utf8(s@)
}

/// The UTF-8 bytes of a string, computed.
pub fn text_of(s: &String) -> (r: Vec<u8>)
    ensures
        r@ == text(*s),
{
    let b = s.as_str().as_bytes();
    crate::xdr::copy_range(b, 0, b.len())
}

/// Per-export options.
#[derive(Clone, Copy, Debug, PartialEq, Eq)]
pub struct ExportOptions {
    pub read_only: bool,
    pub sync: bool,
    pub no_subtree_check: bool,
    pub root_squash: bool,
    pub secure: bool,
    pub nohide: bool,
}

/// The options of an export that names none: read-write, synchronous,
/// no subtree checking, no root squashing, any client port, hidden.
pub open spec fn default_options() -> ExportOptions {
    ExportOptions {
        read_only: false,
        sync: true,
        no_subtree_check: true,
        root_squash: false,
        secure: false,
        nohide: false,
    }
}

impl Default for ExportOptions {
    fn default() -> (r: Self)
        ensures
            r == default_options(),
    {
        ExportOptions {
            read_only: false,
            sync: true,
            no_subtree_check: true,
            root_squash: false,
            secure: false,
            nohide: false,
        }
    }
}

/// The options after applying one option word; unknown words change nothing.
pub open spec fn apply_option(o: ExportOptions, w: Seq<u8>) -> ExportOptions {
    if w == "ro".spec_bytes() || w == "read-only".spec_bytes() {
        ExportOptions { read_only: true, ..o }
    } else if w == "rw".spec_bytes() || w == "read-write".spec_bytes() {
        ExportOptions { read_only: false, ..o }
    } else if w == "sync".spec_bytes() {
        ExportOptions { sync: true, ..o }
    } else if w == "async".spec_bytes() {
        ExportOptions { sync: false, ..o }
    } else if w == "no_subtree_check".spec_bytes() {
        ExportOptions { no_subtree_check: true, ..o }
    } else if w == "subtree_check".spec_bytes() {
        ExportOptions { no_subtree_check: false, ..o }
    } else if w == "no_root_squash".spec_bytes() {
        ExportOptions { root_squash: false, ..o }
    } else if w == "root_squash".spec_bytes() {
        ExportOptions { root_squash: true, ..o }
    } else if w == "secure".spec_bytes() {
        ExportOptions { secure: true, ..o }
    } else if w == "insecure".spec_bytes() {
        ExportOptions { secure: false, ..o }
    } else if w == "nohide".spec_bytes() {
        ExportOptions { nohide: true, ..o }
    } else if w == "hide".spec_bytes() {
        ExportOptions { nohide: false, ..o }
    } else {
        o
    }
}

/// The options given by a list of option words, applied left to right
/// starting from the defaults.
pub open spec fn options_from(ws: Seq<Seq<u8>>) -> ExportOptions
    decreases ws.len(),
{
    if ws.len() == 0 {
        default_options()
    } else {
        apply_option(options_from(ws.drop_last()), ws.last())
    }
}

/// The option words of a configuration entry, as bytes.
pub open spec fn option_words(opts: Seq<String>) -> Seq<Seq<u8>> {
    opts.map_values(|s: String| text(s))
}

/// Applies one option word.
pub fn apply_option_word(o: ExportOptions, w: &[u8]) -> (r: ExportOptions)
    ensures
        r == apply_option(o, w@),
{
    if bytes_eq(w, "ro".as_bytes()) || bytes_eq(w, "read-only".as_bytes()) {
        ExportOptions { read_only: true, ..o }
    } else if bytes_eq(w, "rw".as_bytes()) || bytes_eq(w, "read-write".as_bytes()) {
        ExportOptions { read_only: false, ..o }
    } else if bytes_eq(w, "sync".as_bytes()) {
        ExportOptions { sync: true, ..o }
    } else if bytes_eq(w, "async".as_bytes()) {
        ExportOptions { sync: false, ..o }
    } else if bytes_eq(w, "no_subtree_check".as_bytes()) {
        ExportOptions { no_subtree_check: true, ..o }
    } else if bytes_eq(w, "subtree_check".as_bytes()) {
        ExportOptions { no_subtree_check: false, ..o }
    } else if bytes_eq(w, "no_root_squash".as_bytes()) {
        ExportOptions { root_squash: false, ..o }
    } else if bytes_eq(w, "root_squash".as_bytes()) {
        ExportOptions { root_squash: true, ..o }
    } else if bytes_eq(w, "secure".as_bytes()) {
        ExportOptions { secure: true, ..o }
    } else if bytes_eq(w, "insecure".as_bytes()) {
        ExportOptions { secure: false, ..o }
    } else if bytes_eq(w, "nohide".as_bytes()) {
        ExportOptions { nohide: true, ..o }
    } else if bytes_eq(w, "hide".as_bytes()) {
        ExportOptions { nohide: false, ..o }
    } else {
        o
    }
}

/// The options given by a configuration entry's option list.
pub fn parse_export_options(opts: &Vec<String>) -> (r: ExportOptions)
    ensures
        r == options_from(option_words(opts@)),
{
    let mut o = ExportOptions::default();
    let mut i: usize = 0;
    while i < opts.len()
        invariant
            i <= opts@.len(),
            o == options_from(option_words(opts@.subrange(0, i as int))),
        decreases opts@.len() - i,
    {
        let w = text_of(&opts[i]);
        o = apply_option_word(o, w.as_slice());
        proof {
            let ws = option_words(opts@.subrange(0, i + 1));
            assert(ws.drop_last() =~= option_words(opts@.subrange(0, i as int)));
            assert(ws.last() == text(opts@[i as int]));
        }
        i += 1;
    }
    assert(opts@.subrange(0, opts@.len() as int) =~= opts@);
    o
}

/// An IPv4 or IPv6 network a client address is checked against; an IPv4
/// address is held in the low 32 bits of `addr`.
#[derive(Clone, Copy, Debug, PartialEq, Eq)]
pub struct ClientNet {
    pub is_v6: bool,
    pub addr: u128,
    pub prefix_len: u8,
}

/// A client's IPv4 or IPv6 address.
#[derive(Clone, Copy, Debug, PartialEq, Eq)]
pub struct ClientAddr {
    pub is_v6: bool,
    pub addr: u128,
}

/// Bit width of the address family.
pub open spec fn family_bits(is_v6: bool) -> u32 {
    if is_v6 { 128 } else { 32 }
}

/// Whether a network is well formed: its prefix fits its family and an IPv4
/// address fits 32 bits.
pub open spec fn net_wf(n: ClientNet) -> bool {
    n.prefix_len <= family_bits(n.is_v6) && (!n.is_v6 ==> n.addr < 0x1_0000_0000)
}

/// Whether `a` lies in `n`: same family and the first `prefix_len` bits agree.
pub open spec fn net_contains(n: ClientNet, a: ClientAddr) -> bool {
    n.is_v6 == a.is_v6 && (n.prefix_len == 0 || (a.addr >> ((family_bits(n.is_v6) - n.prefix_len) as u128))
        == (n.addr >> ((family_bits(n.is_v6) - n.prefix_len) as u128)))
}

/// A single-host network (a /32 for IPv4, a /128 for IPv6) contains
/// exactly its own address; a /0 network contains every address of its
/// family; no network contains an address of the other family.
pub proof fn lemma_net_contains_bounds(n: ClientNet, a: ClientAddr)
    ensures
        n.prefix_len == family_bits(n.is_v6) ==> (net_contains(n, a) <==> a.is_v6 == n.is_v6 && a.addr == n.addr),
        n.prefix_len == 0 ==> (net_contains(n, a) <==> a.is_v6 == n.is_v6),
        a.is_v6 != n.is_v6 ==> !net_contains(n, a),
{
    let (x, y) = (a.addr, n.addr);
    assert(x >> 0u128 == x && y >> 0u128 == y) by (bit_vector);
}

/// An address lies in a network of its family with prefix length `p`
/// (0 < `p`) exactly when both agree in their first `p` bits, that is when
/// dividing both by 2 to the power of the remaining bits gives the same
/// quotient.
pub proof fn lemma_net_contains_prefix(n: ClientNet, a: ClientAddr)
    requires
        0 < n.prefix_len <= family_bits(n.is_v6),
        a.is_v6 == n.is_v6,
    ensures
        net_contains(n, a) <==> a.addr as nat / vstd::arithmetic::power2::pow2((family_bits(n.is_v6) - n.prefix_len) as nat)
            == n.addr as nat / vstd::arithmetic::power2::pow2((family_bits(n.is_v6) - n.prefix_len) as nat),
{
    let sh = (family_bits(n.is_v6) - n.prefix_len) as u128;
    vstd::bits::lemma_u128_shr_is_div(a.addr, sh);
    vstd::bits::lemma_u128_shr_is_div(n.addr, sh);
}

/// Computes whether `a` lies in `n`.
pub fn contains_addr(n: &ClientNet, a: &ClientAddr) -> (r: bool)
    requires
        net_wf(*n),
    ensures
        r == net_contains(*n, *a),
{
    if n.is_v6 != a.is_v6 {
        return false;
    }
    if n.prefix_len == 0 {
        return true;
    }
    let bits: u32 = if n.is_v6 { 128 } else { 32 };
    let shift = (bits - n.prefix_len as u32) as u128;
    (a.addr >> shift) == (n.addr >> shift)
}

/// The network a string denotes by the `ipnet` crate's `IpNet` syntax
/// (`address/prefix`), or `None`.
pub uninterp spec fn ip_net_parse(s: Seq<char>) -> Option<ClientNet>;

/// Parses `s` with `ipnet::IpNet::from_str`. The contract names the result
/// and states what `Ipv4Net::new` / `Ipv6Net::new` guarantee of any parsed
/// network: the prefix fits the family (32 or 128 bits).
#[verifier::external_body]
fn parse_ip_net(s: &str) -> (r: Option<ClientNet>)
    ensures
        r == ip_net_parse(s@),
        r matches Some(n) ==> net_wf(n),
{
    match s.parse::<ipnet::IpNet>() {
        Ok(ipnet::IpNet::V4(n)) => Some(ClientNet { is_v6: false, addr: u32::from(n.addr()) as u128, prefix_len: n.prefix_len() }),
        Ok(ipnet::IpNet::V6(n)) => Some(ClientNet { is_v6: true, addr: u128::from(n.addr()), prefix_len: n.prefix_len() }),
        Err(_) => None,
    }
}

/// The address a string denotes by the standard library's `IpAddr` syntax
/// (a bare IPv4 or IPv6 address), or `None`.
pub uninterp spec fn ip_addr_parse(s: Seq<char>) -> Option<ClientAddr>;

/// Parses `s` with `core::net::IpAddr::from_str` (the same type as
/// `std::net::IpAddr`). The contract names the result and states that an
/// IPv4 address fits 32 bits.
#[verifier::external_body]
fn parse_ip_addr(s: &str) -> (r: Option<ClientAddr>)
    ensures
        r == ip_addr_parse(s@),
        r matches Some(a) ==> (!a.is_v6 ==> a.addr < 0x1_0000_0000),
{
    match s.parse::<core::net::IpAddr>() {
        Ok(core::net::IpAddr::V4(a)) => Some(ClientAddr { is_v6: false, addr: u32::from(a) as u128 }),
        Ok(core::net::IpAddr::V6(a)) => Some(ClientAddr { is_v6: true, addr: u128::from(a) }),
        Err(_) => None,
    }
}

/// The single-host network of an address: a /32 for IPv4, a /128 for IPv6.
pub open spec fn host_net(a: ClientAddr) -> ClientNet {
    ClientNet { is_v6: a.is_v6, addr: a.addr, prefix_len: if a.is_v6 { 128 } else { 32 } }
}

/// Every IPv4 address.
pub open spec fn any_v4() -> ClientNet {
    ClientNet { is_v6: false, addr: 0, prefix_len: 0 }
}

/// Every IPv6 address.
pub open spec fn any_v6() -> ClientNet {
    ClientNet { is_v6: true, addr: 0, prefix_len: 0 }
}

/// The networks one `allowed_clients` word grants: `*` grants every IPv4 and
/// IPv6 address; a network in `address/prefix` form grants that network; a
/// bare address grants that single host; anything else grants nothing.
pub open spec fn nets_for_client(c: Seq<char>) -> Seq<ClientNet> {
    if c == "*"@ {
        seq![any_v4(), any_v6()]
    } else if ip_net_parse(c) is Some {
        seq![ip_net_parse(c)->0]
    } else if ip_addr_parse(c) is Some {
        seq![host_net(ip_addr_parse(c)->0)]
    } else {
        Seq::empty()
    }
}

/// The networks a list of `allowed_clients` words grants, in order.
pub open spec fn nets_for_clients(cs: Seq<String>) -> Seq<ClientNet>
    decreases cs.len(),
{
    if cs.len() == 0 {
        Seq::empty()
    } else {
        nets_for_clients(cs.drop_last()) + nets_for_client(cs.last()@)
    }
}

/// The networks one `allowed_clients` word grants, computed.
pub fn parse_client(c: &String) -> (r: Vec<ClientNet>)
    ensures
        r@ == nets_for_client(c@),
        forall|i: int| 0 <= i < r@.len() ==> net_wf(#[trigger] r@[i]),
{
    let mut r: Vec<ClientNet> = Vec::new();
    let star = String::from_str("*");
    if *c == star {
        r.push(ClientNet { is_v6: false, addr: 0, prefix_len: 0 });
        r.push(ClientNet { is_v6: true, addr: 0, prefix_len: 0 });
        assert(r@ =~= nets_for_client(c@));
        return r;
    }
    match parse_ip_net(c.as_str()) {
        Some(n) => {
            r.push(n);
            assert(r@ =~= nets_for_client(c@));
            return r;
        }
        None => {}
    }
    match parse_ip_addr(c.as_str()) {
        Some(a) => {
            let prefix_len: u8 = if a.is_v6 { 128 } else { 32 };
            r.push(ClientNet { is_v6: a.is_v6, addr: a.addr, prefix_len });
            assert(r@ =~= nets_for_client(c@));
            return r;
        }
        None => {}
    }
    assert(r@ =~= nets_for_client(c@));
    r
}

/// The networks granted by a list of `allowed_clients` words. An empty
/// result denies every client.
pub fn parse_clients(cs: &Vec<String>) -> (r: Vec<ClientNet>)
    ensures
        r@ == nets_for_clients(cs@),
        forall|i: int| 0 <= i < r@.len() ==> net_wf(#[trigger] r@[i]),
{
    let mut r: Vec<ClientNet> = Vec::new();
    let mut i: usize = 0;
    while i < cs.len()
        invariant
            i <= cs@.len(),
            r@ == nets_for_clients(cs@.subrange(0, i as int)),
            forall|k: int| 0 <= k < r@.len() ==> net_wf(#[trigger] r@[k]),
        decreases cs@.len() - i,
    {
        let nets = parse_client(&cs[i]);
        let mut j: usize = 0;
        let ghost before = r@;
        while j < nets.len()
            invariant
                j <= nets@.len(),
                r@ == before + nets@.subrange(0, j as int),
                forall|k: int| 0 <= k < r@.len() ==> net_wf(#[trigger] r@[k]),
                forall|k: int| 0 <= k < nets@.len() ==> net_wf(#[trigger] nets@[k]),
            decreases nets@.len() - j,
        {
            r.push(nets[j]);
            j += 1;
            assert(r@ =~= before + nets@.subrange(0, j as int));
        }
        proof {
            assert(nets@.subrange(0, nets@.len() as int) =~= nets@);
            let pre = cs@.subrange(0, i + 1);
            assert(pre.drop_last() =~= cs@.subrange(0, i as int));
            assert(pre.last() == cs@[i as int]);
        }
        i += 1;
    }
    assert(cs@.subrange(0, cs@.len() as int) =~= cs@);
    r
}


/// First index of `s` whose element satisfies `f`.
pub open spec fn first_index<T>(s: Seq<T>, f: spec_fn(T) -> bool) -> Option<int>
    decreases s.len(),
{
    if s.len() == 0 {
        None
    } else if f(s[0]) {
        Some(0)
    } else {
        match first_index(s.drop_first(), f) {
            Some(i) => Some(i + 1),
            None => None,
        }
    }
}

/// Last index of `s` whose element satisfies `f`.
pub open spec fn last_index<T>(s: Seq<T>, f: spec_fn(T) -> bool) -> Option<int>
    decreases s.len(),
{
    if s.len() == 0 {
        None
    } else if f(s.last()) {
        Some(s.len() - 1)
    } else {
        last_index(s.drop_last(), f)
    }
}

/// A front-to-back search that stopped at `i` found the first match.
pub proof fn lemma_first_index<T>(s: Seq<T>, f: spec_fn(T) -> bool, i: int)
    requires
        0 <= i <= s.len(),
        forall|k: int| 0 <= k < i ==> !f(#[trigger] s[k]),
    ensures
        i < s.len() && f(s[i]) ==> first_index(s, f) == Some(i),
        i == s.len() ==> first_index(s, f) is None,
        first_index(s, f) matches Some(j) ==> 0 <= j < s.len() && f(s[j]),
    decreases s.len(),
{
    if s.len() > 0 {
        if !f(s[0]) {
            assert forall|k: int| 0 <= k < i - 1 implies !f(#[trigger] s.drop_first()[k]) by {
                assert(s.drop_first()[k] == s[k + 1]);
            }
            if i > 0 {
                lemma_first_index(s.drop_first(), f, i - 1);
            } else {
                lemma_first_index(s.drop_first(), f, 0);
            }
        }
    }
}

/// A back-to-front search that stopped at `i` (exclusive) found the last match.
pub proof fn lemma_last_index<T>(s: Seq<T>, f: spec_fn(T) -> bool, i: int)
    requires
        0 <= i <= s.len(),
        forall|k: int| i <= k < s.len() ==> !f(#[trigger] s[k]),
    ensures
        i > 0 && f(s[i - 1]) ==> last_index(s, f) == Some(i - 1),
        i == 0 ==> last_index(s, f) is None,
        last_index(s, f) matches Some(j) ==> 0 <= j < s.len() && f(s[j]),
    decreases s.len(),
{
    if s.len() > 0 {
        if !f(s.last()) {
            assert forall|k: int| i <= k < s.len() - 1 implies !f(#[trigger] s.drop_last()[k]) by {
                assert(s.drop_last()[k] == s[k]);
            }
            if i < s.len() {
                lemma_last_index(s.drop_last(), f, i);
            } else {
                lemma_last_index(s.drop_last(), f, s.len() - 1);
            }
        }
    }
}

/// An exported directory.
pub struct Export {
    pub path: Vec<u8>,
    pub alias: Option<Vec<u8>>,
    pub allowed_clients: Vec<ClientNet>,
    pub options: ExportOptions,
}

/// The value of an export.
pub struct ExportView {
    pub path: Seq<u8>,
    pub alias: Option<Seq<u8>>,
    pub clients: Seq<ClientNet>,
    pub options: ExportOptions,
}

impl View for Export {
    type V = ExportView;

    open spec fn view(&self) -> ExportView {
        ExportView {
            path: self.path@,
            alias: match self.alias {
                Some(a) => Some(a@),
                None => None,
            },
            clients: self.allowed_clients@,
            options: self.options,
        }
    }
}

/// Whether every network of the export is well formed.
pub open spec fn export_wf(e: ExportView) -> bool {
    forall|i: int| 0 <= i < e.clients.len() ==> net_wf(#[trigger] e.clients[i])
}

/// The export a configuration entry describes.
pub open spec fn export_of(e: ExportEntry) -> ExportView {
    ExportView {
        path: text(e.path),
        alias: match e.alias {
            Some(a) => Some(text(a)),
            None => None,
        },
        clients: nets_for_clients(e.allowed_clients@),
        options: options_from(option_words(e.options@)),
    }
}

/// A copy of a byte vector.
pub fn clone_bytes(v: &Vec<u8>) -> (r: Vec<u8>)
    ensures
        r@ == v@,
{
    let r = copy_range(v.as_slice(), 0, v.len());
    assert(v@.subrange(0, v@.len() as int) =~= v@);
    r
}

/// A copy of an export.
pub fn clone_export(e: &Export) -> (r: Export)
    ensures
        r@ == e@,
{
    let mut clients: Vec<ClientNet> = Vec::new();
    let mut i: usize = 0;
    while i < e.allowed_clients.len()
        invariant
            i <= e.allowed_clients@.len(),
            clients@ == e.allowed_clients@.subrange(0, i as int),
        decreases e.allowed_clients@.len() - i,
    {
        clients.push(e.allowed_clients[i]);
        i += 1;
        assert(clients@ =~= e.allowed_clients@.subrange(0, i as int));
    }
    assert(e.allowed_clients@.subrange(0, e.allowed_clients@.len() as int) =~= e.allowed_clients@);
    let alias = match &e.alias {
        Some(a) => Some(clone_bytes(a)),
        None => None,
    };
    Export { path: clone_bytes(&e.path), alias, allowed_clients: clients, options: e.options }
}

/// Builds the export a configuration entry describes.
pub fn parse_export_entry(entry: &ExportEntry) -> (r: Export)
    ensures
        r@ == export_of(*entry),
        export_wf(r@),
{
    let alias = match &entry.alias {
        Some(a) => Some(text_of(a)),
        None => None,
    };
    Export {
        path: text_of(&entry.path),
        alias,
        allowed_clients: parse_clients(&entry.allowed_clients),
        options: parse_export_options(&entry.options),
    }
}

/// Whether `e`'s alias is `p` or `p` with a leading `/`.
pub open spec fn alias_is_mount_path(e: ExportView, p: Seq<u8>) -> bool {
    e.alias matches Some(a) && (a == p || seq![0x2fu8] + a == p)
}

/// Whether `e`'s directory name or alias is `name`.
pub open spec fn named(e: ExportView, name: Seq<u8>) -> bool {
    file_name(e.path) == name || e.alias == Some(name)
}

/// The export an NFS mount path selects: an export whose alias is the path
/// (with or without a leading `/`); else one whose directory name or alias
/// is the path without its leading slashes; else one whose full path is the
/// path. Among several candidates of one rule the first in order wins.
pub open spec fn resolve_index(ex: Seq<ExportView>, p: Seq<u8>) -> Option<int> {
    let by_alias = first_index(ex, alias_rule(p));
    let by_name = first_index(ex, name_rule(p));
    let by_path = first_index(ex, path_rule(p));
    if by_alias is Some {
        by_alias
    } else if by_name is Some {
        by_name
    } else {
        by_path
    }
}

/// First rule of [`resolve_index`].
pub open spec fn alias_rule(p: Seq<u8>) -> spec_fn(ExportView) -> bool {
    |e: ExportView| alias_is_mount_path(e, p)
}

/// Second rule of [`resolve_index`].
pub open spec fn name_rule(p: Seq<u8>) -> spec_fn(ExportView) -> bool {
    |e: ExportView| named(e, trim_leading_slashes(p))
}

/// Third rule of [`resolve_index`].
pub open spec fn path_rule(p: Seq<u8>) -> spec_fn(ExportView) -> bool {
    |e: ExportView| e.path == p
}

/// A file handle entry: the real path a handle ID stands for.
pub struct FhEntry {
    pub fhid: u64,
    pub real_path: Vec<u8>,
    pub export_root: Vec<u8>,
    pub inode: u64,
    pub gen: u32,
}

/// The value of a file handle entry.
pub struct FhView {
    pub fhid: u64,
    pub real_path: Seq<u8>,
    pub export_root: Seq<u8>,
    pub inode: u64,
    pub gen: u32,
}

impl View for FhEntry {
    type V = FhView;

    open spec fn view(&self) -> FhView {
        FhView {
            fhid: self.fhid,
            real_path: self.real_path@,
            export_root: self.export_root@,
            inode: self.inode,
            gen: self.gen,
        }
    }
}

/// FNV-1a offset basis and prime.
pub const FNV_OFFSET: u64 = 0xcbf29ce484222325;
pub const FNV_PRIME: u64 = 0x100000001b3;

/// FNV-1a over `s`, continuing from `h`.
pub open spec fn fnv1a_from(h: u64, s: Seq<u8>) -> u64
    decreases s.len(),
{
    if s.len() == 0 {
        h
    } else {
        fnv1a_from((h ^ (s[0] as u64)).wrapping_mul(FNV_PRIME), s.drop_first())
    }
}

/// The 64-bit FNV-1a hash of `s`: the stable inode number of a path.
pub open spec fn fnv1a(s: Seq<u8>) -> u64 {
    fnv1a_from(FNV_OFFSET, s)
}

/// Computes the 64-bit FNV-1a hash of a path's bytes.
pub fn fnv1a_of(s: &[u8]) -> (r: u64)
    ensures
        r == fnv1a(s@),
{
    let mut hash: u64 = FNV_OFFSET;
    let mut i: usize = 0;
    assert(s@.subrange(0, s@.len() as int) =~= s@);
    while i < s.len()
        invariant
            i <= s@.len(),
            fnv1a_from(hash, s@.subrange(i as int, s@.len() as int)) == fnv1a(s@),
        decreases s@.len() - i,
    {
        proof {
            let t = s@.subrange(i as int, s@.len() as int);
            assert(t.drop_first() =~= s@.subrange(i + 1, s@.len() as int));
            assert(t[0] == s@[i as int]);
        }
        hash = (hash ^ (s[i] as u64)).wrapping_mul(FNV_PRIME);
        i += 1;
    }
    hash
}

/// HMAC-SHA256 of `msg` under `key`.
pub uninterp spec fn hmac_sha256(key: Seq<u8>, msg: Seq<u8>) -> Seq<u8>;

/// Computes HMAC-SHA256 with the `hmac` and `sha2` crates
/// (`Hmac::<Sha256>::new_from_slice`, `update`, `finalize`). The contract
/// names the tag and states its length, the SHA-256 output size; HMAC
/// accepts a key of any length, so `new_from_slice` does not fail.
#[verifier::external_body]
fn hmac_sha256_tag(key: &[u8], msg: &[u8]) -> (r: Vec<u8>)
    ensures
        r@ == hmac_sha256(key@, msg@),
        r@.len() == 32,
{
    let mut mac = <hmac::Hmac<sha2::Sha256> as Mac>::new_from_slice(key).expect("HMAC takes any key length");
    mac.update(msg);
    mac.finalize().into_bytes().to_vec()
}

/// The fields a file handle's MAC covers, in wire order.
pub open spec fn mac_input(fhid: u64, inode: u64, gen: u32, salt: u32) -> Seq<u8> {
    u64_bytes(fhid) + u64_bytes(inode) + u32_bytes(gen) + u32_bytes(salt)
}

/// The 16-byte MAC of a file handle: HMAC-SHA256 truncated to 128 bits.
pub open spec fn fh_mac(key: Seq<u8>, fhid: u64, inode: u64, gen: u32, salt: u32) -> Seq<u8> {
    hmac_sha256(key, mac_input(fhid, inode, gen, salt)).subrange(0, 16)
}

/// The 40-byte wire form of a file handle: handle ID, inode, generation,
/// salt, then the MAC over those 24 bytes.
pub open spec fn handle_bytes(key: Seq<u8>, fhid: u64, inode: u64, gen: u32, salt: u32) -> Seq<u8> {
    mac_input(fhid, inode, gen, salt) + fh_mac(key, fhid, inode, gen, salt)
}

/// The handle ID a handle carries if its MAC is genuine; `None` for a handle
/// shorter than 40 bytes or with a MAC that does not match.
pub open spec fn verified_fhid(key: Seq<u8>, h: Seq<u8>) -> Option<u64> {
    if h.len() < 40 {
        None
    } else if h.subrange(24, 40) == fh_mac(key, be64(h, 0), be64(h, 8), be32(h, 16), be32(h, 20)) {
        Some(be64(h, 0))
    } else {
        None
    }
}

/// The first 20 bytes of an entry's handles: its ID, inode and generation.
pub open spec fn handle_prefix(e: FhView) -> Seq<u8> {
    u64_bytes(e.fhid) + u64_bytes(e.inode) + u32_bytes(e.gen)
}

/// A handle begins with its entry's ID, inode and generation, whatever the
/// salt.
proof fn lemma_handle_prefix(key: Seq<u8>, e: FhView, salt: u32)
    ensures
        handle_bytes(key, e.fhid, e.inode, e.gen, salt).subrange(0, 20) == handle_prefix(e),
{
    assert(handle_bytes(key, e.fhid, e.inode, e.gen, salt).subrange(0, 20) =~= handle_prefix(e));
}

/// Whether every byte is zero (the root probe handle).
pub open spec fn all_zero(h: Seq<u8>) -> bool {
    forall|i: int| 0 <= i < h.len() ==> h[i] == 0
}

/// The handle ID of an accepted handle: 0 for an all-zero handle, else the
/// verified ID.
pub open spec fn accepted_fhid(key: Seq<u8>, h: Seq<u8>) -> Option<u64> {
    if all_zero(h) {
        Some(0)
    } else {
        verified_fhid(key, h)
    }
}

/// A handle the server issued verifies, and carries the ID it was issued for.
pub proof fn lemma_issued_handle_verifies(key: Seq<u8>, fhid: u64, inode: u64, gen: u32, salt: u32)
    requires
        hmac_sha256(key, mac_input(fhid, inode, gen, salt)).len() == 32,
    ensures
        handle_bytes(key, fhid, inode, gen, salt).len() == 40,
        verified_fhid(key, handle_bytes(key, fhid, inode, gen, salt)) == Some(fhid),
{
    let h = handle_bytes(key, fhid, inode, gen, salt);
    crate::xdr::lemma_u64_roundtrip(fhid);
    crate::xdr::lemma_u64_roundtrip(inode);
    crate::xdr::lemma_u32_roundtrip(gen);
    crate::xdr::lemma_u32_roundtrip(salt);
    assert(h.subrange(0, 8) =~= u64_bytes(fhid));
    assert(h.subrange(8, 16) =~= u64_bytes(inode));
    assert(h.subrange(16, 20) =~= u32_bytes(gen));
    assert(h.subrange(20, 24) =~= u32_bytes(salt));
    assert(be64(h, 0) == be64(u64_bytes(fhid), 0));
    assert(be64(h, 8) == be64(u64_bytes(inode), 0));
    assert(be32(h, 16) == be32(u32_bytes(gen), 0));
    assert(be32(h, 20) == be32(u32_bytes(salt), 0));
    assert(h.subrange(24, 40) =~= fh_mac(key, fhid, inode, gen, salt));
}

/// One xorshift64 step.
pub open spec fn xorshift(x: u64) -> u64 {
    let a = x ^ (x << 13u64);
    let b = a ^ (a >> 7u64);
    b ^ (b << 17u64)
}

/// Computes one xorshift64 step.
pub fn xorshift_step(x: u64) -> (r: u64)
    ensures
        r == xorshift(x),
{
    let a = x ^ (x << 13u64);
    let b = a ^ (a >> 7u64);
    b ^ (b << 17u64)
}

/// The per-handle salt drawn from the clock (nanoseconds), the process ID and
/// the handle ID.
pub open spec fn spec_handle_salt(nanos: u64, pid: u64, fhid: u64) -> u32 {
    xorshift(nanos ^ (pid << 32u64) ^ fhid) as u32
}

/// Computes the per-handle salt.
pub fn handle_salt(nanos: u64, pid: u64, fhid: u64) -> (r: u32)
    ensures
        r == spec_handle_salt(nanos, pid, fhid),
{
    xorshift_step(nanos ^ (pid << 32u64) ^ fhid) as u32
}

/// The bytes an xorshift64 stream started at `seed` yields: after each
/// step, the low byte of the state.
pub open spec fn xorshift_bytes(seed: u64, n: nat) -> Seq<u8>
    decreases n,
{
    if n == 0 {
        Seq::empty()
    } else {
        let prev = xorshift_bytes(seed, (n - 1) as nat);
        prev.push((xorshift_state(seed, n) % 256) as u8)
    }
}

/// The xorshift64 state after `n` steps from `seed`.
pub open spec fn xorshift_state(seed: u64, n: nat) -> u64
    decreases n,
{
    if n == 0 {
        seed
    } else {
        xorshift(xorshift_state(seed, (n - 1) as nat))
    }
}

/// Computes `n` bytes of an xorshift64 stream.
pub fn xorshift_fill(seed: u64, n: usize) -> (r: Vec<u8>)
    ensures
        r@ == xorshift_bytes(seed, n as nat),
{
    let mut r: Vec<u8> = Vec::new();
    let mut x = seed;
    let mut i: usize = 0;
    while i < n
        invariant
            i <= n,
            x == xorshift_state(seed, i as nat),
            r@ == xorshift_bytes(seed, i as nat),
        decreases n - i,
    {
        x = xorshift_step(x);
        r.push((x % 256) as u8);
        i += 1;
    }
    r
}

/// The file-handle signing key drawn from the clock and process ID.
pub open spec fn spec_hmac_key(nanos: u64, pid: u64) -> Seq<u8> {
    xorshift_bytes(nanos ^ pid ^ 0xDEADBEEF_CAFEBABEu64, 32)
}

/// Computes the 32-byte file-handle signing key.
pub fn derive_hmac_key(nanos: u64, pid: u64) -> (r: Vec<u8>)
    ensures
        r@ == spec_hmac_key(nanos, pid),
        r@.len() == 32,
{
    let r = xorshift_fill(nanos ^ pid ^ 0xDEADBEEF_CAFEBABEu64, 32);
    proof { lemma_xorshift_bytes_len(nanos ^ pid ^ 0xDEADBEEF_CAFEBABEu64, 32); }
    r
}

/// A stream of `n` bytes has length `n`.
pub proof fn lemma_xorshift_bytes_len(seed: u64, n: nat)
    ensures
        xorshift_bytes(seed, n).len() == n,
    decreases n,
{
    if n > 0 {
        lemma_xorshift_bytes_len(seed, (n - 1) as nat);
    }
}


/// The handle ID and stored inode of a handle that may predate a restart:
/// at least 16 bytes, an ID that is neither 0 nor the root ID, and no entry
/// for that ID.
pub open spec fn rebuild_target(m: ExportsManager, h: Seq<u8>) -> Option<(u64, u64)> {
    if h.len() >= 16 && be64(h, 0) != 0 && be64(h, 0) != u64::MAX && index_by_fhid(m.handle_list(), be64(h, 0)) is None {
        Some((be64(h, 0), be64(h, 8)))
    } else {
        None
    }
}

/// The exports and file handles the server knows.
pub struct ExportsManager {
    pub config: Config,
    /// Active exports, keyed by their path.
    pub exports: Vec<Export>,
    /// Issued handle IDs and the paths they stand for.
    pub handles: Vec<FhEntry>,
    /// The next handle ID to hand out.
    pub fh_counter: u64,
    /// Key that signs file handles; drawn at startup and never stored, so
    /// handles from an earlier run do not verify.
    pub fh_hmac_key: Vec<u8>,
}

/// The values of a sequence of exports.
pub open spec fn export_views(ex: Seq<Export>) -> Seq<ExportView> {
    ex.map_values(|e: Export| e@)
}

/// The values of a sequence of handle entries.
pub open spec fn fh_views(hs: Seq<FhEntry>) -> Seq<FhView> {
    hs.map_values(|h: FhEntry| h@)
}

/// Index of the entry for handle ID `fhid`.
pub open spec fn index_by_fhid(hs: Seq<FhView>, fhid: u64) -> Option<int> {
    first_index(hs, |h: FhView| h.fhid == fhid)
}

/// Index of the newest entry for the path `p`.
pub open spec fn index_by_path(hs: Seq<FhView>, p: Seq<u8>) -> Option<int> {
    last_index(hs, |h: FhView| h.real_path == p)
}

/// The handle IDs of `hs` are distinct, at least 1 and below `counter`.
pub open spec fn handle_ids_ok(hs: Seq<FhView>, counter: u64) -> bool {
    &&& forall|i: int| 0 <= i < hs.len() ==> 1 <= #[trigger] hs[i].fhid < counter
    &&& forall|i: int, j: int| 0 <= i < j < hs.len() ==> #[trigger] hs[i].fhid != #[trigger] hs[j].fhid
}

/// Every entry's inode is the FNV-1a hash of its path.
pub open spec fn inodes_match(hs: Seq<FhView>) -> bool {
    forall|i: int| 0 <= i < hs.len() ==> #[trigger] hs[i].inode == fnv1a(hs[i].real_path)
}

/// A search that found nothing means no element matches.
proof fn lemma_first_index_none<T>(s: Seq<T>, f: spec_fn(T) -> bool)
    requires
        first_index(s, f) is None,
    ensures
        forall|k: int| 0 <= k < s.len() ==> !f(#[trigger] s[k]),
    decreases s.len(),
{
    if s.len() > 0 {
        lemma_first_index_none(s.drop_first(), f);
        assert forall|k: int| 0 <= k < s.len() implies !f(#[trigger] s[k]) by {
            if k > 0 {
                assert(s[k] == s.drop_first()[k - 1]);
            }
        }
    }
}

/// Recording an entry whose ID is new, nonzero and below the new counter,
/// and whose inode is its path's hash, keeps the handle IDs in order and the
/// inodes matching.
proof fn lemma_push_ids_ok(hs: Seq<FhView>, counter: u64, v: FhView, new_counter: u64)
    requires
        handle_ids_ok(hs, counter),
        inodes_match(hs),
        counter <= new_counter,
        1 <= v.fhid < new_counter,
        v.inode == fnv1a(v.real_path),
        forall|k: int| 0 <= k < hs.len() ==> #[trigger] hs[k].fhid != v.fhid,
    ensures
        handle_ids_ok(hs.push(v), new_counter),
        inodes_match(hs.push(v)),
{
    let t = hs.push(v);
    assert forall|i: int| 0 <= i < t.len() implies #[trigger] t[i].inode == fnv1a(t[i].real_path) by {
        if i < hs.len() {
            assert(t[i] == hs[i]);
        }
    }
    assert forall|i: int, j: int| 0 <= i < j < t.len() implies #[trigger] t[i].fhid != #[trigger] t[j].fhid by {
        if j == hs.len() {
            assert(t[i] == hs[i]);
        } else {
            assert(t[i] == hs[i] && t[j] == hs[j]);
        }
    }
    assert forall|i: int| 0 <= i < t.len() implies 1 <= #[trigger] t[i].fhid < new_counter by {
        if i < hs.len() {
            assert(t[i] == hs[i]);
        }
    }
}

/// A handle the server issued for an entry resolves to that entry's path
/// and export root: its MAC verifies, it is not the all-zero probe, and no
/// other entry carries its ID.
pub proof fn lemma_handle_resolves(key: Seq<u8>, hs: Seq<FhView>, counter: u64, i: int, salt: u32)
    requires
        handle_ids_ok(hs, counter),
        0 <= i < hs.len(),
        hmac_sha256(key, mac_input(hs[i].fhid, hs[i].inode, hs[i].gen, salt)).len() == 32,
    ensures
        fh_path(key, hs, handle_bytes(key, hs[i].fhid, hs[i].inode, hs[i].gen, salt)) == Some(hs[i].real_path),
        fh_root(key, hs, handle_bytes(key, hs[i].fhid, hs[i].inode, hs[i].gen, salt)) == Some(hs[i].export_root),
{
    let e = hs[i];
    let h = handle_bytes(key, e.fhid, e.inode, e.gen, salt);
    lemma_issued_handle_verifies(key, e.fhid, e.inode, e.gen, salt);
    if all_zero(h) {
        assert(h[0] == 0 && h[1] == 0 && h[2] == 0 && h[3] == 0);
        assert(h[4] == 0 && h[5] == 0 && h[6] == 0 && h[7] == 0);
        assert(be32(h, 0) == 0);
        assert(be32(h, 4) == 0);
        assert(be64(h, 0) == 0);
    }
    assert(!all_zero(h));
    let f = |x: FhView| x.fhid == e.fhid;
    assert forall|k: int| 0 <= k < i implies !f(#[trigger] hs[k]) by {
        assert(hs[k].fhid != hs[i].fhid);
    }
    lemma_first_index(hs, f, i);
}

/// The export at position `i`, copied.
fn export_at(ex: &Vec<Export>, i: usize) -> (r: Export)
    requires
        i < ex@.len(),
    ensures
        r@ == ex@[i as int]@,
{
    clone_export(&ex[i])
}

impl ExportsManager {
    /// The exports, as values.
    pub open spec fn export_list(&self) -> Seq<ExportView> {
        export_views(self.exports@)
    }

    /// The handle entries, as values.
    pub open spec fn handle_list(&self) -> Seq<FhView> {
        fh_views(self.handles@)
    }

    /// The signing key has the HMAC-SHA256 key size, every export's networks
    /// are well formed, handle IDs start at 1, the recorded handle IDs are
    /// distinct and below the counter, and each entry's inode is its path's
    /// FNV-1a hash.
    pub open spec fn wf(&self) -> bool {
        &&& self.fh_hmac_key@.len() == 32
        &&& self.fh_counter >= 1
        &&& forall|i: int| 0 <= i < self.exports@.len() ==> export_wf(#[trigger] self.exports@[i]@)
        &&& handle_ids_ok(self.handle_list(), self.fh_counter)
        &&& inodes_match(self.handle_list())
    }

    /// A manager with no active exports and no handles, signing handles with `key`.
    pub fn new(config: Config, key: Vec<u8>) -> (r: Self)
        requires
            key@.len() == 32,
        ensures
            r.wf(),
            r.exports@.len() == 0,
            r.handles@.len() == 0,
            r.fh_counter == 1,
            r.fh_hmac_key@ == key@,
            r.config == config,
    {
        ExportsManager { config, exports: Vec::new(), handles: Vec::new(), fh_counter: 1, fh_hmac_key: key }
    }

    /// The position of the export an NFS mount path selects.
    pub fn resolve_export_index(&self, nfs_path: &[u8]) -> (r: Option<usize>)
        ensures
            r matches Some(i) ==> resolve_index(self.export_list(), nfs_path@) == Some(i as int),
            r is None <==> resolve_index(self.export_list(), nfs_path@) is None,
            r matches Some(i) ==> i < self.exports@.len(),
            resolve_index(self.export_list(), nfs_path@) matches Some(i) ==> 0 <= i < self.exports@.len(),
    {
        let ghost ex = self.export_list();
        let ghost p = nfs_path@;
        let mut i: usize = 0;
        while i < self.exports.len()
            invariant
                i <= self.exports@.len(),
                ex == self.export_list(),
                p == nfs_path@,
                forall|k: int| 0 <= k < i ==> !alias_rule(p)(#[trigger] ex[k]),
            decreases self.exports@.len() - i,
        {
            let e = &self.exports[i];
            assert(ex[i as int] == e@);
            let hit = match &e.alias {
                Some(a) => bytes_eq(a.as_slice(), nfs_path) || (nfs_path.len() >= 1 && nfs_path[0] == 0x2f
                    && Self::eq_after_slash(a.as_slice(), nfs_path)),
                None => false,
            };
            if hit {
                proof { lemma_first_index(ex, alias_rule(p), i as int); }
                return Some(i);
            }
            i += 1;
        }
        proof { lemma_first_index(ex, alias_rule(p), i as int); }
        let stripped = trim_leading_slashes_of(nfs_path);
        let mut i: usize = 0;
        while i < self.exports.len()
            invariant
                i <= self.exports@.len(),
                ex == self.export_list(),
                p == nfs_path@,
                first_index(ex, alias_rule(p)) is None,
                stripped@ == trim_leading_slashes(p),
                forall|k: int| 0 <= k < i ==> !name_rule(p)(#[trigger] ex[k]),
            decreases self.exports@.len() - i,
        {
            let e = &self.exports[i];
            assert(ex[i as int] == e@);
            let dir_name = file_name_of(e.path.as_slice());
            let hit = bytes_eq(dir_name.as_slice(), stripped.as_slice()) || match &e.alias {
                Some(a) => bytes_eq(a.as_slice(), stripped.as_slice()),
                None => false,
            };
            if hit {
                proof { lemma_first_index(ex, name_rule(p), i as int); }
                return Some(i);
            }
            i += 1;
        }
        proof { lemma_first_index(ex, name_rule(p), i as int); }
        let mut i: usize = 0;
        while i < self.exports.len()
            invariant
                i <= self.exports@.len(),
                ex == self.export_list(),
                p == nfs_path@,
                first_index(ex, alias_rule(p)) is None,
                first_index(ex, name_rule(p)) is None,
                forall|k: int| 0 <= k < i ==> !path_rule(p)(#[trigger] ex[k]),
            decreases self.exports@.len() - i,
        {
            assert(ex[i as int] == self.exports@[i as int]@);
            if bytes_eq(self.exports[i].path.as_slice(), nfs_path) {
                proof { lemma_first_index(ex, path_rule(p), i as int); }
                return Some(i);
            }
            i += 1;
        }
        proof { lemma_first_index(ex, path_rule(p), i as int); }
        None
    }

    /// Whether `p` is `/` followed by `a`.
    fn eq_after_slash(a: &[u8], p: &[u8]) -> (r: bool)
        requires
            p@.len() >= 1,
            p@[0] == 0x2f,
        ensures
            r == (seq![0x2fu8] + a@ == p@),
    {
        if p.len() - 1 != a.len() {
            return false;
        }
        let mut i: usize = 0;
        while i < a.len()
            invariant
                i <= a@.len(),
                p@.len() == a@.len() + 1,
                forall|k: int| 0 <= k < i ==> a@[k] == p@[k + 1],
            decreases a@.len() - i,
        {
            if a[i] != p[i + 1] {
                assert((seq![0x2fu8] + a@)[i + 1] == a@[i as int]);
                return false;
            }
            i += 1;
        }
        assert(seq![0x2fu8] + a@ =~= p@);
        true
    }

    /// The export an NFS mount path selects (see [`resolve_index`]), copied.
    pub fn resolve_export_path(&self, nfs_path: &[u8]) -> (r: Option<Export>)
        ensures
            match resolve_index(self.export_list(), nfs_path@) {
                Some(i) => r matches Some(e) && e@ == self.export_list()[i],
                None => r is None,
            },
    {
        match self.resolve_export_index(nfs_path) {
            Some(i) => {
                assert(resolve_index(self.export_list(), nfs_path@) == Some(i as int));
                assert(self.export_list()[i as int] == self.exports@[i as int]@);
                Some(export_at(&self.exports, i))
            }
            None => None,
        }
    }

    /// Same as [`Self::resolve_export_path`].
    pub fn get_export(&self, path: &[u8]) -> (r: Option<Export>)
        ensures
            match resolve_index(self.export_list(), path@) {
                Some(i) => r matches Some(e) && e@ == self.export_list()[i],
                None => r is None,
            },
    {
        self.resolve_export_path(path)
    }

    /// Whether a client may mount `export_path`: the path selects an export
    /// and one of that export's networks contains the client's address. An
    /// export with no networks admits nobody.
    pub open spec fn spec_client_allowed(&self, ip: ClientAddr, export_path: Seq<u8>) -> bool {
        match resolve_index(self.export_list(), export_path) {
            Some(i) => exists|k: int| 0 <= k < self.export_list()[i].clients.len()
                && net_contains(#[trigger] self.export_list()[i].clients[k], ip),
            None => false,
        }
    }

    /// Decides whether a client may mount `export_path`.
    pub fn is_client_allowed(&self, client_ip: ClientAddr, export_path: &[u8]) -> (r: bool)
        requires
            self.wf(),
        ensures
            r == self.spec_client_allowed(client_ip, export_path@),
    {
        match self.resolve_export_index(export_path) {
            None => false,
            Some(i) => {
                assert(resolve_index(self.export_list(), export_path@) == Some(i as int));
                let e = &self.exports[i];
                assert(self.export_list()[i as int] == e@);
                assert(export_wf(e@));
                let mut k: usize = 0;
                while k < e.allowed_clients.len()
                    invariant
                        k <= e.allowed_clients@.len(),
                        export_wf(e@),
                        i < self.exports@.len(),
                        self.export_list()[i as int] == e@,
                        resolve_index(self.export_list(), export_path@) == Some(i as int),
                        forall|j: int| 0 <= j < k ==> !net_contains(#[trigger] e.allowed_clients@[j], client_ip),
                    decreases e.allowed_clients@.len() - k,
                {
                    assert(net_wf(e@.clients[k as int]));
                    if contains_addr(&e.allowed_clients[k], &client_ip) {
                        let ghost kk = k as int;
                        assert(0 <= kk < self.export_list()[i as int].clients.len()
                            && net_contains(self.export_list()[i as int].clients[kk], client_ip));
                        assert(self.spec_client_allowed(client_ip, export_path@));
                        return true;
                    }
                    k += 1;
                }
                assert(self.export_list()[i as int].clients == e.allowed_clients@);
                false
            }
        }
    }

    /// The paths of all active exports.
    pub fn list_exports(&self) -> (r: Vec<Vec<u8>>)
        ensures
            r@.len() == self.exports@.len(),
            forall|i: int| 0 <= i < r@.len() ==> #[trigger] r@[i]@ == self.exports@[i].path@,
    {
        let mut r: Vec<Vec<u8>> = Vec::new();
        let mut i: usize = 0;
        while i < self.exports.len()
            invariant
                i <= self.exports@.len(),
                r@.len() == i,
                forall|k: int| 0 <= k < i ==> #[trigger] r@[k]@ == self.exports@[k].path@,
            decreases self.exports@.len() - i,
        {
            r.push(clone_bytes(&self.exports[i].path));
            i += 1;
        }
        r
    }

    /// The (path, alias) pair of every active export.
    #[verifier::spinoff_prover]
    pub fn list_exports_with_aliases(&self) -> (r: Vec<(Vec<u8>, Option<Vec<u8>>)>)
        ensures
            r@.len() == self.exports@.len(),
            forall|i: int| 0 <= i < r@.len() ==> {
                &&& #[trigger] r@[i].0@ == self.exports@[i].path@
                &&& (match r@[i].1 {
                    Some(a) => Some(a@),
                    None => None::<Seq<u8>>,
                }) == self.export_list()[i].alias
            },
    {
        let mut r: Vec<(Vec<u8>, Option<Vec<u8>>)> = Vec::new();
        let mut i: usize = 0;
        while i < self.exports.len()
            invariant
                i <= self.exports@.len(),
                r@.len() == i,
                forall|k: int| 0 <= k < i ==> {
                    &&& #[trigger] r@[k].0@ == self.exports@[k].path@
                    &&& (match r@[k].1 {
                        Some(a) => Some(a@),
                        None => None::<Seq<u8>>,
                    }) == self.export_list()[k].alias
                },
            decreases self.exports@.len() - i,
        {
            let e = &self.exports[i];
            assert(self.export_list()[i as int] == e@);
            let alias = match &e.alias {
                Some(a) => Some(clone_bytes(a)),
                None => None,
            };
            let ghost before = r@;
            r.push((clone_bytes(&e.path), alias));
            assert(forall|k: int| 0 <= k < i ==> r@[k] == before[k]);
            i += 1;
        }
        r
    }

    /// The aliases of the exports that have one, in order.
    pub fn list_export_aliases(&self) -> (r: Vec<Vec<u8>>)
        ensures
            r@.map_values(|a: Vec<u8>| a@) == alias_list(self.export_list()),
    {
        let mut r: Vec<Vec<u8>> = Vec::new();
        let mut i: usize = 0;
        while i < self.exports.len()
            invariant
                i <= self.exports@.len(),
                r@.map_values(|a: Vec<u8>| a@) == alias_list(self.export_list().subrange(0, i as int)),
            decreases self.exports@.len() - i,
        {
            let ghost before = r@;
            match &self.exports[i].alias {
                Some(a) => {
                    r.push(clone_bytes(a));
                }
                None => {}
            }
            proof {
                let pre = self.export_list().subrange(0, i + 1);
                assert(pre.drop_last() =~= self.export_list().subrange(0, i as int));
                assert(pre.last() == self.exports@[i as int]@);
                assert(r@.map_values(|a: Vec<u8>| a@) =~= alias_list(pre));
            }
            i += 1;
        }
        assert(self.export_list().subrange(0, self.exports@.len() as int) =~= self.export_list());
        r
    }

    /// The path of the first active export.
    pub fn get_first_export_root(&self) -> (r: Option<Vec<u8>>)
        ensures
            self.exports@.len() == 0 ==> r is None,
            self.exports@.len() > 0 ==> (r matches Some(p) && p@ == self.exports@[0].path@),
    {
        if self.exports.len() == 0 {
            None
        } else {
            Some(clone_bytes(&self.exports[0].path))
        }
    }
}

/// The real path a handle stands for: the handle is genuine (or the
/// all-zero probe), its ID is not 0, and an entry for the ID exists.
pub open spec fn fh_path(key: Seq<u8>, hs: Seq<FhView>, h: Seq<u8>) -> Option<Seq<u8>> {
    match accepted_fhid(key, h) {
        Some(f) => if f == 0 {
            None
        } else {
            match index_by_fhid(hs, f) {
                Some(i) => Some(hs[i].real_path),
                None => None,
            }
        },
        None => None,
    }
}

/// The export root of the directory a handle stands for, on the same terms
/// as [`fh_path`].
pub open spec fn fh_root(key: Seq<u8>, hs: Seq<FhView>, h: Seq<u8>) -> Option<Seq<u8>> {
    match accepted_fhid(key, h) {
        Some(f) => if f == 0 {
            None
        } else {
            match index_by_fhid(hs, f) {
                Some(i) => Some(hs[i].export_root),
                None => None,
            }
        },
        None => None,
    }
}

/// The options of the export a handle lies in, if it resolves to one.
pub open spec fn fh_export_options(m: ExportsManager, h: Seq<u8>) -> Option<ExportOptions> {
    match fh_root(m.fh_hmac_key@, m.handle_list(), h) {
        Some(root) => match resolve_index(m.export_list(), root) {
            Some(i) => Some(m.export_list()[i].options),
            None => None,
        },
        None => None,
    }
}

impl ExportsManager {
    /// The 16-byte MAC of a handle's fields.
    pub fn compute_fh_mac(&self, fhid: u64, inode: u64, gen: u32, salt: u32) -> (r: Vec<u8>)
        ensures
            r@ == fh_mac(self.fh_hmac_key@, fhid, inode, gen, salt),
            r@.len() == 16,
            hmac_sha256(self.fh_hmac_key@, mac_input(fhid, inode, gen, salt)).len() == 32,
    {
        let mut msg: Vec<u8> = Vec::new();
        put_u64(&mut msg, fhid);
        put_u64(&mut msg, inode);
        put_u32(&mut msg, gen);
        put_u32(&mut msg, salt);
        assert(msg@ =~= mac_input(fhid, inode, gen, salt));
        let tag = hmac_sha256_tag(self.fh_hmac_key.as_slice(), msg.as_slice());
        copy_range(tag.as_slice(), 0, 16)
    }

    /// The 40-byte wire form of a handle.
    pub fn encode_handle(&self, fhid: u64, inode: u64, gen: u32, salt: u32) -> (r: Vec<u8>)
        ensures
            r@ == handle_bytes(self.fh_hmac_key@, fhid, inode, gen, salt),
            r@.len() == 40,
            hmac_sha256(self.fh_hmac_key@, mac_input(fhid, inode, gen, salt)).len() == 32,
    {
        let mac = self.compute_fh_mac(fhid, inode, gen, salt);
        let mut h: Vec<u8> = Vec::new();
        put_u64(&mut h, fhid);
        put_u64(&mut h, inode);
        put_u32(&mut h, gen);
        put_u32(&mut h, salt);
        put_bytes(&mut h, mac.as_slice());
        assert(h@ =~= handle_bytes(self.fh_hmac_key@, fhid, inode, gen, salt));
        h
    }

    /// The handle ID of a handle whose MAC is genuine.
    pub fn verify_fh_mac(&self, handle: &[u8]) -> (r: Option<u64>)
        ensures
            r == verified_fhid(self.fh_hmac_key@, handle@),
    {
        if handle.len() < 40 {
            return None;
        }
        let fhid = get_u64(handle, 0);
        let inode = get_u64(handle, 8);
        let gen = get_u32(handle, 16);
        let salt = get_u32(handle, 20);
        let expected = self.compute_fh_mac(fhid, inode, gen, salt);
        let stored = copy_range(handle, 24, 16);
        if bytes_eq(stored.as_slice(), expected.as_slice()) {
            Some(fhid)
        } else {
            None
        }
    }

    /// The stable inode number of a path: the FNV-1a hash of its bytes, so
    /// the same path gets the same number across restarts.
    pub fn get_inode(&self, path: &[u8]) -> (r: u64)
        ensures
            r == fnv1a(path@),
    {
        fnv1a_of(path)
    }

    /// The handle ID in a handle's first eight bytes, without checking its MAC.
    pub fn decode_fhid(handle: &[u8]) -> (r: Option<u64>)
        ensures
            r == (if handle@.len() >= 8 { Some(be64(handle@, 0)) } else { None::<u64> }),
    {
        if handle.len() < 8 {
            return None;
        }
        Some(get_u64(handle, 0))
    }

    /// The handle ID of an accepted handle: 0 for the all-zero probe handle,
    /// else the ID of a handle with a genuine MAC.
    pub fn verify_and_decode_fhid(&self, handle: &[u8]) -> (r: Option<u64>)
        ensures
            r == accepted_fhid(self.fh_hmac_key@, handle@),
    {
        if is_all_zero(handle) {
            return Some(0);
        }
        self.verify_fh_mac(handle)
    }

    /// Position of the entry for handle ID `fhid`.
    pub fn find_fhid(&self, fhid: u64) -> (r: Option<usize>)
        ensures
            r matches Some(i) ==> index_by_fhid(self.handle_list(), fhid) == Some(i as int) && i < self.handles@.len(),
            r is None <==> index_by_fhid(self.handle_list(), fhid) is None,
    {
        let ghost hs = self.handle_list();
        let mut i: usize = 0;
        while i < self.handles.len()
            invariant
                i <= self.handles@.len(),
                hs == self.handle_list(),
                forall|k: int| 0 <= k < i ==> !(|h: FhView| h.fhid == fhid)(#[trigger] hs[k]),
            decreases self.handles@.len() - i,
        {
            assert(hs[i as int] == self.handles@[i as int]@);
            if self.handles[i].fhid == fhid {
                proof { lemma_first_index(hs, |h: FhView| h.fhid == fhid, i as int); }
                return Some(i);
            }
            i += 1;
        }
        proof { lemma_first_index(hs, |h: FhView| h.fhid == fhid, i as int); }
        None
    }

    /// Position of the newest entry for the path `p`.
    pub fn find_path(&self, p: &[u8]) -> (r: Option<usize>)
        ensures
            r matches Some(i) ==> index_by_path(self.handle_list(), p@) == Some(i as int) && i < self.handles@.len(),
            r is None <==> index_by_path(self.handle_list(), p@) is None,
    {
        let ghost hs = self.handle_list();
        let mut i: usize = self.handles.len();
        while i > 0
            invariant
                i <= self.handles@.len(),
                hs == self.handle_list(),
                forall|k: int| i <= k < hs.len() ==> !(|h: FhView| h.real_path == p@)(#[trigger] hs[k]),
            decreases i,
        {
            assert(hs[i - 1] == self.handles@[i - 1]@);
            if bytes_eq(self.handles[i - 1].real_path.as_slice(), p) {
                proof { lemma_last_index(hs, |h: FhView| h.real_path == p@, i as int); }
                return Some(i - 1);
            }
            i -= 1;
        }
        proof { lemma_last_index(hs, |h: FhView| h.real_path == p@, 0); }
        None
    }

    /// The real path a handle stands for (see [`fh_path`]).
    pub fn resolve_fh(&self, handle: &[u8]) -> (r: Option<Vec<u8>>)
        ensures
            match fh_path(self.fh_hmac_key@, self.handle_list(), handle@) {
                Some(p) => r matches Some(v) && v@ == p,
                None => r is None,
            },
    {
        let fhid = match self.verify_and_decode_fhid(handle) {
            Some(f) => f,
            None => return None,
        };
        if fhid == 0 {
            return None;
        }
        match self.find_fhid(fhid) {
            Some(i) => {
                assert(self.handle_list()[i as int] == self.handles@[i as int]@);
                Some(clone_bytes(&self.handles[i].real_path))
            }
            None => None,
        }
    }

    /// The export root recorded for a handle (see [`fh_root`]).
    pub fn get_fh_export_root(&self, handle: &[u8]) -> (r: Option<Vec<u8>>)
        ensures
            match fh_root(self.fh_hmac_key@, self.handle_list(), handle@) {
                Some(p) => r matches Some(v) && v@ == p,
                None => r is None,
            },
    {
        let fhid = match self.verify_and_decode_fhid(handle) {
            Some(f) => f,
            None => return None,
        };
        if fhid == 0 {
            return None;
        }
        match self.find_fhid(fhid) {
            Some(i) => {
                assert(self.handle_list()[i as int] == self.handles@[i as int]@);
                Some(clone_bytes(&self.handles[i].export_root))
            }
            None => None,
        }
    }

    /// Whether a handle is usable: the all-zero root probe, the synthetic
    /// NFSv4 root handle (as PUTROOTFH gives it), a signed handle with the
    /// root handle ID, or a genuine handle whose ID has an entry. An empty
    /// handle is not.
    pub fn validate_file_handle(&self, handle: &[u8]) -> (r: bool)
        ensures
            r == (handle@.len() > 0 && (all_zero(handle@) || handle@ == crate::nfs4_ops::root_handle()
                || match verified_fhid(self.fh_hmac_key@, handle@) {
                Some(f) => f == u64::MAX || index_by_fhid(self.handle_list(), f) is Some,
                None => false,
            })),
    {
        if handle.len() == 0 {
            return false;
        }
        if is_all_zero(handle) {
            return true;
        }
        let root = crate::nfs4_ops::encode_synthetic_handle(u64::MAX, "nfs4root".as_bytes());
        if bytes_eq(handle, root.as_slice()) {
            return true;
        }
        let fhid = match self.verify_and_decode_fhid(handle) {
            Some(f) => f,
            None => return false,
        };
        if fhid == u64::MAX {
            return true;
        }
        self.find_fhid(fhid).is_some()
    }

    /// Whether a handle lies in a read-only export; a handle whose export
    /// cannot be determined is not blocked.
    pub fn is_read_only(&self, fh: &[u8]) -> (r: bool)
        ensures
            r == (match fh_export_options(*self, fh@) {
                Some(o) => o.read_only,
                None => false,
            }),
    {
        let root = match self.get_fh_export_root(fh) {
            Some(r) => r,
            None => return false,
        };
        match self.resolve_export_index(root.as_slice()) {
            Some(i) => {
                assert(self.export_list()[i as int] == self.exports@[i as int]@);
                self.exports[i].options.read_only
            }
            None => false,
        }
    }

    /// Whether a request from `uid` on a handle is squashed: the caller is
    /// root and the handle's export has `root_squash`.
    pub fn should_squash_root(&self, fh: &[u8], uid: u32) -> (r: bool)
        ensures
            r == (uid == 0 && match fh_export_options(*self, fh@) {
                Some(o) => o.root_squash,
                None => false,
            }),
    {
        if uid != 0 {
            return false;
        }
        let root = match self.get_fh_export_root(fh) {
            Some(r) => r,
            None => return false,
        };
        match self.resolve_export_index(root.as_slice()) {
            Some(i) => {
                assert(self.export_list()[i as int] == self.exports@[i as int]@);
                self.exports[i].options.root_squash
            }
            None => false,
        }
    }

    /// The handle for `real_path`: the newest entry's ID, inode and
    /// generation if the path has one; otherwise a new entry with the next
    /// ID, the path's FNV-1a inode and generation 1.
    #[verifier::spinoff_prover]
    #[verifier::rlimit(40)]
    pub fn get_or_create_fh(&mut self, real_path: &[u8], export_root: &[u8], salt: u32) -> (r: Vec<u8>)
        requires
            old(self).wf(),
            index_by_path(old(self).handle_list(), real_path@) is None ==> old(self).fh_counter < u64::MAX,
        ensures
            final(self).wf(),
            final(self).exports == old(self).exports,
            final(self).fh_hmac_key == old(self).fh_hmac_key,
            final(self).config == old(self).config,
            r@ == handle_for_path(*old(self), real_path@, salt),
            final(self).handle_list() == handles_after_path(*old(self), real_path@, export_root@),
            final(self).fh_counter == counter_after_path(*old(self), real_path@),
            fh_path(final(self).fh_hmac_key@, final(self).handle_list(), r@) == Some(real_path@),
            r@.len() == 40,
            r@.subrange(0, 20) == handle_prefix(path_entry_after(*old(self), real_path@, export_root@)),
            verified_fhid(final(self).fh_hmac_key@, r@) == Some(path_entry_after(*old(self), real_path@, export_root@).fhid),
            fh_root(final(self).fh_hmac_key@, final(self).handle_list(), r@)
                == Some(path_entry_after(*old(self), real_path@, export_root@).export_root),
    {
        proof { lemma_handle_prefix(self.fh_hmac_key@, path_entry_after(*self, real_path@, export_root@), salt); }
        match self.find_path(real_path) {
            Some(i) => {
                assert(self.handle_list()[i as int] == self.handles@[i as int]@);
                let e = &self.handles[i];
                let r = self.encode_handle(e.fhid, e.inode, e.gen, salt);
                proof {
                    let hs = self.handle_list();
                    lemma_last_index(hs, |h: FhView| h.real_path == real_path@, hs.len() as int);
                    lemma_handle_resolves(self.fh_hmac_key@, hs, self.fh_counter, i as int, salt);
                    lemma_issued_handle_verifies(self.fh_hmac_key@, hs[i as int].fhid, hs[i as int].inode,
                        hs[i as int].gen, salt);
                    assert(path_entry_after(*old(self), real_path@, export_root@) == hs[i as int]);
                }
                r
            }
            None => {
                let inode = fnv1a_of(real_path);
                let fhid = self.fh_counter;
                self.fh_counter = fhid + 1;
                let entry = FhEntry {
                    fhid,
                    real_path: copy_range(real_path, 0, real_path.len()),
                    export_root: copy_range(export_root, 0, export_root.len()),
                    inode,
                    gen: 1,
                };
                proof {
                    assert(real_path@.subrange(0, real_path@.len() as int) =~= real_path@);
                    assert(export_root@.subrange(0, export_root@.len() as int) =~= export_root@);
                }
                self.handles.push(entry);
                let ghost v = FhView { fhid, real_path: real_path@, export_root: export_root@, inode, gen: 1 };
                assert(self.handle_list() =~= old(self).handle_list().push(v));
                proof {
                    lemma_push_ids_ok(old(self).handle_list(), old(self).fh_counter, v, self.fh_counter);
                }
                let r = self.encode_handle(fhid, inode, 1, salt);
                proof {
                    let hs = self.handle_list();
                    assert(hs[hs.len() - 1] == v);
                    lemma_handle_resolves(self.fh_hmac_key@, hs, self.fh_counter, hs.len() - 1, salt);
                    lemma_issued_handle_verifies(self.fh_hmac_key@, fhid, inode, 1, salt);
                    assert(path_entry_after(*old(self), real_path@, export_root@) == v);
                }
                r
            }
        }
    }

    /// A handle for a path that is not an export: a fresh ID, the path's
    /// FNV-1a inode and generation 1, with no entry recorded.
    pub fn alloc_synthetic_handle(&mut self, path: &[u8], salt: u32) -> (r: Vec<u8>)
        requires
            old(self).wf(),
            old(self).fh_counter < u64::MAX,
        ensures
            final(self).wf(),
            final(self).exports == old(self).exports,
            final(self).handles == old(self).handles,
            final(self).fh_hmac_key == old(self).fh_hmac_key,
            final(self).config == old(self).config,
            final(self).fh_counter == old(self).fh_counter + 1,
            r@ == handle_bytes(old(self).fh_hmac_key@, old(self).fh_counter, fnv1a(path@), 1, salt),
    {
        let inode = fnv1a_of(path);
        let fhid = self.fh_counter;
        self.fh_counter = fhid + 1;
        self.encode_handle(fhid, inode, 1, salt)
    }

    /// The handle of an export's root directory when the path selects an
    /// export (the export path stands for both the file and its root);
    /// otherwise a handle of its own for the path.
    pub fn create_file_handle(&mut self, export_path: &[u8], salt: u32) -> (r: Vec<u8>)
        requires
            old(self).wf(),
            create_issues_id(*old(self), export_path@) ==> old(self).fh_counter < u64::MAX,
        ensures
            final(self).wf(),
            final(self).exports == old(self).exports,
            final(self).fh_hmac_key == old(self).fh_hmac_key,
            final(self).config == old(self).config,
            r@ == created_handle(*old(self), export_path@, salt),
            final(self).handle_list() == handles_after_create(*old(self), export_path@),
            final(self).fh_counter == counter_after_create(*old(self), export_path@),
            resolve_index(old(self).export_list(), export_path@) matches Some(i)
                ==> fh_path(final(self).fh_hmac_key@, final(self).handle_list(), r@) == Some(old(self).export_list()[i].path),
    {
        match self.resolve_export_index(export_path) {
            Some(i) => {
                assert(self.export_list()[i as int] == self.exports@[i as int]@);
                let p = clone_bytes(&self.exports[i].path);
                self.get_or_create_fh(p.as_slice(), p.as_slice(), salt)
            }
            None => {
                let r = self.alloc_synthetic_handle(export_path, salt);
                assert(self.handle_list() =~= old(self).handle_list());
                r
            }
        }
    }

    /// What a handle that may predate a restart needs: its ID and stored
    /// inode, when its ID is neither 0 nor the root ID, has no entry, and the
    /// handle holds an inode. The caller then looks for a path under the
    /// exports whose inode matches and records it with [`Self::try_rebuild_fh`].
    pub fn rebuild_candidate(&self, handle: &[u8]) -> (r: Option<(u64, u64)>)
        ensures
            r == rebuild_target(*self, handle@),
    {
        let fhid = match Self::decode_fhid(handle) {
            Some(f) => f,
            None => return None,
        };
        if fhid == u64::MAX || fhid == 0 {
            return None;
        }
        if self.find_fhid(fhid).is_some() {
            return None;
        }
        if handle.len() < 16 {
            return None;
        }
        Some((fhid, get_u64(handle, 8)))
    }

    /// Re-admits a handle issued before a restart: when it is a rebuild
    /// candidate ([`rebuild_target`]) and the caller found a path under an
    /// export (`found`: the path and that export's root) whose FNV-1a hash is
    /// the handle's stored inode, records the path under the handle's ID;
    /// otherwise changes nothing.
    pub fn try_rebuild_fh(&mut self, handle: &[u8], found: &Option<(Vec<u8>, Vec<u8>)>)
        requires
            old(self).wf(),
        ensures
            final(self).wf(),
            final(self).exports == old(self).exports,
            final(self).fh_hmac_key == old(self).fh_hmac_key,
            final(self).config == old(self).config,
            match (rebuild_target(*old(self), handle@), found) {
                (Some((fhid, inode)), Some((p, root))) => if fnv1a(p@) == inode {
                    &&& final(self).handle_list() == old(self).handle_list().push(FhView {
                        fhid,
                        real_path: p@,
                        export_root: root@,
                        inode,
                        gen: 1,
                    })
                    &&& final(self).fh_counter == (if fhid >= old(self).fh_counter { (fhid + 1) as u64 } else { old(self).fh_counter })
                } else {
                    final(self).handles == old(self).handles && final(self).fh_counter == old(self).fh_counter
                },
                _ => final(self).handles == old(self).handles && final(self).fh_counter == old(self).fh_counter,
            },
    {
        match self.rebuild_candidate(handle) {
            None => {},
            Some((fhid, inode)) => match found {
                None => {},
                Some((p, root)) => {
                    if fnv1a_of(p.as_slice()) == inode {
                        self.complete_rebuild(fhid, p.as_slice(), root.as_slice(), inode);
                    }
                },
            },
        }
    }

    /// Records a rebuilt handle: an entry for `fhid` with generation 1, and
    /// the counter moved past `fhid` so later IDs do not collide.
    fn complete_rebuild(&mut self, fhid: u64, found_path: &[u8], export_root: &[u8], inode: u64)
        requires
            old(self).wf(),
            inode == fnv1a(found_path@),
            fhid != 0,
            fhid != u64::MAX,
            index_by_fhid(old(self).handle_list(), fhid) is None,
        ensures
            final(self).wf(),
            final(self).exports == old(self).exports,
            final(self).fh_hmac_key == old(self).fh_hmac_key,
            final(self).config == old(self).config,
            final(self).handle_list() == old(self).handle_list().push(FhView {
                fhid,
                real_path: found_path@,
                export_root: export_root@,
                inode,
                gen: 1,
            }),
            final(self).fh_counter == (if fhid >= old(self).fh_counter { (fhid + 1) as u64 } else { old(self).fh_counter }),
    {
        if fhid >= self.fh_counter {
            self.fh_counter = fhid + 1;
        }
        let entry = FhEntry {
            fhid,
            real_path: copy_range(found_path, 0, found_path.len()),
            export_root: copy_range(export_root, 0, export_root.len()),
            inode,
            gen: 1,
        };
        proof {
            assert(found_path@.subrange(0, found_path@.len() as int) =~= found_path@);
            assert(export_root@.subrange(0, export_root@.len() as int) =~= export_root@);
        }
        self.handles.push(entry);
        let ghost v = FhView { fhid, real_path: found_path@, export_root: export_root@, inode, gen: 1 };
        assert(self.handle_list() =~= old(self).handle_list().push(v));
        proof {
            lemma_first_index_none(old(self).handle_list(), |h: FhView| h.fhid == fhid);
            lemma_push_ids_ok(old(self).handle_list(), old(self).fh_counter, v, self.fh_counter);
        }
    }
}

/// The handle `get_or_create_fh` returns for `p`.
pub open spec fn handle_for_path(m: ExportsManager, p: Seq<u8>, salt: u32) -> Seq<u8> {
    match index_by_path(m.handle_list(), p) {
        Some(i) => handle_bytes(m.fh_hmac_key@, m.handle_list()[i].fhid, m.handle_list()[i].inode,
            m.handle_list()[i].gen, salt),
        None => handle_bytes(m.fh_hmac_key@, m.fh_counter, fnv1a(p), 1, salt),
    }
}

/// The handle entries after `get_or_create_fh` for `p` under `root`: a new
/// entry only when `p` had none.
pub open spec fn handles_after_path(m: ExportsManager, p: Seq<u8>, root: Seq<u8>) -> Seq<FhView> {
    match index_by_path(m.handle_list(), p) {
        Some(i) => m.handle_list(),
        None => m.handle_list().push(FhView { fhid: m.fh_counter, real_path: p, export_root: root, inode: fnv1a(p), gen: 1 }),
    }
}

/// The handle counter after `get_or_create_fh` for `p`.
pub open spec fn counter_after_path(m: ExportsManager, p: Seq<u8>) -> u64 {
    match index_by_path(m.handle_list(), p) {
        Some(i) => m.fh_counter,
        None => (m.fh_counter + 1) as u64,
    }
}

/// The entry whose ID, inode and generation the handle for `p` carries after
/// `get_or_create_fh(p, root)`: the newest entry for `p`, or the new one.
pub open spec fn path_entry_after(m: ExportsManager, p: Seq<u8>, root: Seq<u8>) -> FhView {
    match index_by_path(m.handle_list(), p) {
        Some(i) => m.handle_list()[i],
        None => FhView { fhid: m.fh_counter, real_path: p, export_root: root, inode: fnv1a(p), gen: 1 },
    }
}

/// Asking twice for the handle of one path: the second `get_or_create_fh`,
/// whatever export root and salt it is given, changes neither the entries
/// nor the counter, and both handles carry the ID, inode and generation of
/// the entry the first call found or made.
pub proof fn lemma_second_request_same_entry(
    m: ExportsManager,
    m2: ExportsManager,
    p: Seq<u8>,
    root1: Seq<u8>,
    root2: Seq<u8>,
    salt1: u32,
    salt2: u32,
)
    requires
        m2.handle_list() == handles_after_path(m, p, root1),
        m2.fh_counter == counter_after_path(m, p),
        m2.fh_hmac_key == m.fh_hmac_key,
    ensures
        handles_after_path(m2, p, root2) == m2.handle_list(),
        counter_after_path(m2, p) == m2.fh_counter,
        path_entry_after(m2, p, root2) == path_entry_after(m, p, root1),
        handle_for_path(m, p, salt1) == handle_bytes(m.fh_hmac_key@, path_entry_after(m, p, root1).fhid,
            path_entry_after(m, p, root1).inode, path_entry_after(m, p, root1).gen, salt1),
        handle_for_path(m2, p, salt2) == handle_bytes(m.fh_hmac_key@, path_entry_after(m, p, root1).fhid,
            path_entry_after(m, p, root1).inode, path_entry_after(m, p, root1).gen, salt2),
        handle_for_path(m2, p, salt2).subrange(0, 20) == handle_for_path(m, p, salt1).subrange(0, 20),
        handle_for_path(m2, p, salt2).subrange(0, 20) == handle_prefix(path_entry_after(m, p, root1)),
{
    lemma_handle_prefix(m.fh_hmac_key@, path_entry_after(m, p, root1), salt1);
    lemma_handle_prefix(m.fh_hmac_key@, path_entry_after(m, p, root1), salt2);
    let hs = m.handle_list();
    let f = |h: FhView| h.real_path == p;
    if index_by_path(hs, p) is None {
        let hs2 = m2.handle_list();
        assert(hs2.last().real_path == p);
        lemma_last_index(hs2, f, hs2.len() as int);
        assert(index_by_path(hs2, p) == Some(hs2.len() - 1));
    }
}

/// What the handle table of a well-formed manager guarantees, and so what
/// holds after every call that keeps it well formed (each call that changes
/// the table does): every ID lies between 1 and the counter, the entry found
/// for a path is an entry of that path, the entry found for an ID carries
/// that ID, and each entry's inode is its path's FNV-1a hash.
pub proof fn lemma_handle_table(m: ExportsManager)
    requires
        m.wf(),
    ensures
        forall|i: int| 0 <= i < m.handle_list().len()
            ==> 1 <= #[trigger] m.handle_list()[i].fhid < m.fh_counter,
        forall|i: int| 0 <= i < m.handle_list().len()
            ==> #[trigger] m.handle_list()[i].inode == fnv1a(m.handle_list()[i].real_path),
        forall|p: Seq<u8>| #[trigger] index_by_path(m.handle_list(), p) is Some
            ==> 0 <= index_by_path(m.handle_list(), p)->0 < m.handle_list().len()
                && m.handle_list()[index_by_path(m.handle_list(), p)->0].real_path == p,
        forall|f: u64| #[trigger] index_by_fhid(m.handle_list(), f) is Some
            ==> 0 <= index_by_fhid(m.handle_list(), f)->0 < m.handle_list().len()
                && m.handle_list()[index_by_fhid(m.handle_list(), f)->0].fhid == f,
{
    let hs = m.handle_list();
    assert forall|p: Seq<u8>| #[trigger] index_by_path(hs, p) is Some
        implies 0 <= index_by_path(hs, p)->0 < hs.len() && hs[index_by_path(hs, p)->0].real_path == p by {
        lemma_last_index(hs, |h: FhView| h.real_path == p, hs.len() as int);
    }
    assert forall|f: u64| #[trigger] index_by_fhid(hs, f) is Some
        implies 0 <= index_by_fhid(hs, f)->0 < hs.len() && hs[index_by_fhid(hs, f)->0].fhid == f by {
        lemma_first_index(hs, |h: FhView| h.fhid == f, 0);
    }
}

/// An export whose allowed networks are all single hosts admits exactly
/// the clients whose address is one of those hosts.
pub proof fn lemma_host_entries_admit_only_hosts(m: ExportsManager, ip: ClientAddr, path: Seq<u8>)
    requires
        resolve_index(m.export_list(), path) is Some,
        forall|k: int| 0 <= k < m.export_list()[resolve_index(m.export_list(), path)->0].clients.len()
            ==> (#[trigger] m.export_list()[resolve_index(m.export_list(), path)->0].clients[k]).prefix_len
                == family_bits(m.export_list()[resolve_index(m.export_list(), path)->0].clients[k].is_v6),
    ensures
        m.spec_client_allowed(ip, path) <==> exists|k: int|
            0 <= k < m.export_list()[resolve_index(m.export_list(), path)->0].clients.len()
            && (#[trigger] m.export_list()[resolve_index(m.export_list(), path)->0].clients[k]).is_v6 == ip.is_v6
            && m.export_list()[resolve_index(m.export_list(), path)->0].clients[k].addr == ip.addr,
{
    let cs = m.export_list()[resolve_index(m.export_list(), path)->0].clients;
    assert forall|k: int| 0 <= k < cs.len() implies (net_contains(#[trigger] cs[k], ip)
        <==> cs[k].is_v6 == ip.is_v6 && cs[k].addr == ip.addr) by {
        lemma_net_contains_bounds(cs[k], ip);
    }
}

/// Whether `create_file_handle` for a mount path issues a new handle ID:
/// the path selects no export, or the export's path has no entry yet.
pub open spec fn create_issues_id(m: ExportsManager, p: Seq<u8>) -> bool {
    match resolve_index(m.export_list(), p) {
        Some(i) => index_by_path(m.handle_list(), m.export_list()[i].path) is None,
        None => true,
    }
}

/// The handle `create_file_handle` returns for a mount path.
pub open spec fn created_handle(m: ExportsManager, p: Seq<u8>, salt: u32) -> Seq<u8> {
    match resolve_index(m.export_list(), p) {
        Some(i) => handle_for_path(m, m.export_list()[i].path, salt),
        None => handle_bytes(m.fh_hmac_key@, m.fh_counter, fnv1a(p), 1, salt),
    }
}

/// The handle entries after `create_file_handle` for a mount path.
pub open spec fn handles_after_create(m: ExportsManager, p: Seq<u8>) -> Seq<FhView> {
    match resolve_index(m.export_list(), p) {
        Some(i) => handles_after_path(m, m.export_list()[i].path, m.export_list()[i].path),
        None => m.handle_list(),
    }
}

/// The handle counter after `create_file_handle` for a mount path.
pub open spec fn counter_after_create(m: ExportsManager, p: Seq<u8>) -> u64 {
    match resolve_index(m.export_list(), p) {
        Some(i) => counter_after_path(m, m.export_list()[i].path),
        None => (m.fh_counter + 1) as u64,
    }
}

/// The exports after adding `e`: it replaces the export with the same path,
/// or goes last.
pub open spec fn insert_export(ex: Seq<ExportView>, e: ExportView) -> Seq<ExportView> {
    match first_index(ex, path_rule(e.path)) {
        Some(i) => ex.update(i, e),
        None => ex.push(e),
    }
}

/// The active exports built from configuration entries, keeping those
/// marked usable (an existing directory), in order.
pub open spec fn exports_from(entries: Seq<ExportEntry>, usable: Seq<bool>) -> Seq<ExportView>
    decreases entries.len(),
{
    if entries.len() == 0 {
        Seq::empty()
    } else {
        let prev = exports_from(entries.drop_last(), usable.drop_last());
        if usable[entries.len() - 1] {
            insert_export(prev, export_of(entries.last()))
        } else {
            prev
        }
    }
}

/// Whether `name` is a single path component: not empty, not `.` or `..`,
/// and free of `/` and `\`.
pub open spec fn safe_name(name: Seq<u8>) -> bool {
    name.len() > 0 && name != seq![0x2eu8] && name != seq![0x2eu8, 0x2eu8] && !name.contains(0x2f)
        && !name.contains(0x5c)
}

/// Computes whether `name` is a single safe path component.
pub fn is_safe_name(name: &[u8]) -> (r: bool)
    ensures
        r == safe_name(name@),
{
    if name.len() == 0 {
        return false;
    }
    if name.len() == 1 && name[0] == 0x2e {
        assert(name@ =~= seq![0x2eu8]);
        return false;
    }
    if name.len() == 2 && name[0] == 0x2e && name[1] == 0x2e {
        assert(name@ =~= seq![0x2eu8, 0x2eu8]);
        return false;
    }
    !crate::paths::contains_byte(name, 0x2f) && !crate::paths::contains_byte(name, 0x5c)
}

impl ExportsManager {
    /// The trivial synchronous reload: nothing to do.
    pub fn reload_exports(&self) -> (r: Result<(), ()>)
        ensures
            r is Ok,
    {
        Ok(())
    }

    /// Rebuilds the active exports from the configuration, keeping the
    /// entries whose directory exists (`usable[i]`).
    pub fn reload_exports_async(&mut self, usable: &[bool])
        requires
            old(self).wf(),
            usable@.len() == old(self).config.exports.entries@.len(),
        ensures
            final(self).wf(),
            final(self).export_list() == exports_from(old(self).config.exports.entries@, usable@),
            final(self).handles == old(self).handles,
            final(self).fh_counter == old(self).fh_counter,
            final(self).fh_hmac_key == old(self).fh_hmac_key,
            final(self).config == old(self).config,
    {
        let mut new_exports: Vec<Export> = Vec::new();
        let n = self.config.exports.entries.len();
        let mut i: usize = 0;
        while i < n
            invariant
                i <= n,
                n == self.config.exports.entries@.len(),
                usable@.len() == n,
                export_views(new_exports@) == exports_from(
                    self.config.exports.entries@.subrange(0, i as int),
                    usable@.subrange(0, i as int),
                ),
                forall|k: int| 0 <= k < new_exports@.len() ==> export_wf(#[trigger] new_exports@[k]@),
            decreases n - i,
        {
            let ghost prev = export_views(new_exports@);
            if usable[i] {
                let e = parse_export_entry(&self.config.exports.entries[i]);
                let found = find_export_by_path(&new_exports, e.path.as_slice());
                match found {
                    Some(k) => {
                        new_exports.set(k, e);
                    }
                    None => {
                        new_exports.push(e);
                    }
                }
                assert(export_views(new_exports@) =~= insert_export(prev, export_of(self.config.exports.entries@[i as int])));
            }
            proof {
                let es = self.config.exports.entries@.subrange(0, i + 1);
                let us = usable@.subrange(0, i + 1);
                assert(es.drop_last() =~= self.config.exports.entries@.subrange(0, i as int));
                assert(us.drop_last() =~= usable@.subrange(0, i as int));
                assert(es.last() == self.config.exports.entries@[i as int]);
                assert(us[es.len() - 1] == usable@[i as int]);
                if !usable@[i as int] {
                    assert(export_views(new_exports@) =~= prev);
                }
            }
            i += 1;
        }
        proof {
            assert(self.config.exports.entries@.subrange(0, n as int) =~= self.config.exports.entries@);
            assert(usable@.subrange(0, n as int) =~= usable@);
        }
        self.exports = new_exports;
    }

    /// The path a LOOKUP of `name` in the directory `dir_fh` names, with the
    /// export root it must stay inside (the handle's recorded root, or the
    /// directory itself when none is recorded); `None` for an unsafe name or
    /// an unknown directory handle.
    pub fn lookup_child_target(&self, dir_fh: &[u8], name: &[u8]) -> (r: Option<(Vec<u8>, Vec<u8>)>)
        ensures
            !safe_name(name@) ==> r is None,
            safe_name(name@) ==> match fh_path(self.fh_hmac_key@, self.handle_list(), dir_fh@) {
                None => r is None,
                Some(dir) => r matches Some((child, root)) && child@ == crate::paths::join(dir, name@)
                    && root@ == (match fh_root(self.fh_hmac_key@, self.handle_list(), dir_fh@) {
                        Some(x) => x,
                        None => dir,
                    }),
            },
    {
        if !is_safe_name(name) {
            return None;
        }
        let dir_path = match self.resolve_fh(dir_fh) {
            Some(d) => d,
            None => return None,
        };
        let child = crate::paths::join_path(dir_path.as_slice(), name);
        let root = match self.get_fh_export_root(dir_fh) {
            Some(r) => r,
            None => dir_path,
        };
        Some((child, root))
    }
}

/// What the search for a path with a given inode does at one path.
#[derive(PartialEq, Eq, Structural, Clone, Copy, Debug)]
pub enum InodeWalk {
    /// The path has the inode searched for.
    Found,
    /// The depth limit is reached: do not look inside.
    Stop,
    /// Look at the directory's entries.
    Descend,
}

/// One step of the search for the path whose inode is `target`, at `path`,
/// `depth` levels below the export root: found when the path's inode
/// matches, else stop at `max_depth`, else look inside.
pub fn inode_walk_step(path: &[u8], target: u64, depth: usize, max_depth: usize) -> (r: InodeWalk)
    ensures
        r == (if fnv1a(path@) == target {
            InodeWalk::Found
        } else if depth >= max_depth {
            InodeWalk::Stop
        } else {
            InodeWalk::Descend
        }),
{
    if fnv1a_of(path) == target {
        InodeWalk::Found
    } else if depth >= max_depth {
        InodeWalk::Stop
    } else {
        InodeWalk::Descend
    }
}

/// Whether a looked-up child may be handed out: when it exists, its
/// resolved path (`cc`, `None` when it could not be resolved) must lie
/// component by component under the resolved export root `cr`; when it does
/// not exist yet, its path must begin with the export root.
pub open spec fn child_allowed(child: Seq<u8>, root: Seq<u8>, exists: bool, cc: Option<Vec<u8>>, cr: Seq<u8>) -> bool {
    if exists {
        cc matches Some(c) && crate::paths::within(c@, cr)
    } else {
        crate::paths::starts_with(child, root)
    }
}

impl ExportsManager {
    /// LOOKUP of a name in a directory, second half (the first is
    /// [`Self::lookup_child_target`]): after the caller has checked whether
    /// the child exists and where it really lies, the child's handle and
    /// path when it stays inside the export ([`child_allowed`]); `None`
    /// when it would escape.
    pub fn lookup_child(
        &mut self,
        child: &[u8],
        root: &[u8],
        exists: bool,
        canonical_child: &Option<Vec<u8>>,
        canonical_root: &[u8],
        salt: u32,
    ) -> (r: Option<(Vec<u8>, Vec<u8>)>)
        requires
            old(self).wf(),
            index_by_path(old(self).handle_list(), child@) is None ==> old(self).fh_counter < u64::MAX,
        ensures
            final(self).wf(),
            final(self).exports == old(self).exports,
            final(self).fh_hmac_key == old(self).fh_hmac_key,
            final(self).config == old(self).config,
            child_allowed(child@, root@, exists, *canonical_child, canonical_root@) ==> {
                &&& r matches Some((fh, p)) && fh@ == handle_for_path(*old(self), child@, salt) && p@ == child@
                    && fh_path(final(self).fh_hmac_key@, final(self).handle_list(), fh@) == Some(child@)
                &&& final(self).handle_list() == handles_after_path(*old(self), child@, root@)
                &&& final(self).fh_counter == counter_after_path(*old(self), child@)
            },
            !child_allowed(child@, root@, exists, *canonical_child, canonical_root@) ==> {
                &&& r is None
                &&& final(self).handles == old(self).handles
                &&& final(self).fh_counter == old(self).fh_counter
            },
    {
        let allowed = if exists {
            match canonical_child {
                Some(cc) => crate::paths::is_within(cc.as_slice(), canonical_root),
                None => false,
            }
        } else {
            crate::paths::has_prefix(child, root)
        };
        if !allowed {
            return None;
        }
        let fh = self.get_or_create_fh(child, root, salt);
        let p = copy_range(child, 0, child.len());
        assert(child@.subrange(0, child@.len() as int) =~= child@);
        Some((fh, p))
    }
}

/// Position of the first export whose path is `p`.
pub fn find_export_by_path(ex: &Vec<Export>, p: &[u8]) -> (r: Option<usize>)
    ensures
        r matches Some(i) ==> first_index(export_views(ex@), path_rule(p@)) == Some(i as int) && i < ex@.len(),
        r is None <==> first_index(export_views(ex@), path_rule(p@)) is None,
{
    let ghost v = export_views(ex@);
    let mut j: usize = 0;
    while j < ex.len()
        invariant
            j <= ex@.len(),
            v == export_views(ex@),
            forall|k: int| 0 <= k < j ==> !path_rule(p@)(#[trigger] v[k]),
        decreases ex@.len() - j,
    {
        assert(v[j as int] == ex@[j as int]@);
        if bytes_eq(ex[j].path.as_slice(), p) {
            proof { lemma_first_index(v, path_rule(p@), j as int); }
            return Some(j);
        }
        j += 1;
    }
    proof { lemma_first_index(v, path_rule(p@), j as int); }
    None
}

/// Whether every byte of `h` is zero.
pub fn is_all_zero(h: &[u8]) -> (r: bool)
    ensures
        r == all_zero(h@),
{
    let mut i: usize = 0;
    while i < h.len()
        invariant
            i <= h@.len(),
            forall|k: int| 0 <= k < i ==> h@[k] == 0,
        decreases h@.len() - i,
    {
        if h[i] != 0 {
            return false;
        }
        i += 1;
    }
    true
}

/// The aliases of the exports that have one, in order.
pub open spec fn alias_list(ex: Seq<ExportView>) -> Seq<Seq<u8>>
    decreases ex.len(),
{
    if ex.len() == 0 {
        Seq::empty()
    } else {
        match ex.last().alias {
            Some(a) => alias_list(ex.drop_last()).push(a),
            None => alias_list(ex.drop_last()),
        }
    }
}

} // verus!
