//! NFSv4 server state: clients, client owners, sessions, open files and
//! byte-range locks, with the operations that read and change them.
//!
//! Time enters as milliseconds since the epoch, handed in by the
//! caller; entropy for verifiers enters as a seed.

use vstd::prelude::*;
use vstd::string::StringSliceAdditionalSpecFns;
use crate::exports::{clone_bytes, first_index, lemma_first_index, xorshift_bytes, xorshift_fill, lemma_xorshift_bytes_len};
use crate::nfs4_consts::{
    LEASE_TIMEOUT_SECS, NFS4ERR_BADSESSION, NFS4ERR_BADXDR, NFS4ERR_CLID_INUSE, NFS4ERR_DENIED,
    NFS4ERR_NOFILEHANDLE, NFS4ERR_STALE_CLIENTID, NFS4_OK, READW_LT, READ_LT, WRITEW_LT, WRITE_LT,
};
use crate::nfs4_ops::{fail, failed, ok, succeeded, OpOutcome};
use crate::rpc::{clamp, MAX_XDR_OPAQUE};
use crate::xdr::{
    be32, be64, bytes_eq, copy_range, get_u32, get_u64, opaque_bytes, opaque_data, opaque_end,
    opaque_fits, put_bytes, put_opaque, put_u32, put_u64, put_zeros, read_opaque, skip_opaque,
    u32_bytes, u64_bytes, zeros,
};

verus! {

/// How long a session or client may stay idle before it expires, in
/// milliseconds.
pub const LEASE_TIMEOUT_MS: u64 = 300000;

/// Whether something last used at `last` (ms) has expired at `now` (ms).
pub open spec fn expired(last: u64, now: u64) -> bool {
    now > last + LEASE_TIMEOUT_MS
}

/// Computes [`expired`].
pub fn is_expired(last: u64, now: u64) -> (r: bool)
    ensures
        r == expired(last, now),
{
    now > last && now - last > LEASE_TIMEOUT_MS
}

/// A client known to the server.
pub struct ClientRecord {
    pub client_id: u64,
    pub verifier: Vec<u8>,
    pub id_string: Vec<u8>,
    pub callback_program: u32,
    pub confirmed: bool,
    pub confirm_verifier: Vec<u8>,
    pub sequence: u32,
    pub last_used: u64,
}

/// The value of a client record.
pub struct ClientView {
    pub client_id: u64,
    pub verifier: Seq<u8>,
    pub id_string: Seq<u8>,
    pub callback_program: u32,
    pub confirmed: bool,
    pub confirm_verifier: Seq<u8>,
    pub sequence: u32,
    pub last_used: u64,
}

impl View for ClientRecord {
    type V = ClientView;

    open spec fn view(&self) -> ClientView {
        ClientView {
            client_id: self.client_id,
            verifier: self.verifier@,
            id_string: self.id_string@,
            callback_program: self.callback_program,
            confirmed: self.confirmed,
            confirm_verifier: self.confirm_verifier@,
            sequence: self.sequence,
            last_used: self.last_used,
        }
    }
}

/// A copy of a client record.
pub fn clone_client(c: &ClientRecord) -> (r: ClientRecord)
    ensures
        r@ == c@,
{
    ClientRecord {
        client_id: c.client_id,
        verifier: clone_bytes(&c.verifier),
        id_string: clone_bytes(&c.id_string),
        callback_program: c.callback_program,
        confirmed: c.confirmed,
        confirm_verifier: clone_bytes(&c.confirm_verifier),
        sequence: c.sequence,
        last_used: c.last_used,
    }
}

/// An NFSv4.1 session.
pub struct SessionRecord {
    pub session_id: Vec<u8>,
    pub client_id: u64,
    pub sequence: u32,
    pub highest_slot: u32,
    pub fore_max_ops: u32,
    pub fore_max_reqs: u32,
    pub last_used: u64,
}

/// The value of a session record.
pub struct SessionView {
    pub session_id: Seq<u8>,
    pub client_id: u64,
    pub sequence: u32,
    pub highest_slot: u32,
    pub fore_max_ops: u32,
    pub fore_max_reqs: u32,
    pub last_used: u64,
}

impl View for SessionRecord {
    type V = SessionView;

    open spec fn view(&self) -> SessionView {
        SessionView {
            session_id: self.session_id@,
            client_id: self.client_id,
            sequence: self.sequence,
            highest_slot: self.highest_slot,
            fore_max_ops: self.fore_max_ops,
            fore_max_reqs: self.fore_max_reqs,
            last_used: self.last_used,
        }
    }
}

/// A copy of a session record.
pub fn clone_session(s: &SessionRecord) -> (r: SessionRecord)
    ensures
        r@ == s@,
{
    SessionRecord {
        session_id: clone_bytes(&s.session_id),
        client_id: s.client_id,
        sequence: s.sequence,
        highest_slot: s.highest_slot,
        fore_max_ops: s.fore_max_ops,
        fore_max_reqs: s.fore_max_reqs,
        last_used: s.last_used,
    }
}

/// A client owner string and the client ID it was given.
pub struct OwnerEntry {
    pub owner: Vec<u8>,
    pub client_id: u64,
}

/// The value of an owner entry.
pub struct OwnerView {
    pub owner: Seq<u8>,
    pub client_id: u64,
}

impl View for OwnerEntry {
    type V = OwnerView;

    open spec fn view(&self) -> OwnerView {
        OwnerView { owner: self.owner@, client_id: self.client_id }
    }
}

/// A file opened by OPEN, under its stateid number.
pub struct OpenFile {
    pub stateid: u64,
    pub path: Vec<u8>,
}

/// The value of an open file.
pub struct OpenView {
    pub stateid: u64,
    pub path: Seq<u8>,
}

impl View for OpenFile {
    type V = OpenView;

    open spec fn view(&self) -> OpenView {
        OpenView { stateid: self.stateid, path: self.path@ }
    }
}

/// A byte-range lock, filed under the stateid number it was taken through.
pub struct FileLock {
    pub file: u64,
    pub offset: u64,
    pub length: u64,
    pub lock_type: u32,
    pub lock_owner: Vec<u8>,
    pub client_id: u64,
    pub lock_id: u64,
}

/// The value of a byte-range lock.
pub struct LockView {
    pub file: u64,
    pub offset: u64,
    pub length: u64,
    pub lock_type: u32,
    pub lock_owner: Seq<u8>,
    pub client_id: u64,
    pub lock_id: u64,
}

impl View for FileLock {
    type V = LockView;

    open spec fn view(&self) -> LockView {
        LockView {
            file: self.file,
            offset: self.offset,
            length: self.length,
            lock_type: self.lock_type,
            lock_owner: self.lock_owner@,
            client_id: self.client_id,
            lock_id: self.lock_id,
        }
    }
}

/// A copy of a lock.
pub fn clone_lock(l: &FileLock) -> (r: FileLock)
    ensures
        r@ == l@,
{
    FileLock {
        file: l.file,
        offset: l.offset,
        length: l.length,
        lock_type: l.lock_type,
        lock_owner: clone_bytes(&l.lock_owner),
        client_id: l.client_id,
        lock_id: l.lock_id,
    }
}

/// Everything the NFSv4 service remembers between requests. Each table is
/// keyed (client ID, owner string, session ID, stateid number): a lookup
/// takes the first entry with the key, and an insertion replaces that
/// entry or appends a new one, so no key occurs twice.
pub struct Nfs4Server {
    pub clients: Vec<ClientRecord>,
    pub owners: Vec<OwnerEntry>,
    pub client_counter: u64,
    pub open_files: Vec<OpenFile>,
    pub open_counter: u64,
    pub writeverf: Vec<u8>,
    pub locks: Vec<FileLock>,
    pub lock_counter: u64,
    pub sessions: Vec<SessionRecord>,
}

/// The values of a sequence of clients.
pub open spec fn client_views(cs: Seq<ClientRecord>) -> Seq<ClientView> {
    cs.map_values(|c: ClientRecord| c@)
}

/// The values of a sequence of sessions.
pub open spec fn session_views(ss: Seq<SessionRecord>) -> Seq<SessionView> {
    ss.map_values(|s: SessionRecord| s@)
}

/// The values of a sequence of owner entries.
pub open spec fn owner_views(os: Seq<OwnerEntry>) -> Seq<OwnerView> {
    os.map_values(|o: OwnerEntry| o@)
}

/// The values of a sequence of open files.
pub open spec fn open_views(fs: Seq<OpenFile>) -> Seq<OpenView> {
    fs.map_values(|f: OpenFile| f@)
}

/// The values of a sequence of locks.
pub open spec fn lock_views(ls: Seq<FileLock>) -> Seq<LockView> {
    ls.map_values(|l: FileLock| l@)
}

/// Position of the client with ID `id`.
pub open spec fn client_index(cs: Seq<ClientView>, id: u64) -> Option<int> {
    first_index(cs, |c: ClientView| c.client_id == id)
}

/// Position of the session with ID `sid`.
pub open spec fn session_index(ss: Seq<SessionView>, sid: Seq<u8>) -> Option<int> {
    first_index(ss, |s: SessionView| s.session_id == sid)
}

/// Position of the owner entry for `owner`.
pub open spec fn owner_index(os: Seq<OwnerView>, owner: Seq<u8>) -> Option<int> {
    first_index(os, |o: OwnerView| o.owner == owner)
}

/// The client table after recording `c` under its ID.
pub open spec fn clients_put(cs: Seq<ClientView>, c: ClientView) -> Seq<ClientView> {
    match client_index(cs, c.client_id) {
        Some(i) => cs.update(i, c),
        None => cs.push(c),
    }
}

/// The session table after recording `s` under its ID.
pub open spec fn sessions_put(ss: Seq<SessionView>, s: SessionView) -> Seq<SessionView> {
    match session_index(ss, s.session_id) {
        Some(i) => ss.update(i, s),
        None => ss.push(s),
    }
}

impl Nfs4Server {
    pub open spec fn client_list(&self) -> Seq<ClientView> {
        client_views(self.clients@)
    }

    pub open spec fn session_list(&self) -> Seq<SessionView> {
        session_views(self.sessions@)
    }

    pub open spec fn owner_list(&self) -> Seq<OwnerView> {
        owner_views(self.owners@)
    }

    pub open spec fn open_list(&self) -> Seq<OpenView> {
        open_views(self.open_files@)
    }

    pub open spec fn lock_list(&self) -> Seq<LockView> {
        lock_views(self.locks@)
    }

    /// The write verifier is eight bytes.
    pub open spec fn wf(&self) -> bool {
        self.writeverf@.len() == 8
    }

    /// No counter has reached its last value.
    pub open spec fn counters_ok(&self) -> bool {
        &&& self.client_counter < u64::MAX
        &&& self.open_counter < u64::MAX
        &&& self.lock_counter < u64::MAX
    }

    /// Empty tables, counters at 1, and the write verifier drawn from `seed`
    /// (the clock's nanoseconds XOR the process ID).
    pub fn new(seed: u64) -> (r: Self)
        ensures
            r.wf(),
            r.clients@.len() == 0,
            r.owners@.len() == 0,
            r.open_files@.len() == 0,
            r.locks@.len() == 0,
            r.sessions@.len() == 0,
            r.client_counter == 1,
            r.open_counter == 1,
            r.lock_counter == 1,
            r.writeverf@ == xorshift_bytes(seed, 8),
    {
        proof { lemma_xorshift_bytes_len(seed, 8); }
        Nfs4Server {
            clients: Vec::new(),
            owners: Vec::new(),
            client_counter: 1,
            open_files: Vec::new(),
            open_counter: 1,
            writeverf: xorshift_fill(seed, 8),
            locks: Vec::new(),
            lock_counter: 1,
            sessions: Vec::new(),
        }
    }

    /// Position of the client with ID `id`.
    pub fn find_client(&self, id: u64) -> (r: Option<usize>)
        ensures
            r matches Some(i) ==> client_index(self.client_list(), id) == Some(i as int),
            r is None <==> client_index(self.client_list(), id) is None,
            r matches Some(i) ==> i < self.clients@.len(),
    {
        let ghost cs = self.client_list();
        let mut i: usize = 0;
        while i < self.clients.len()
            invariant
                i <= self.clients@.len(),
                cs == self.client_list(),
                cs.len() == self.clients@.len(),
                forall|k: int| 0 <= k < i ==> !(|c: ClientView| c.client_id == id)(#[trigger] cs[k]),
            decreases self.clients@.len() - i,
        {
            assert(cs[i as int] == self.clients@[i as int]@);
            if self.clients[i].client_id == id {
                proof { lemma_first_index(cs, |c: ClientView| c.client_id == id, i as int); }
                return Some(i);
            }
            i += 1;
        }
        proof { lemma_first_index(cs, |c: ClientView| c.client_id == id, i as int); }
        None
    }

    /// Position of the session with ID `sid`.
    pub fn find_session(&self, sid: &[u8]) -> (r: Option<usize>)
        ensures
            r matches Some(i) ==> session_index(self.session_list(), sid@) == Some(i as int),
            r is None <==> session_index(self.session_list(), sid@) is None,
            r matches Some(i) ==> i < self.sessions@.len(),
    {
        let ghost ss = self.session_list();
        let mut i: usize = 0;
        while i < self.sessions.len()
            invariant
                i <= self.sessions@.len(),
                ss == self.session_list(),
                ss.len() == self.sessions@.len(),
                forall|k: int| 0 <= k < i ==> !(|s: SessionView| s.session_id == sid@)(#[trigger] ss[k]),
            decreases self.sessions@.len() - i,
        {
            assert(ss[i as int] == self.sessions@[i as int]@);
            if bytes_eq(self.sessions[i].session_id.as_slice(), sid) {
                proof { lemma_first_index(ss, |s: SessionView| s.session_id == sid@, i as int); }
                return Some(i);
            }
            i += 1;
        }
        proof { lemma_first_index(ss, |s: SessionView| s.session_id == sid@, i as int); }
        None
    }

    /// Position of the owner entry for `owner`.
    pub fn find_owner(&self, owner: &[u8]) -> (r: Option<usize>)
        ensures
            r matches Some(i) ==> owner_index(self.owner_list(), owner@) == Some(i as int),
            r is None <==> owner_index(self.owner_list(), owner@) is None,
            r matches Some(i) ==> i < self.owners@.len(),
    {
        let ghost os = self.owner_list();
        let mut i: usize = 0;
        while i < self.owners.len()
            invariant
                i <= self.owners@.len(),
                os == self.owner_list(),
                os.len() == self.owners@.len(),
                forall|k: int| 0 <= k < i ==> !(|o: OwnerView| o.owner == owner@)(#[trigger] os[k]),
            decreases self.owners@.len() - i,
        {
            assert(os[i as int] == self.owners@[i as int]@);
            if bytes_eq(self.owners[i].owner.as_slice(), owner) {
                proof { lemma_first_index(os, |o: OwnerView| o.owner == owner@, i as int); }
                return Some(i);
            }
            i += 1;
        }
        proof { lemma_first_index(os, |o: OwnerView| o.owner == owner@, i as int); }
        None
    }

    /// Records `c` under its client ID, replacing the entry that has it.
    pub fn put_client(&mut self, c: ClientRecord)
        ensures
            final(self).client_list() == clients_put(old(self).client_list(), c@),
            final(self).owners == old(self).owners,
            final(self).sessions == old(self).sessions,
            final(self).open_files == old(self).open_files,
            final(self).locks == old(self).locks,
            final(self).writeverf == old(self).writeverf,
            final(self).client_counter == old(self).client_counter,
            final(self).open_counter == old(self).open_counter,
            final(self).lock_counter == old(self).lock_counter,
    {
        let ghost c_view = c@;
        match self.find_client(c.client_id) {
            Some(i) => {
                self.clients.set(i, c);
                assert(self.client_list() =~= old(self).client_list().update(i as int, c_view));
            }
            None => {
                self.clients.push(c);
                assert(self.client_list() =~= old(self).client_list().push(c_view));
            }
        }
    }

    /// Records `s` under its session ID, replacing the entry that has it.
    pub fn put_session(&mut self, s: SessionRecord)
        ensures
            final(self).session_list() == sessions_put(old(self).session_list(), s@),
            final(self).clients == old(self).clients,
            final(self).owners == old(self).owners,
            final(self).open_files == old(self).open_files,
            final(self).locks == old(self).locks,
            final(self).writeverf == old(self).writeverf,
            final(self).client_counter == old(self).client_counter,
            final(self).open_counter == old(self).open_counter,
            final(self).lock_counter == old(self).lock_counter,
    {
        let ghost s_view = s@;
        match self.find_session(s.session_id.as_slice()) {
            Some(i) => {
                self.sessions.set(i, s);
                assert(self.session_list() =~= old(self).session_list().update(i as int, s_view));
            }
            None => {
                self.sessions.push(s);
                assert(self.session_list() =~= old(self).session_list().push(s_view));
            }
        }
    }
}


/// A session's ID: the client ID in eight big-endian bytes, then
/// `00 00 00 00 00 00 00 01`.
pub open spec fn session_id_for(client_id: u64) -> Seq<u8> {
    u64_bytes(client_id) + seq![0u8, 0u8, 0u8, 0u8, 0u8, 0u8, 0u8, 1u8]
}

/// `x` capped at `hi`, then raised to at least `lo`.
pub open spec fn limit(x: u32, lo: u32, hi: u32) -> u32 {
    let m = if x < hi { x } else { hi };
    if m > lo { m } else { lo }
}

/// Computes [`limit`].
pub fn limit_of(x: u32, lo: u32, hi: u32) -> (r: u32)
    ensures
        r == limit(x, lo, hi),
{
    let m = if x < hi { x } else { hi };
    if m > lo { m } else { lo }
}

/// The `channel_attrs4` at `q`: the offset past it, and the requested
/// maximum request size, response size, operations and requests.
pub open spec fn channel_attrs(s: Seq<u8>, q: int) -> Option<(int, u32, u32, u32, u32)> {
    if q + 28 <= s.len() {
        Some((clamp(q + 28 + 4 * be32(s, q + 24)), be32(s, q + 4), be32(s, q + 8), be32(s, q + 16), be32(s, q + 20)))
    } else {
        None
    }
}

/// The end of `n` callback security parameters starting at `pos`; an entry
/// with a flavor other than AUTH_NONE or AUTH_SYS ends the list early.
pub open spec fn sec_parms_end(s: Seq<u8>, pos: int, n: nat) -> Option<int>
    decreases n,
{
    if n == 0 {
        Some(pos)
    } else if pos + 4 > s.len() {
        None
    } else if be32(s, pos) == 0 || be32(s, pos) == 1 {
        sec_parms_end(s, pos + 4, (n - 1) as nat)
    } else {
        Some(pos + 4)
    }
}

/// CREATE_SESSION's arguments at `p`: the client ID, the fore channel's
/// four limits and the offset past the arguments.
#[verifier::opaque]
pub open spec fn create_session_args(s: Seq<u8>, p: int) -> Option<(u64, u32, u32, u32, u32, int)> {
    if p + 16 > s.len() {
        None
    } else {
        match channel_attrs(s, p + 16) {
            None => None,
            Some((q, mreq, mresp, mops, mreqs)) => match channel_attrs(s, q) {
                None => None,
                Some((c, _a, _b, _c, _d)) => if c + 8 > s.len() {
                    None
                } else {
                    match sec_parms_end(s, c + 8, be32(s, c + 4) as nat) {
                        None => None,
                        Some(e) => Some((be64(s, p), mreq, mresp, mops, mreqs, e)),
                    }
                },
            },
        }
    }
}

/// A channel's attributes as CREATE_SESSION answers them.
pub open spec fn channel_reply(max_req: u32, max_resp: u32, max_ops: u32, max_reqs: u32) -> Seq<u8> {
    u32_bytes(0) + u32_bytes(max_req) + u32_bytes(max_resp) + u32_bytes(0) + u32_bytes(max_ops)
        + u32_bytes(max_reqs) + u32_bytes(0)
}

/// The CREATE_SESSION result: the session ID, sequence 1, no flags, the
/// negotiated fore channel and a minimal back channel.
pub open spec fn create_session_reply(cid: u64, mreq: u32, mresp: u32, mops: u32, mreqs: u32) -> Seq<u8> {
    session_id_for(cid) + u32_bytes(1) + u32_bytes(0)
        + channel_reply(limit(mreq, 4096, 1048576), limit(mresp, 4096, 1048576), limit(mops, 1, 100), limit(mreqs, 1, 64))
        + channel_reply(4096, 4096, 2, 1)
}

/// The session CREATE_SESSION records.
pub open spec fn created_session(cid: u64, mops: u32, mreqs: u32, now: u64) -> SessionView {
    SessionView {
        session_id: session_id_for(cid),
        client_id: cid,
        sequence: 1,
        highest_slot: (limit(mreqs, 1, 64) - 1) as u32,
        fore_max_ops: limit(mops, 1, 100),
        fore_max_reqs: limit(mreqs, 1, 64),
        last_used: now,
    }
}

/// Parses one `channel_attrs4`.
fn parse_channel_attrs(buf: &[u8], q: usize) -> (r: Option<(usize, u32, u32, u32, u32)>)
    ensures
        r matches Some((e, a, b, c, d)) ==> channel_attrs(buf@, q as int) == Some((e as int, a, b, c, d)),
        r is None <==> channel_attrs(buf@, q as int) is None,
{
    if q > buf.len() || buf.len() - q < 28 {
        return None;
    }
    let ird = get_u32(buf, q + 24) as u64;
    let end = crate::xdr::add_clamped(q + 28, 4 * ird);
    Some((end, get_u32(buf, q + 4), get_u32(buf, q + 8), get_u32(buf, q + 16), get_u32(buf, q + 20)))
}

/// Walks the callback security parameters.
fn parse_sec_parms(buf: &[u8], pos: usize, n: u32) -> (r: Option<usize>)
    ensures
        r matches Some(e) ==> sec_parms_end(buf@, pos as int, n as nat) == Some(e as int),
        r is None <==> sec_parms_end(buf@, pos as int, n as nat) is None,
        r matches Some(e) ==> e >= pos,
{
    let mut q = pos;
    let mut i: u32 = 0;
    while i < n
        invariant
            i <= n,
            sec_parms_end(buf@, pos as int, n as nat) == sec_parms_end(buf@, q as int, (n - i) as nat),
            q >= pos,
        decreases n - i,
    {
        if q > buf.len() || buf.len() - q < 4 {
            return None;
        }
        let flavor = get_u32(buf, q);
        q = q + 4;
        if flavor != 0 && flavor != 1 {
            return Some(q);
        }
        i += 1;
    }
    Some(q)
}

/// Parses CREATE_SESSION's arguments.
pub fn parse_create_session(buf: &[u8], p: usize) -> (r: Option<(u64, u32, u32, u32, u32, usize)>)
    ensures
        r matches Some((a, b, c, d, e, f)) ==> create_session_args(buf@, p as int) == Some((a, b, c, d, e, f as int)),
        r is None <==> create_session_args(buf@, p as int) is None,
        r matches Some((_a, _b, _c, _d, _e, f)) ==> f >= p,
{
    reveal(create_session_args);
    if p > buf.len() || buf.len() - p < 16 {
        return None;
    }
    let (q, mreq, mresp, mops, mreqs) = match parse_channel_attrs(buf, p + 16) {
        None => return None,
        Some(v) => v,
    };
    let c = match parse_channel_attrs(buf, q) {
        None => return None,
        Some(v) => v.0,
    };
    if c > buf.len() || buf.len() - c < 8 {
        return None;
    }
    let n = get_u32(buf, c + 4);
    match parse_sec_parms(buf, c + 8, n) {
        None => None,
        Some(e) => Some((get_u64(buf, p), mreq, mresp, mops, mreqs, e)),
    }
}

/// Appends a channel's attributes.
fn put_channel(out: &mut Vec<u8>, max_req: u32, max_resp: u32, max_ops: u32, max_reqs: u32)
    ensures
        final(out)@ == old(out)@ + channel_reply(max_req, max_resp, max_ops, max_reqs),
{
    put_u32(out, 0);
    put_u32(out, max_req);
    put_u32(out, max_resp);
    put_u32(out, 0);
    put_u32(out, max_ops);
    put_u32(out, max_reqs);
    put_u32(out, 0);
    assert(final(out)@ =~= old(out)@ + channel_reply(max_req, max_resp, max_ops, max_reqs));
}

/// Builds a session ID.
pub fn make_session_id(cid: u64) -> (r: Vec<u8>)
    ensures
        r@ == session_id_for(cid),
{
    let mut r: Vec<u8> = Vec::new();
    put_u64(&mut r, cid);
    put_u32(&mut r, 0);
    put_u32(&mut r, 1);
    proof {
        crate::xdr::lemma_u32_roundtrip(0);
        crate::xdr::lemma_u32_roundtrip(1);
        assert(u32_bytes(0) =~= seq![0u8, 0u8, 0u8, 0u8]);
        assert(u32_bytes(1) =~= seq![0u8, 0u8, 0u8, 1u8]);
    }
    assert(r@ =~= session_id_for(cid));
    r
}

/// Builds the CREATE_SESSION result.
fn build_create_session_reply(cid: u64, mreq: u32, mresp: u32, mops: u32, mreqs: u32) -> (r: Vec<u8>)
    ensures
        r@ == create_session_reply(cid, mreq, mresp, mops, mreqs),
{
    let sid = make_session_id(cid);
    let mut result: Vec<u8> = Vec::new();
    put_bytes(&mut result, sid.as_slice());
    put_u32(&mut result, 1);
    put_u32(&mut result, 0);
    put_channel(&mut result, limit_of(mreq, 4096, 1048576), limit_of(mresp, 4096, 1048576), limit_of(mops, 1, 100), limit_of(mreqs, 1, 64));
    put_channel(&mut result, 4096, 4096, 2, 1);
    assert(result@ =~= create_session_reply(cid, mreq, mresp, mops, mreqs));
    result
}

/// The SEQUENCE result: the session ID, the sequence and slot IDs, the
/// highest slot (twice, as highest and target) and no status flags.
pub open spec fn sequence_reply(sid: Seq<u8>, seq_id: u32, slot: u32, highest: u32) -> Seq<u8> {
    sid + u32_bytes(seq_id) + u32_bytes(slot) + u32_bytes(highest) + u32_bytes(highest) + u32_bytes(0)
}

/// The sessions other than `sid`.
pub open spec fn without_session(ss: Seq<SessionView>, sid: Seq<u8>) -> Seq<SessionView> {
    ss.filter(|s: SessionView| s.session_id != sid)
}

/// The sessions not belonging to client `cid`.
pub open spec fn without_client_sessions(ss: Seq<SessionView>, cid: u64) -> Seq<SessionView> {
    ss.filter(|s: SessionView| s.client_id != cid)
}

impl Nfs4Server {
    /// CREATE_SESSION: records a session for the client, its ID derived from
    /// the client ID and its fore channel limited to 4 KiB..1 MiB requests and
    /// responses, 1..100 operations and 1..64 requests.
    #[verifier::rlimit(40)]
    pub fn op_create_session(&mut self, request: &[u8], p: usize, now: u64) -> (r: OpOutcome)
        ensures
            final(self).clients == old(self).clients,
            final(self).owners == old(self).owners,
            final(self).open_files == old(self).open_files,
            final(self).locks == old(self).locks,
            final(self).writeverf == old(self).writeverf,
            final(self).client_counter == old(self).client_counter,
            final(self).open_counter == old(self).open_counter,
            final(self).lock_counter == old(self).lock_counter,
            match create_session_args(request@, p as int) {
                None => r@ == fail(0, NFS4ERR_BADXDR) && final(self).sessions == old(self).sessions,
                Some((cid, mreq, mresp, mops, mreqs, end)) => {
                    &&& r@ == ok(create_session_reply(cid, mreq, mresp, mops, mreqs), end - p, None, None)
                    &&& final(self).session_list() == sessions_put(old(self).session_list(), created_session(cid, mops, mreqs, now))
                },
            },
    {
        let (cid, mreq, mresp, mops, mreqs, end) = match parse_create_session(request, p) {
            None => return failed(0, NFS4ERR_BADXDR),
            Some(v) => v,
        };
        let max_req = limit_of(mreq, 4096, 1048576);
        let max_resp = limit_of(mresp, 4096, 1048576);
        let max_ops = limit_of(mops, 1, 100);
        let max_reqs = limit_of(mreqs, 1, 64);
        let sid = make_session_id(cid);
        let result = build_create_session_reply(cid, mreq, mresp, mops, mreqs);
        let rec = SessionRecord {
            session_id: sid,
            client_id: cid,
            sequence: 1,
            highest_slot: max_reqs - 1,
            fore_max_ops: max_ops,
            fore_max_reqs: max_reqs,
            last_used: now,
        };
        self.put_session(rec);
        succeeded(result, end - p, None, None)
    }

    /// SEQUENCE: for a known session whose stored sequence ID is not above the
    /// request's, records the sequence ID, the time and the larger highest
    /// slot, and echoes them; BADSESSION otherwise.
    pub fn op_sequence(&mut self, request: &[u8], p: usize, now: u64) -> (r: OpOutcome)
        ensures
            final(self).clients == old(self).clients,
            final(self).owners == old(self).owners,
            final(self).open_files == old(self).open_files,
            final(self).locks == old(self).locks,
            final(self).writeverf == old(self).writeverf,
            final(self).client_counter == old(self).client_counter,
            final(self).open_counter == old(self).open_counter,
            final(self).lock_counter == old(self).lock_counter,
            p + 32 > request@.len() ==> r@ == fail(32, NFS4ERR_BADXDR) && final(self).sessions == old(self).sessions,
            p + 32 <= request@.len() ==> ({
                let sid = request@.subrange(p as int, p + 16);
                let seq_id = be32(request@, p + 16);
                let slot = be32(request@, p + 20);
                let hs = be32(request@, p + 24);
                match session_index(old(self).session_list(), sid) {
                    None => r@ == fail(32, NFS4ERR_BADSESSION) && final(self).sessions == old(self).sessions,
                    Some(i) => {
                        let s = old(self).session_list()[i];
                        if seq_id < s.sequence {
                            r@ == fail(32, NFS4ERR_BADSESSION) && final(self).sessions == old(self).sessions
                        } else {
                            let h = if hs > s.highest_slot { hs } else { s.highest_slot };
                            &&& r@ == ok(sequence_reply(sid, seq_id, slot, h), 32, None, None)
                            &&& final(self).session_list() == old(self).session_list().update(i,
                                SessionView { sequence: seq_id, last_used: now, highest_slot: h, ..s })
                        }
                    },
                }
            }),
    {
        if p > request.len() || request.len() - p < 32 {
            return failed(32, NFS4ERR_BADXDR);
        }
        let sid = copy_range(request, p, 16);
        let seq_id = get_u32(request, p + 16);
        let slot = get_u32(request, p + 20);
        let hs = get_u32(request, p + 24);
        match self.find_session(sid.as_slice()) {
            None => failed(32, NFS4ERR_BADSESSION),
            Some(i) => {
                assert(self.session_list()[i as int] == self.sessions@[i as int]@);
                if seq_id < self.sessions[i].sequence {
                    return failed(32, NFS4ERR_BADSESSION);
                }
                let old_s = clone_session(&self.sessions[i]);
                let h = if hs > old_s.highest_slot { hs } else { old_s.highest_slot };
                let upd = SessionRecord { sequence: seq_id, last_used: now, highest_slot: h, ..old_s };
                let ghost upd_view = upd@;
                self.sessions.set(i, upd);
                assert(self.session_list() =~= old(self).session_list().update(i as int, upd_view));
                let mut result: Vec<u8> = Vec::new();
                put_bytes(&mut result, sid.as_slice());
                put_u32(&mut result, seq_id);
                put_u32(&mut result, slot);
                put_u32(&mut result, h);
                put_u32(&mut result, h);
                put_u32(&mut result, 0);
                assert(result@ =~= sequence_reply(sid@, seq_id, slot, h));
                succeeded(result, 32, None, None)
            }
        }
    }

    /// BIND_CONN_TO_SESSION: echoes the session ID, direction and RDMA flag
    /// of a known session; BADSESSION for an unknown one.
    pub fn op_bind_conn_to_session(&self, request: &[u8], p: usize) -> (r: OpOutcome)
        ensures
            r@ == (if p + 24 > request@.len() {
                fail(0, NFS4ERR_BADXDR)
            } else if session_index(self.session_list(), request@.subrange(p as int, p + 16)) is None {
                fail(24, NFS4ERR_BADSESSION)
            } else {
                ok(request@.subrange(p as int, p + 24), 24, None, None)
            }),
    {
        if p > request.len() || request.len() - p < 24 {
            return failed(0, NFS4ERR_BADXDR);
        }
        let sid = copy_range(request, p, 16);
        if self.find_session(sid.as_slice()).is_none() {
            return failed(24, NFS4ERR_BADSESSION);
        }
        succeeded(copy_range(request, p, 24), 24, None, None)
    }

    /// Drops the session with ID `sid`.
    pub fn remove_session(&mut self, sid: &[u8])
        ensures
            final(self).session_list() == without_session(old(self).session_list(), sid@),
            final(self).clients == old(self).clients,
            final(self).owners == old(self).owners,
            final(self).open_files == old(self).open_files,
            final(self).locks == old(self).locks,
            final(self).writeverf == old(self).writeverf,
            final(self).client_counter == old(self).client_counter,
            final(self).open_counter == old(self).open_counter,
            final(self).lock_counter == old(self).lock_counter,
    {
        let ghost ss = self.session_list();
        let mut kept: Vec<SessionRecord> = Vec::new();
        let mut i: usize = 0;
        while i < self.sessions.len()
            invariant
                i <= self.sessions@.len(),
                ss == self.session_list(),
                ss.len() == self.sessions@.len(),
                session_views(kept@) == without_session(ss.subrange(0, i as int), sid@),
            decreases self.sessions@.len() - i,
        {
            assert(ss[i as int] == self.sessions@[i as int]@);
            proof {
                reveal(Seq::filter);
                assert(ss.subrange(0, i + 1).drop_last() =~= ss.subrange(0, i as int));
            }
            if !bytes_eq(self.sessions[i].session_id.as_slice(), sid) {
                let c = clone_session(&self.sessions[i]);
                let ghost before = kept@;
                kept.push(c);
                assert(session_views(kept@) =~= session_views(before).push(ss[i as int]));
            }
            i += 1;
        }
        assert(ss.subrange(0, i as int) =~= ss);
        self.sessions = kept;
    }

    /// Drops every session of client `cid`.
    pub fn remove_client_sessions(&mut self, cid: u64)
        ensures
            final(self).session_list() == without_client_sessions(old(self).session_list(), cid),
            final(self).clients == old(self).clients,
            final(self).owners == old(self).owners,
            final(self).open_files == old(self).open_files,
            final(self).locks == old(self).locks,
            final(self).writeverf == old(self).writeverf,
            final(self).client_counter == old(self).client_counter,
            final(self).open_counter == old(self).open_counter,
            final(self).lock_counter == old(self).lock_counter,
    {
        let ghost ss = self.session_list();
        let mut kept: Vec<SessionRecord> = Vec::new();
        let mut i: usize = 0;
        while i < self.sessions.len()
            invariant
                i <= self.sessions@.len(),
                ss == self.session_list(),
                ss.len() == self.sessions@.len(),
                session_views(kept@) == without_client_sessions(ss.subrange(0, i as int), cid),
            decreases self.sessions@.len() - i,
        {
            assert(ss[i as int] == self.sessions@[i as int]@);
            proof {
                reveal(Seq::filter);
                assert(ss.subrange(0, i + 1).drop_last() =~= ss.subrange(0, i as int));
            }
            if self.sessions[i].client_id != cid {
                let c = clone_session(&self.sessions[i]);
                let ghost before = kept@;
                kept.push(c);
                assert(session_views(kept@) =~= session_views(before).push(ss[i as int]));
            }
            i += 1;
        }
        assert(ss.subrange(0, i as int) =~= ss);
        self.sessions = kept;
    }

    /// DESTROY_SESSION: forgets the session.
    pub fn op_destroy_session(&mut self, request: &[u8], p: usize) -> (r: OpOutcome)
        ensures
            final(self).clients == old(self).clients,
            final(self).owners == old(self).owners,
            final(self).open_files == old(self).open_files,
            final(self).locks == old(self).locks,
            final(self).writeverf == old(self).writeverf,
            final(self).client_counter == old(self).client_counter,
            final(self).open_counter == old(self).open_counter,
            final(self).lock_counter == old(self).lock_counter,
            p + 16 > request@.len() ==> r@ == fail(0, NFS4ERR_BADXDR) && final(self).sessions == old(self).sessions,
            p + 16 <= request@.len() ==> r@ == ok(Seq::empty(), 16, None, None)
                && final(self).session_list() == without_session(old(self).session_list(), request@.subrange(p as int, p + 16)),
    {
        if p > request.len() || request.len() - p < 16 {
            return failed(0, NFS4ERR_BADXDR);
        }
        let sid = copy_range(request, p, 16);
        self.remove_session(sid.as_slice());
        succeeded(Vec::new(), 16, None, None)
    }

    /// DESTROY_CLIENTID: forgets every session of the client.
    pub fn op_destroy_clientid(&mut self, request: &[u8], p: usize) -> (r: OpOutcome)
        ensures
            final(self).clients == old(self).clients,
            final(self).owners == old(self).owners,
            final(self).open_files == old(self).open_files,
            final(self).locks == old(self).locks,
            final(self).writeverf == old(self).writeverf,
            final(self).client_counter == old(self).client_counter,
            final(self).open_counter == old(self).open_counter,
            final(self).lock_counter == old(self).lock_counter,
            r@ == ok(Seq::empty(), 8, None, None),
            p + 8 > request@.len() ==> final(self).sessions == old(self).sessions,
            p + 8 <= request@.len() ==>
                final(self).session_list() == without_client_sessions(old(self).session_list(), be64(request@, p as int)),
    {
        if p <= request.len() && request.len() - p >= 8 {
            let cid = get_u64(request, p);
            self.remove_client_sessions(cid);
        }
        succeeded(Vec::new(), 8, None, None)
    }
}


/// `first_index` over a sequence with one more element.
pub proof fn lemma_first_index_push<T>(s: Seq<T>, x: T, f: spec_fn(T) -> bool)
    ensures
        first_index(s.push(x), f) == (match first_index(s, f) {
            Some(i) => Some(i),
            None => if f(x) { Some(s.len() as int) } else { None::<int> },
        }),
    decreases s.len(),
{
    if s.len() > 0 {
        assert(s.push(x)[0] == s[0]);
        assert(s.push(x).drop_first() =~= s.drop_first().push(x));
        lemma_first_index_push(s.drop_first(), x, f);
    } else {
        assert(s.push(x)[0] == x);
        assert(s.push(x).drop_first() =~= Seq::<T>::empty());
        assert(first_index(Seq::<T>::empty(), f) is None);
    }
}

/// What a search found is the first match: nothing before it matches.
proof fn lemma_first_index_some<T>(s: Seq<T>, f: spec_fn(T) -> bool)
    ensures
        first_index(s, f) matches Some(i) ==> 0 <= i < s.len() && f(s[i])
            && forall|k: int| 0 <= k < i ==> !f(#[trigger] s[k]),
    decreases s.len(),
{
    if s.len() > 0 && !f(s[0]) {
        lemma_first_index_some(s.drop_first(), f);
        if let Some(i) = first_index(s, f) {
            assert forall|k: int| 0 <= k < i implies !f(#[trigger] s[k]) by {
                if k > 0 {
                    assert(s[k] == s.drop_first()[k - 1]);
                }
            }
        }
    }
}

/// A session CREATE_SESSION records is found again under its ID, with
/// sequence ID 1, so a SEQUENCE on it with a sequence ID of 1 or more is
/// accepted.
pub proof fn lemma_created_session_found(ss: Seq<SessionView>, cid: u64, mops: u32, mreqs: u32, now: u64)
    ensures
        ({
            let s = created_session(cid, mops, mreqs, now);
            let ss2 = sessions_put(ss, s);
            session_index(ss2, session_id_for(cid)) matches Some(i) && 0 <= i < ss2.len() && ss2[i] == s
                && ss2[i].sequence == 1
        }),
{
    let s = created_session(cid, mops, mreqs, now);
    let f = |x: SessionView| x.session_id == s.session_id;
    lemma_first_index_some(ss, f);
    match session_index(ss, s.session_id) {
        Some(i) => {
            let ss2 = ss.update(i, s);
            assert forall|k: int| 0 <= k < i implies !f(#[trigger] ss2[k]) by {
                assert(ss2[k] == ss[k]);
            }
            crate::exports::lemma_first_index(ss2, f, i);
        },
        None => {
            lemma_first_index_push(ss, s, f);
        },
    }
}

/// A client recorded by EXCHANGE_ID or SETCLIENTID is found again under
/// its client ID, as it was recorded, so SETCLIENTID_CONFIRM and
/// DESTROY_CLIENTID reach it.
pub proof fn lemma_put_client_found(cs: Seq<ClientView>, c: ClientView)
    ensures
        client_index(clients_put(cs, c), c.client_id) matches Some(i) && 0 <= i < clients_put(cs, c).len()
            && clients_put(cs, c)[i] == c,
{
    let f = |x: ClientView| x.client_id == c.client_id;
    lemma_first_index_some(cs, f);
    match client_index(cs, c.client_id) {
        Some(i) => {
            let cs2 = cs.update(i, c);
            assert forall|k: int| 0 <= k < i implies !f(#[trigger] cs2[k]) by {
                assert(cs2[k] == cs[k]);
            }
            crate::exports::lemma_first_index(cs2, f, i);
        },
        None => {
            lemma_first_index_push(cs, c, f);
        },
    }
}

/// SETCLIENTID's arguments at `p`: the client's verifier, its ID string,
/// its callback program and the offset past the arguments.
pub open spec fn setclientid_args(s: Seq<u8>, p: int) -> Option<(Seq<u8>, Seq<u8>, u32, int)> {
    if p + 8 > s.len() || !opaque_fits(s, p + 8) {
        None
    } else {
        let a = clamp(opaque_end(s, p + 8));
        if a + 4 > s.len() || !opaque_fits(s, a + 4) {
            None
        } else {
            let b = clamp(opaque_end(s, a + 4));
            if !opaque_fits(s, b) {
                None
            } else {
                let c = clamp(opaque_end(s, b));
                if c + 4 > s.len() {
                    None
                } else {
                    Some((s.subrange(p, p + 8), opaque_data(s, p + 8), be32(s, a), c + 4))
                }
            }
        }
    }
}

/// Parses SETCLIENTID's arguments.
pub fn parse_setclientid(buf: &[u8], p: usize) -> (r: Option<(Vec<u8>, Vec<u8>, u32, usize)>)
    ensures
        r matches Some((v, id, cb, e)) ==> setclientid_args(buf@, p as int) == Some((v@, id@, cb, e as int)),
        r is None <==> setclientid_args(buf@, p as int) is None,
        r matches Some((_v, _id, _cb, e)) ==> e >= p,
{
    if p > buf.len() || buf.len() - p < 8 {
        return None;
    }
    let (id, a) = match read_opaque(buf, p + 8) {
        None => return None,
        Some(v) => v,
    };
    if a > buf.len() || buf.len() - a < 4 {
        return None;
    }
    let b = match skip_opaque(buf, a + 4) {
        None => return None,
        Some(v) => v,
    };
    let c = match skip_opaque(buf, b) {
        None => return None,
        Some(v) => v,
    };
    if c > buf.len() || buf.len() - c < 4 {
        return None;
    }
    Some((copy_range(buf, p, 8), id, get_u32(buf, a), c + 4))
}

/// The client ID EXCHANGE_ID gives `owner`: the one it was given before,
/// or the counter's next value.
pub open spec fn assigned_id(os: Seq<OwnerView>, counter: u64, owner: Seq<u8>) -> u64 {
    match owner_index(os, owner) {
        Some(j) => os[j].client_id,
        None => counter,
    }
}

/// The owner table after EXCHANGE_ID for `owner`.
pub open spec fn owners_after(os: Seq<OwnerView>, counter: u64, owner: Seq<u8>) -> Seq<OwnerView> {
    match owner_index(os, owner) {
        Some(_) => os,
        None => os.push(OwnerView { owner, client_id: counter }),
    }
}

/// The client counter after EXCHANGE_ID for `owner`.
pub open spec fn counter_after(os: Seq<OwnerView>, counter: u64, owner: Seq<u8>) -> u64 {
    match owner_index(os, owner) {
        Some(_) => counter,
        None => (counter + 1) as u64,
    }
}

/// Whether EXCHANGE_ID issues a new client ID: its arguments decode and the
/// owner has none yet.
pub open spec fn exchange_issues_id(os: Seq<OwnerView>, s: Seq<u8>, p: int) -> bool {
    match exchange_id_args(s, p) {
        Some((owner, _)) => owner_index(os, owner) is None,
        None => false,
    }
}

/// An EXCHANGE_ID for an owner that already has a client ID gives it the
/// same ID again and changes neither the owner table nor the counter.
pub proof fn lemma_exchange_id_same_owner(os: Seq<OwnerView>, counter: u64, owner: Seq<u8>)
    ensures
        assigned_id(owners_after(os, counter, owner), counter_after(os, counter, owner), owner)
            == assigned_id(os, counter, owner),
        owners_after(owners_after(os, counter, owner), counter_after(os, counter, owner), owner)
            == owners_after(os, counter, owner),
        counter_after(owners_after(os, counter, owner), counter_after(os, counter, owner), owner)
            == counter_after(os, counter, owner),
{
    let f = |o: OwnerView| o.owner == owner;
    if owner_index(os, owner) is None {
        lemma_first_index_push(os, OwnerView { owner, client_id: counter }, f);
    }
}

/// The server-owner major ID EXCHANGE_ID reports.
pub open spec fn server_major_id() -> Seq<u8> {
    "RustNfsSvc".spec_bytes()
}

/// The EXCHANGE_ID flags: confirmed, not a pNFS server, supports
/// referrals and migration.
pub const EXCHGID_FLAGS: u32 = 0x80010003;

/// The EXCHANGE_ID result: the client ID, its sequence ID, the flags, no
/// state protection, the server owner, an empty scope and no
/// implementation ID.
pub open spec fn exchange_id_reply(cid: u64, seqid: u32) -> Seq<u8> {
    u64_bytes(cid) + u32_bytes(seqid) + u32_bytes(EXCHGID_FLAGS) + u32_bytes(0) + u64_bytes(0)
        + opaque_bytes(server_major_id()) + u32_bytes(0) + u32_bytes(0)
}

/// The end of `n` implementation IDs (domain, name, date) at `pos`.
pub open spec fn implids_end(s: Seq<u8>, pos: int, n: nat) -> Option<int>
    decreases n,
{
    if n == 0 {
        Some(pos)
    } else if pos + 4 > s.len() {
        None
    } else {
        let d = clamp(opaque_end(s, pos));
        if d + 4 > s.len() {
            None
        } else {
            let e = clamp(opaque_end(s, d));
            if e + 8 > s.len() {
                None
            } else {
                implids_end(s, e + 8, (n - 1) as nat)
            }
        }
    }
}

/// The offset past the state protection data of kind `how` at `b`.
pub open spec fn state_protect_end(s: Seq<u8>, how: u32, b: int) -> Option<int> {
    if how == 1 || how == 2 {
        if !opaque_fits(s, b) {
            None
        } else {
            let b1 = clamp(opaque_end(s, b));
            if !opaque_fits(s, b1) {
                None
            } else {
                let b2 = clamp(opaque_end(s, b1));
                if b2 + 4 > s.len() || be32(s, b2) > MAX_XDR_OPAQUE || !opaque_fits(s, b2) {
                    None
                } else {
                    Some(clamp(opaque_end(s, b2)))
                }
            }
        }
    } else {
        Some(b)
    }
}

/// EXCHANGE_ID's arguments at `p`: the client owner and the offset past the
/// arguments.
pub open spec fn exchange_id_args(s: Seq<u8>, p: int) -> Option<(Seq<u8>, int)> {
    if p + 8 > s.len() || !opaque_fits(s, p + 8) {
        None
    } else {
        let a = clamp(opaque_end(s, p + 8));
        if a + 8 > s.len() {
            None
        } else {
            match state_protect_end(s, be32(s, a + 4), a + 8) {
                None => None,
                Some(c) => if c + 4 > s.len() {
                    None
                } else {
                    match implids_end(s, c + 4, be32(s, c) as nat) {
                        None => None,
                        Some(e) => Some((opaque_data(s, p + 8), e)),
                    }
                },
            }
        }
    }
}

/// Walks the implementation IDs.
fn parse_implids(buf: &[u8], pos: usize, n: u32) -> (r: Option<usize>)
    ensures
        r matches Some(e) ==> implids_end(buf@, pos as int, n as nat) == Some(e as int) && e >= pos,
        r is None <==> implids_end(buf@, pos as int, n as nat) is None,
{
    let mut q = pos;
    let mut i: u32 = 0;
    while i < n
        invariant
            i <= n,
            q >= pos,
            implids_end(buf@, pos as int, n as nat) == implids_end(buf@, q as int, (n - i) as nat),
        decreases n - i,
    {
        if q > buf.len() || buf.len() - q < 4 {
            return None;
        }
        let d = crate::xdr::add_clamped(q + 4, (get_u32(buf, q) as u64 + 3) / 4 * 4);
        if d > buf.len() || buf.len() - d < 4 {
            return None;
        }
        let e = crate::xdr::add_clamped(d + 4, (get_u32(buf, d) as u64 + 3) / 4 * 4);
        if e > buf.len() || buf.len() - e < 8 {
            return None;
        }
        q = e + 8;
        i += 1;
    }
    Some(q)
}

/// Parses the state protection data.
fn parse_state_protect(buf: &[u8], how: u32, b: usize) -> (r: Option<usize>)
    ensures
        r matches Some(e) ==> state_protect_end(buf@, how, b as int) == Some(e as int) && e >= b,
        r is None <==> state_protect_end(buf@, how, b as int) is None,
{
    if how == 1 || how == 2 {
        let b1 = match skip_opaque(buf, b) {
            None => return None,
            Some(v) => v,
        };
        let b2 = match skip_opaque(buf, b1) {
            None => return None,
            Some(v) => v,
        };
        if b2 > buf.len() || buf.len() - b2 < 4 {
            return None;
        }
        if get_u32(buf, b2) as usize > MAX_XDR_OPAQUE {
            return None;
        }
        skip_opaque(buf, b2)
    } else {
        Some(b)
    }
}

/// Parses EXCHANGE_ID's arguments.
pub fn parse_exchange_id(buf: &[u8], p: usize) -> (r: Option<(Vec<u8>, usize)>)
    ensures
        r matches Some((o, e)) ==> exchange_id_args(buf@, p as int) == Some((o@, e as int)) && e >= p,
        r is None <==> exchange_id_args(buf@, p as int) is None,
{
    if p > buf.len() || buf.len() - p < 8 {
        return None;
    }
    let (owner, a) = match read_opaque(buf, p + 8) {
        None => return None,
        Some(v) => v,
    };
    if a > buf.len() || buf.len() - a < 8 {
        return None;
    }
    let c = match parse_state_protect(buf, get_u32(buf, a + 4), a + 8) {
        None => return None,
        Some(v) => v,
    };
    if c > buf.len() || buf.len() - c < 4 {
        return None;
    }
    match parse_implids(buf, c + 4, get_u32(buf, c)) {
        None => None,
        Some(e) => Some((owner, e)),
    }
}

/// The client record EXCHANGE_ID stores.
pub open spec fn exchanged_client(cid: u64, now: u64) -> ClientView {
    ClientView {
        client_id: cid,
        verifier: zeros(8),
        id_string: Seq::empty(),
        callback_program: 0,
        confirmed: false,
        confirm_verifier: zeros(8),
        sequence: 1,
        last_used: now,
    }
}

/// The sequence ID EXCHANGE_ID reports for `cid`.
pub open spec fn stored_sequence(cs: Seq<ClientView>, cid: u64) -> u32 {
    match client_index(cs, cid) {
        Some(i) => cs[i].sequence,
        None => 1,
    }
}

/// Whether SETCLIENTID issues a new client ID: its arguments decode and no
/// client has the ID string yet.
pub open spec fn setclientid_issues_id(cs: Seq<ClientView>, s: Seq<u8>, p: int) -> bool {
    match setclientid_args(s, p) {
        Some((_, id, _, _)) => client_by_string(cs, id) is None,
        None => false,
    }
}

/// Position of the first client whose ID string is `id`.
pub open spec fn client_by_string(cs: Seq<ClientView>, id: Seq<u8>) -> Option<int> {
    first_index(cs, |c: ClientView| c.id_string == id)
}

/// A confirm verifier: eight bytes of the xorshift stream seeded with the
/// caller's entropy XOR the client ID.
pub open spec fn confirm_verifier(seed: u64, cid: u64) -> Seq<u8> {
    xorshift_bytes(seed ^ cid, 8)
}

/// The SETCLIENTID result: the client ID and the confirm verifier.
pub open spec fn setclientid_reply(cid: u64, seed: u64) -> Seq<u8> {
    u64_bytes(cid) + confirm_verifier(seed, cid)
}

impl Nfs4Server {
    /// Position of the first client whose ID string is `id`.
    pub fn find_client_by_string(&self, id: &[u8]) -> (r: Option<usize>)
        ensures
            r matches Some(i) ==> client_by_string(self.client_list(), id@) == Some(i as int),
            r is None <==> client_by_string(self.client_list(), id@) is None,
            r matches Some(i) ==> i < self.clients@.len(),
    {
        let ghost cs = self.client_list();
        let mut i: usize = 0;
        while i < self.clients.len()
            invariant
                i <= self.clients@.len(),
                cs == self.client_list(),
                cs.len() == self.clients@.len(),
                forall|k: int| 0 <= k < i ==> !(|c: ClientView| c.id_string == id@)(#[trigger] cs[k]),
            decreases self.clients@.len() - i,
        {
            assert(cs[i as int] == self.clients@[i as int]@);
            if bytes_eq(self.clients[i].id_string.as_slice(), id) {
                proof { lemma_first_index(cs, |c: ClientView| c.id_string == id@, i as int); }
                return Some(i);
            }
            i += 1;
        }
        proof { lemma_first_index(cs, |c: ClientView| c.id_string == id@, i as int); }
        None
    }

    /// EXCHANGE_ID: gives the client owner its client ID (the one it had, or
    /// a new one), reports it with the stored sequence ID (1 for a new
    /// client), and records a fresh client entry under that ID.
    pub fn op_exchange_id(&mut self, request: &[u8], p: usize, now: u64) -> (r: OpOutcome)
        requires
            exchange_issues_id(old(self).owner_list(), request@, p as int) ==> old(self).client_counter < u64::MAX,
        ensures
            final(self).sessions == old(self).sessions,
            final(self).open_files == old(self).open_files,
            final(self).locks == old(self).locks,
            final(self).writeverf == old(self).writeverf,
            final(self).open_counter == old(self).open_counter,
            final(self).lock_counter == old(self).lock_counter,
            match exchange_id_args(request@, p as int) {
                None => {
                    &&& r@ == fail(0, NFS4ERR_BADXDR)
                    &&& final(self).clients == old(self).clients
                    &&& final(self).owners == old(self).owners
                    &&& final(self).client_counter == old(self).client_counter
                },
                Some((owner, end)) => {
                    let cid = assigned_id(old(self).owner_list(), old(self).client_counter, owner);
                    &&& r@ == ok(exchange_id_reply(cid, stored_sequence(old(self).client_list(), cid)), end - p, None, None)
                    &&& final(self).owner_list() == owners_after(old(self).owner_list(), old(self).client_counter, owner)
                    &&& final(self).client_counter == counter_after(old(self).owner_list(), old(self).client_counter, owner)
                    &&& final(self).client_list() == clients_put(old(self).client_list(), exchanged_client(cid, now))
                },
            },
    {
        let (owner, end) = match parse_exchange_id(request, p) {
            None => return failed(0, NFS4ERR_BADXDR),
            Some(v) => v,
        };
        let cid = match self.find_owner(owner.as_slice()) {
            Some(j) => {
                assert(self.owner_list()[j as int] == self.owners@[j as int]@);
                self.owners[j].client_id
            }
            None => {
                let id = self.client_counter;
                self.client_counter = id + 1;
                let ghost ov = OwnerView { owner: owner@, client_id: id };
                self.owners.push(OwnerEntry { owner, client_id: id });
                assert(self.owner_list() =~= old(self).owner_list().push(ov));
                id
            }
        };
        let seqid = match self.find_client(cid) {
            Some(i) => {
                assert(self.client_list()[i as int] == self.clients@[i as int]@);
                self.clients[i].sequence
            }
            None => 1,
        };
        let mut result: Vec<u8> = Vec::new();
        put_u64(&mut result, cid);
        put_u32(&mut result, seqid);
        put_u32(&mut result, EXCHGID_FLAGS);
        put_u32(&mut result, 0);
        put_u64(&mut result, 0);
        put_opaque(&mut result, "RustNfsSvc".as_bytes());
        put_u32(&mut result, 0);
        put_u32(&mut result, 0);
        assert(result@ =~= exchange_id_reply(cid, seqid));
        let mut zv: Vec<u8> = Vec::new();
        put_zeros(&mut zv, 8);
        let mut zc: Vec<u8> = Vec::new();
        put_zeros(&mut zc, 8);
        let rec = ClientRecord {
            client_id: cid,
            verifier: zv,
            id_string: Vec::new(),
            callback_program: 0,
            confirmed: false,
            confirm_verifier: zc,
            sequence: 1,
            last_used: now,
        };
        assert(rec@ == exchanged_client(cid, now)) by {
            assert(rec@.verifier =~= zeros(8));
            assert(rec@.confirm_verifier =~= zeros(8));
            assert(rec@.id_string =~= Seq::<u8>::empty());
        }
        self.put_client(rec);
        succeeded(result, end - p, None, None)
    }

    /// SETCLIENTID: for a client ID string already known with the same
    /// verifier, returns that client's ID with a new confirm verifier (which it
    /// records); with another verifier, CLID_INUSE; for a new string, records an
    /// unconfirmed client under the next client ID.
    pub fn op_setclientid(&mut self, request: &[u8], p: usize, seed: u64, now: u64) -> (r: OpOutcome)
        requires
            setclientid_issues_id(old(self).client_list(), request@, p as int) ==> old(self).client_counter < u64::MAX,
        ensures
            final(self).sessions == old(self).sessions,
            final(self).owners == old(self).owners,
            final(self).open_files == old(self).open_files,
            final(self).locks == old(self).locks,
            final(self).writeverf == old(self).writeverf,
            final(self).open_counter == old(self).open_counter,
            final(self).lock_counter == old(self).lock_counter,
            match setclientid_args(request@, p as int) {
                None => {
                    &&& r@ == fail(0, NFS4ERR_BADXDR)
                    &&& final(self).clients == old(self).clients
                    &&& final(self).client_counter == old(self).client_counter
                },
                Some((v, id, cb, end)) => match client_by_string(old(self).client_list(), id) {
                    Some(i) => {
                        let c = old(self).client_list()[i];
                        &&& final(self).client_counter == old(self).client_counter
                        &&& if c.verifier == v {
                            &&& r@ == ok(setclientid_reply(c.client_id, seed), end - p, None, None)
                            &&& final(self).client_list() == clients_put(old(self).client_list(),
                                ClientView { confirm_verifier: confirm_verifier(seed, c.client_id), ..c })
                        } else {
                            &&& r@ == fail(end - p, NFS4ERR_CLID_INUSE)
                            &&& final(self).clients == old(self).clients
                        }
                    },
                    None => {
                        let cid = old(self).client_counter;
                        &&& r@ == ok(setclientid_reply(cid, seed), end - p, None, None)
                        &&& final(self).client_counter == cid + 1
                        &&& final(self).client_list() == clients_put(old(self).client_list(), ClientView {
                            client_id: cid,
                            verifier: v,
                            id_string: id,
                            callback_program: cb,
                            confirmed: false,
                            confirm_verifier: confirm_verifier(seed, cid),
                            sequence: 0,
                            last_used: now,
                        })
                    },
                },
            },
    {
        let (v, id, cb, end) = match parse_setclientid(request, p) {
            None => return failed(0, NFS4ERR_BADXDR),
            Some(x) => x,
        };
        match self.find_client_by_string(id.as_slice()) {
            Some(i) => {
                assert(self.client_list()[i as int] == self.clients@[i as int]@);
                if !bytes_eq(self.clients[i].verifier.as_slice(), v.as_slice()) {
                    return failed(end - p, NFS4ERR_CLID_INUSE);
                }
                let c = clone_client(&self.clients[i]);
                let cid = c.client_id;
                let cv = xorshift_fill(seed ^ cid, 8);
                let mut result: Vec<u8> = Vec::new();
                put_u64(&mut result, cid);
                put_bytes(&mut result, cv.as_slice());
                let upd = ClientRecord { confirm_verifier: cv, ..c };
                self.put_client(upd);
                succeeded(result, end - p, None, None)
            }
            None => {
                let cid = self.client_counter;
                self.client_counter = cid + 1;
                let cv = xorshift_fill(seed ^ cid, 8);
                let mut result: Vec<u8> = Vec::new();
                put_u64(&mut result, cid);
                put_bytes(&mut result, cv.as_slice());
                let rec = ClientRecord {
                    client_id: cid,
                    verifier: v,
                    id_string: id,
                    callback_program: cb,
                    confirmed: false,
                    confirm_verifier: cv,
                    sequence: 0,
                    last_used: now,
                };
                self.put_client(rec);
                succeeded(result, end - p, None, None)
            }
        }
    }

    /// SETCLIENTID_CONFIRM: marks a known client confirmed; STALE_CLIENTID for
    /// an unknown one.
    pub fn op_setclientid_confirm(&mut self, request: &[u8], p: usize) -> (r: OpOutcome)
        ensures
            final(self).sessions == old(self).sessions,
            final(self).owners == old(self).owners,
            final(self).open_files == old(self).open_files,
            final(self).locks == old(self).locks,
            final(self).writeverf == old(self).writeverf,
            final(self).client_counter == old(self).client_counter,
            final(self).open_counter == old(self).open_counter,
            final(self).lock_counter == old(self).lock_counter,
            p + 16 > request@.len() ==> r@ == fail(16, NFS4ERR_BADXDR) && final(self).clients == old(self).clients,
            p + 16 <= request@.len() ==> match client_index(old(self).client_list(), be64(request@, p as int)) {
                None => r@ == fail(16, NFS4ERR_STALE_CLIENTID) && final(self).clients == old(self).clients,
                Some(i) => r@ == ok(Seq::empty(), 16, None, None)
                    && final(self).client_list() == old(self).client_list().update(i,
                        ClientView { confirmed: true, ..old(self).client_list()[i] }),
            },
    {
        if p > request.len() || request.len() - p < 16 {
            return failed(16, NFS4ERR_BADXDR);
        }
        let cid = get_u64(request, p);
        match self.find_client(cid) {
            None => failed(16, NFS4ERR_STALE_CLIENTID),
            Some(i) => {
                assert(self.client_list()[i as int] == self.clients@[i as int]@);
                let c = clone_client(&self.clients[i]);
                let upd = ClientRecord { confirmed: true, ..c };
                let ghost uv = upd@;
                self.clients.set(i, upd);
                assert(self.client_list() =~= old(self).client_list().update(i as int, uv));
                succeeded(Vec::new(), 16, None, None)
            }
        }
    }
}


/// The arguments LOCK, LOCKT and LOCKU share, at `p`: lock type, offset,
/// length, lock owner, client ID (the last two only for a new lock owner;
/// empty and 0 otherwise) and the offset past them.
pub open spec fn lock_args(s: Seq<u8>, p: int) -> Option<(u32, u64, u64, Seq<u8>, u64, int)> {
    if p + 28 > s.len() {
        None
    } else if be32(s, p + 24) != 0 {
        if !opaque_fits(s, p + 60) {
            None
        } else {
            Some((be32(s, p), be64(s, p + 8), be64(s, p + 16), opaque_data(s, p + 60), be64(s, p + 52),
                clamp(opaque_end(s, p + 60))))
        }
    } else if p + 48 > s.len() {
        None
    } else {
        Some((be32(s, p), be64(s, p + 8), be64(s, p + 16), Seq::empty(), 0, p + 48))
    }
}

/// Parses the lock arguments.
pub fn parse_lock_args(buf: &[u8], p: usize) -> (r: Option<(u32, u64, u64, Vec<u8>, u64, usize)>)
    ensures
        r matches Some((t, o, l, w, c, e)) ==> lock_args(buf@, p as int) == Some((t, o, l, w@, c, e as int)) && e >= p + 48,
        r is None <==> lock_args(buf@, p as int) is None,
{
    if p > buf.len() || buf.len() - p < 28 {
        return None;
    }
    let t = get_u32(buf, p);
    let off = get_u64(buf, p + 8);
    let len = get_u64(buf, p + 16);
    if get_u32(buf, p + 24) != 0 {
        if buf.len() - p < 60 {
            return None;
        }
        match read_opaque(buf, p + 60) {
            None => None,
            Some((owner, e)) => Some((t, off, len, owner, get_u64(buf, p + 52), e)),
        }
    } else if buf.len() - p < 48 {
        None
    } else {
        Some((t, off, len, Vec::new(), 0, p + 48))
    }
}

/// `a + b`, saturating at `u64::MAX`.
pub open spec fn sat_add(a: u64, b: u64) -> u64 {
    if a + b > u64::MAX { u64::MAX } else { (a + b) as u64 }
}

/// Lock types that exclude other locks on the range.
pub open spec fn is_write_lock(t: u32) -> bool {
    t == WRITE_LT || t == WRITEW_LT
}

/// A held lock `l` stands in the way of a new lock of type `t` on
/// `[off, off + len)` of `file`: same file, overlapping ranges, and one of
/// the two excludes others.
pub open spec fn conflicts(l: LockView, file: u64, t: u32, off: u64, len: u64) -> bool {
    &&& l.file == file
    &&& off < sat_add(l.offset, l.length)
    &&& l.offset < sat_add(off, len)
    &&& (is_write_lock(t) || is_write_lock(l.lock_type))
}

/// Position of the first held lock a new lock would conflict with.
pub open spec fn first_conflict(ls: Seq<LockView>, file: u64, t: u32, off: u64, len: u64) -> Option<int> {
    first_index(ls, |l: LockView| conflicts(l, file, t, off, len))
}

/// Whether LOCK issues a new lock ID: its arguments decode and no held lock
/// conflicts.
pub open spec fn lock_issues_id(ls: Seq<LockView>, s: Seq<u8>, p: int) -> bool {
    match lock_args(s, p) {
        Some((t, off, len, _, _, _)) => first_conflict(ls, be64(s, p + 32), t, off, len) is None,
        None => false,
    }
}

/// The LOCK4denied body: the holder's range, type and owner.
pub open spec fn denied_reply(l: LockView) -> Seq<u8> {
    u64_bytes(l.offset) + u64_bytes(l.length) + u32_bytes(l.lock_type) + opaque_bytes(l.lock_owner)
}

/// A stateid with sequence 1 whose other part holds `id`.
pub open spec fn stateid_for(id: u64) -> Seq<u8> {
    u32_bytes(1) + u64_bytes(id) + zeros(4)
}

/// A lock LOCKU releases: same file, range, type and owner.
pub open spec fn releases(l: LockView, file: u64, t: u32, off: u64, len: u64, owner: Seq<u8>) -> bool {
    l.file == file && l.offset == off && l.length == len && l.lock_type == t && l.lock_owner == owner
}

/// The locks LOCKU keeps.
pub open spec fn locks_after_unlock(ls: Seq<LockView>, file: u64, t: u32, off: u64, len: u64, owner: Seq<u8>) -> Seq<LockView> {
    ls.filter(|l: LockView| !releases(l, file, t, off, len, owner))
}

/// The LOCKU result: the stateid of the last lock released, or the zero
/// stateid with sequence 0 when none was.
pub open spec fn unlock_reply(ls: Seq<LockView>, file: u64, t: u32, off: u64, len: u64, owner: Seq<u8>) -> Seq<u8> {
    match crate::exports::last_index(ls, |l: LockView| releases(l, file, t, off, len, owner)) {
        Some(k) => stateid_for(ls[k].lock_id),
        None => zeros(16),
    }
}

/// Builds a stateid for `id`.
pub fn make_stateid(id: u64) -> (r: Vec<u8>)
    ensures
        r@ == stateid_for(id),
{
    let mut r: Vec<u8> = Vec::new();
    put_u32(&mut r, 1);
    put_u64(&mut r, id);
    put_zeros(&mut r, 4);
    r
}

/// An outcome that failed with a body (the caller sends none).
pub fn failed_with(result: Vec<u8>, advance: usize, status: u32) -> (r: OpOutcome)
    ensures
        r.result@ == result@,
        r.advance == advance,
        r.new_fh is None,
        r.new_saved is None,
        r.status == status,
{
    OpOutcome { result, advance, new_fh: None, new_saved: None, status }
}

/// Computes [`conflicts`].
fn lock_conflicts(l: &FileLock, file: u64, t: u32, off: u64, len: u64) -> (r: bool)
    ensures
        r == conflicts(l@, file, t, off, len),
{
    let new_end = if len <= u64::MAX - off { off + len } else { u64::MAX };
    let lock_end = if l.length <= u64::MAX - l.offset { l.offset + l.length } else { u64::MAX };
    let new_w = t == WRITE_LT || t == WRITEW_LT;
    let old_w = l.lock_type == WRITE_LT || l.lock_type == WRITEW_LT;
    l.file == file && off < lock_end && l.offset < new_end && (new_w || old_w)
}

impl Nfs4Server {
    /// Position of the first held lock a new lock would conflict with.
    pub fn check_lock_conflict(&self, file: u64, t: u32, off: u64, len: u64) -> (r: Option<usize>)
        ensures
            r matches Some(k) ==> first_conflict(self.lock_list(), file, t, off, len) == Some(k as int) && k < self.locks@.len(),
            r is None <==> first_conflict(self.lock_list(), file, t, off, len) is None,
    {
        let ghost ls = self.lock_list();
        let mut i: usize = 0;
        while i < self.locks.len()
            invariant
                i <= self.locks@.len(),
                ls == self.lock_list(),
                ls.len() == self.locks@.len(),
                forall|k: int| 0 <= k < i ==> !(|l: LockView| conflicts(l, file, t, off, len))(#[trigger] ls[k]),
            decreases self.locks@.len() - i,
        {
            assert(ls[i as int] == self.locks@[i as int]@);
            if lock_conflicts(&self.locks[i], file, t, off, len) {
                proof { lemma_first_index(ls, |l: LockView| conflicts(l, file, t, off, len), i as int); }
                return Some(i);
            }
            i += 1;
        }
        proof { lemma_first_index(ls, |l: LockView| conflicts(l, file, t, off, len), i as int); }
        None
    }

    /// LOCK: denied (with the first conflicting lock) when a held lock on the
    /// same file conflicts; otherwise records the lock under the next lock ID
    /// and returns its stateid.
    pub fn op_lock(&mut self, request: &[u8], p: usize, current_fh: &Option<Vec<u8>>) -> (r: OpOutcome)
        requires
            current_fh is Some && lock_issues_id(old(self).lock_list(), request@, p as int)
                ==> old(self).lock_counter < u64::MAX,
        ensures
            final(self).clients == old(self).clients,
            final(self).owners == old(self).owners,
            final(self).sessions == old(self).sessions,
            final(self).open_files == old(self).open_files,
            final(self).writeverf == old(self).writeverf,
            final(self).client_counter == old(self).client_counter,
            final(self).open_counter == old(self).open_counter,
            current_fh is None ==> r@ == fail(0, NFS4ERR_NOFILEHANDLE) && final(self).locks == old(self).locks
                && final(self).lock_counter == old(self).lock_counter,
            current_fh is Some ==> match lock_args(request@, p as int) {
                None => r@ == fail(0, NFS4ERR_BADXDR) && final(self).locks == old(self).locks
                    && final(self).lock_counter == old(self).lock_counter,
                Some((t, off, len, owner, cid, end)) => {
                    let file = be64(request@, p + 32);
                    match first_conflict(old(self).lock_list(), file, t, off, len) {
                        Some(k) => {
                            &&& r@ == (crate::nfs4_ops::Outcome { result: denied_reply(old(self).lock_list()[k]), ..fail(end - p, NFS4ERR_DENIED) })
                            &&& final(self).locks == old(self).locks
                            &&& final(self).lock_counter == old(self).lock_counter
                        },
                        None => {
                            &&& r@ == ok(stateid_for(old(self).lock_counter), end - p, None, None)
                            &&& final(self).lock_counter == old(self).lock_counter + 1
                            &&& final(self).lock_list() == old(self).lock_list().push(LockView {
                                file, offset: off, length: len, lock_type: t, lock_owner: owner, client_id: cid,
                                lock_id: old(self).lock_counter })
                        },
                    }
                },
            },
    {
        if current_fh.is_none() {
            return failed(0, NFS4ERR_NOFILEHANDLE);
        }
        let (t, off, len, owner, cid, end) = match parse_lock_args(request, p) {
            None => return failed(0, NFS4ERR_BADXDR),
            Some(v) => v,
        };
        let file = get_u64(request, p + 32);
        match self.check_lock_conflict(file, t, off, len) {
            Some(k) => {
                assert(self.lock_list()[k as int] == self.locks@[k as int]@);
                let l = &self.locks[k];
                let mut result: Vec<u8> = Vec::new();
                put_u64(&mut result, l.offset);
                put_u64(&mut result, l.length);
                put_u32(&mut result, l.lock_type);
                put_opaque(&mut result, l.lock_owner.as_slice());
                assert(result@ =~= denied_reply(self.lock_list()[k as int]));
                failed_with(result, end - p, NFS4ERR_DENIED)
            }
            None => {
                let id = self.lock_counter;
                self.lock_counter = id + 1;
                let l = FileLock { file, offset: off, length: len, lock_type: t, lock_owner: owner, client_id: cid, lock_id: id };
                let ghost lv = l@;
                self.locks.push(l);
                assert(self.lock_list() =~= old(self).lock_list().push(lv));
                succeeded(make_stateid(id), end - p, None, None)
            }
        }
    }

    /// LOCKT: denied (with the first conflicting lock) when a held lock on the
    /// same file conflicts; otherwise OK. Records nothing.
    pub fn op_lockt(&self, request: &[u8], p: usize, current_fh: &Option<Vec<u8>>) -> (r: OpOutcome)
        ensures
            current_fh is None ==> r@ == fail(0, NFS4ERR_NOFILEHANDLE),
            current_fh is Some ==> match lock_args(request@, p as int) {
                None => r@ == fail(0, NFS4ERR_BADXDR),
                Some((t, off, len, owner, cid, end)) => {
                    let file = be64(request@, p + 32);
                    match first_conflict(self.lock_list(), file, t, off, len) {
                        Some(k) => r@ == (crate::nfs4_ops::Outcome { result: denied_reply(self.lock_list()[k]), ..fail(end - p, NFS4ERR_DENIED) }),
                        None => r@ == ok(Seq::empty(), end - p, None, None),
                    }
                },
            },
    {
        if current_fh.is_none() {
            return failed(0, NFS4ERR_NOFILEHANDLE);
        }
        let (t, off, len, _owner, _cid, end) = match parse_lock_args(request, p) {
            None => return failed(0, NFS4ERR_BADXDR),
            Some(v) => v,
        };
        let file = get_u64(request, p + 32);
        match self.check_lock_conflict(file, t, off, len) {
            Some(k) => {
                assert(self.lock_list()[k as int] == self.locks@[k as int]@);
                let l = &self.locks[k];
                let mut result: Vec<u8> = Vec::new();
                put_u64(&mut result, l.offset);
                put_u64(&mut result, l.length);
                put_u32(&mut result, l.lock_type);
                put_opaque(&mut result, l.lock_owner.as_slice());
                assert(result@ =~= denied_reply(self.lock_list()[k as int]));
                failed_with(result, end - p, NFS4ERR_DENIED)
            }
            None => succeeded(Vec::new(), end - p, None, None),
        }
    }

    /// LOCKU: releases every lock on the file with the same range, type and
    /// owner, and returns the stateid of the last one released (the zero
    /// stateid when none was).
    pub fn op_locku(&mut self, request: &[u8], p: usize, current_fh: &Option<Vec<u8>>) -> (r: OpOutcome)
        ensures
            final(self).clients == old(self).clients,
            final(self).owners == old(self).owners,
            final(self).sessions == old(self).sessions,
            final(self).open_files == old(self).open_files,
            final(self).writeverf == old(self).writeverf,
            final(self).client_counter == old(self).client_counter,
            final(self).open_counter == old(self).open_counter,
            final(self).lock_counter == old(self).lock_counter,
            current_fh is None ==> r@ == fail(0, NFS4ERR_NOFILEHANDLE) && final(self).locks == old(self).locks,
            current_fh is Some ==> match lock_args(request@, p as int) {
                None => r@ == fail(0, NFS4ERR_BADXDR) && final(self).locks == old(self).locks,
                Some((t, off, len, owner, cid, end)) => {
                    let file = be64(request@, p + 32);
                    &&& r@ == ok(unlock_reply(old(self).lock_list(), file, t, off, len, owner), end - p, None, None)
                    &&& final(self).lock_list() == locks_after_unlock(old(self).lock_list(), file, t, off, len, owner)
                },
            },
    {
        if current_fh.is_none() {
            return failed(0, NFS4ERR_NOFILEHANDLE);
        }
        let (t, off, len, owner, _cid, end) = match parse_lock_args(request, p) {
            None => return failed(0, NFS4ERR_BADXDR),
            Some(v) => v,
        };
        let file = get_u64(request, p + 32);
        let ghost ls = self.lock_list();
        let ghost f = |l: LockView| releases(l, file, t, off, len, owner@);
        let mut kept: Vec<FileLock> = Vec::new();
        let mut found: Option<u64> = None;
        let mut i: usize = 0;
        while i < self.locks.len()
            invariant
                i <= self.locks@.len(),
                ls == self.lock_list(),
                ls.len() == self.locks@.len(),
                f == (|l: LockView| releases(l, file, t, off, len, owner@)),
                lock_views(kept@) == locks_after_unlock(ls.subrange(0, i as int), file, t, off, len, owner@),
                found == (match crate::exports::last_index(ls.subrange(0, i as int), f) {
                    Some(k) => Some(ls[k].lock_id),
                    None => None::<u64>,
                }),
            decreases self.locks@.len() - i,
        {
            let ghost sub = ls.subrange(0, i + 1);
            assert(ls[i as int] == self.locks@[i as int]@);
            proof {
                reveal(Seq::filter);
                assert(sub.drop_last() =~= ls.subrange(0, i as int));
                assert(sub.last() == ls[i as int]);
            }
            let l = &self.locks[i];
            if l.file == file && l.offset == off && l.length == len && l.lock_type == t
                && bytes_eq(l.lock_owner.as_slice(), owner.as_slice()) {
                found = Some(l.lock_id);
            } else {
                let c = clone_lock(l);
                let ghost before = kept@;
                kept.push(c);
                assert(lock_views(kept@) =~= lock_views(before).push(ls[i as int]));
            }
            i += 1;
        }
        assert(ls.subrange(0, i as int) =~= ls);
        self.locks = kept;
        let result = match found {
            Some(id) => make_stateid(id),
            None => {
                let mut z: Vec<u8> = Vec::new();
                put_zeros(&mut z, 16);
                z
            }
        };
        succeeded(result, end - p, None, None)
    }
}


/// Position of the open file with stateid number `id`.
pub open spec fn open_index(fs: Seq<OpenView>, id: u64) -> Option<int> {
    first_index(fs, |f: OpenView| f.stateid == id)
}

/// The open-file table after recording `f` under its stateid number.
pub open spec fn opens_put(fs: Seq<OpenView>, f: OpenView) -> Seq<OpenView> {
    match open_index(fs, f.stateid) {
        Some(i) => fs.update(i, f),
        None => fs.push(f),
    }
}

/// The OPEN result for stateid number `id`: the stateid, an empty change
/// info, no result flags, an empty attribute set and no delegation.
pub open spec fn open_reply(id: u64) -> Seq<u8> {
    stateid_for(id) + u32_bytes(0) + u64_bytes(0) + u64_bytes(0) + u32_bytes(0) + u32_bytes(0) + u32_bytes(0)
}

/// The sessions still alive at `now`.
pub open spec fn live_sessions(ss: Seq<SessionView>, now: u64) -> Seq<SessionView> {
    ss.filter(|s: SessionView| !expired(s.last_used, now))
}

/// Position of a session of client `cid`.
pub open spec fn client_session(ss: Seq<SessionView>, cid: u64) -> Option<int> {
    first_index(ss, |s: SessionView| s.client_id == cid)
}

/// A client the lease cleanup removes: idle too long, with no session left.
pub open spec fn client_gone(ss: Seq<SessionView>, now: u64) -> spec_fn(ClientView) -> bool {
    |c: ClientView| expired(c.last_used, now) && client_session(ss, c.client_id) is None
}

/// The clients the lease cleanup keeps.
pub open spec fn clients_kept(cs: Seq<ClientView>, ss: Seq<SessionView>, now: u64) -> Seq<ClientView> {
    cs.filter(|c: ClientView| !client_gone(ss, now)(c))
}

/// The clients the lease cleanup removes.
pub open spec fn clients_removed(cs: Seq<ClientView>, ss: Seq<SessionView>, now: u64) -> Seq<ClientView> {
    cs.filter(client_gone(ss, now))
}

/// The owner entries the lease cleanup keeps: those whose client ID is not
/// the ID of a removed client.
pub open spec fn owners_kept(os: Seq<OwnerView>, removed: Seq<ClientView>) -> Seq<OwnerView> {
    os.filter(|o: OwnerView| client_index(removed, o.client_id) is None)
}

/// Position in `cs` of the first client with ID `id`.
pub fn index_by_id(cs: &Vec<ClientRecord>, id: u64) -> (r: Option<usize>)
    ensures
        r matches Some(i) ==> client_index(client_views(cs@), id) == Some(i as int),
        r is None <==> client_index(client_views(cs@), id) is None,
{
    let ghost v = client_views(cs@);
    let mut i: usize = 0;
    while i < cs.len()
        invariant
            i <= cs@.len(),
            v == client_views(cs@),
            v.len() == cs@.len(),
            forall|k: int| 0 <= k < i ==> !(|c: ClientView| c.client_id == id)(#[trigger] v[k]),
        decreases cs@.len() - i,
    {
        assert(v[i as int] == cs@[i as int]@);
        if cs[i].client_id == id {
            proof { lemma_first_index(v, |c: ClientView| c.client_id == id, i as int); }
            return Some(i);
        }
        i += 1;
    }
    proof { lemma_first_index(v, |c: ClientView| c.client_id == id, i as int); }
    None
}

impl Nfs4Server {
    /// Position of a session of client `cid`.
    pub fn find_client_session(&self, cid: u64) -> (r: Option<usize>)
        ensures
            r matches Some(i) ==> client_session(self.session_list(), cid) == Some(i as int),
            r is None <==> client_session(self.session_list(), cid) is None,
    {
        let ghost ss = self.session_list();
        let mut i: usize = 0;
        while i < self.sessions.len()
            invariant
                i <= self.sessions@.len(),
                ss == self.session_list(),
                ss.len() == self.sessions@.len(),
                forall|k: int| 0 <= k < i ==> !(|s: SessionView| s.client_id == cid)(#[trigger] ss[k]),
            decreases self.sessions@.len() - i,
        {
            assert(ss[i as int] == self.sessions@[i as int]@);
            if self.sessions[i].client_id == cid {
                proof { lemma_first_index(ss, |s: SessionView| s.client_id == cid, i as int); }
                return Some(i);
            }
            i += 1;
        }
        proof { lemma_first_index(ss, |s: SessionView| s.client_id == cid, i as int); }
        None
    }

    /// Records a file opened by OPEN under the next stateid number, which it
    /// returns.
    pub fn register_open(&mut self, path: &[u8]) -> (r: u64)
        requires
            old(self).open_counter < u64::MAX,
        ensures
            r == old(self).open_counter,
            final(self).open_counter == old(self).open_counter + 1,
            final(self).open_list() == opens_put(old(self).open_list(), OpenView { stateid: r, path: path@ }),
            final(self).clients == old(self).clients,
            final(self).owners == old(self).owners,
            final(self).sessions == old(self).sessions,
            final(self).locks == old(self).locks,
            final(self).writeverf == old(self).writeverf,
            final(self).client_counter == old(self).client_counter,
            final(self).lock_counter == old(self).lock_counter,
    {
        let id = self.open_counter;
        self.open_counter = id + 1;
        let f = OpenFile { stateid: id, path: copy_range(path, 0, path.len()) };
        assert(path@.subrange(0, path@.len() as int) =~= path@);
        let ghost fv = f@;
        let ghost fs = self.open_list();
        match self.find_open(id) {
            Some(i) => {
                self.open_files.set(i, f);
                assert(self.open_list() =~= fs.update(i as int, fv));
            }
            None => {
                self.open_files.push(f);
                assert(self.open_list() =~= fs.push(fv));
            }
        }
        id
    }

    /// Position of the open file with stateid number `id`.
    pub fn find_open(&self, id: u64) -> (r: Option<usize>)
        ensures
            r matches Some(i) ==> open_index(self.open_list(), id) == Some(i as int) && i < self.open_files@.len(),
            r is None <==> open_index(self.open_list(), id) is None,
    {
        let ghost fs = self.open_list();
        let mut i: usize = 0;
        while i < self.open_files.len()
            invariant
                i <= self.open_files@.len(),
                fs == self.open_list(),
                fs.len() == self.open_files@.len(),
                forall|k: int| 0 <= k < i ==> !(|o: OpenView| o.stateid == id)(#[trigger] fs[k]),
            decreases self.open_files@.len() - i,
        {
            assert(fs[i as int] == self.open_files@[i as int]@);
            if self.open_files[i].stateid == id {
                proof { lemma_first_index(fs, |o: OpenView| o.stateid == id, i as int); }
                return Some(i);
            }
            i += 1;
        }
        proof { lemma_first_index(fs, |o: OpenView| o.stateid == id, i as int); }
        None
    }

    /// CLOSE: forgets the open file the stateid names (when the stateid is
    /// there) and returns the all-zero stateid.
    pub fn op_close(&mut self, request: &[u8], p: usize, current_fh: &Option<Vec<u8>>) -> (r: OpOutcome)
        ensures
            final(self).clients == old(self).clients,
            final(self).owners == old(self).owners,
            final(self).sessions == old(self).sessions,
            final(self).locks == old(self).locks,
            final(self).writeverf == old(self).writeverf,
            final(self).client_counter == old(self).client_counter,
            final(self).open_counter == old(self).open_counter,
            final(self).lock_counter == old(self).lock_counter,
            current_fh is None ==> r@ == fail(20, NFS4ERR_NOFILEHANDLE) && final(self).open_files == old(self).open_files,
            current_fh is Some ==> r@ == ok(zeros(16), 20, None, None),
            current_fh is Some && p + 20 > request@.len() ==> final(self).open_files == old(self).open_files,
            current_fh is Some && p + 20 <= request@.len() ==> final(self).open_list()
                == old(self).open_list().filter(|f: OpenView| f.stateid != be64(request@, p + 4)),
    {
        if current_fh.is_none() {
            return failed(20, NFS4ERR_NOFILEHANDLE);
        }
        if p <= request.len() && request.len() - p >= 20 {
            let id = get_u64(request, p + 4);
            let ghost fs = self.open_list();
            let mut kept: Vec<OpenFile> = Vec::new();
            let mut i: usize = 0;
            while i < self.open_files.len()
                invariant
                    i <= self.open_files@.len(),
                    fs == self.open_list(),
                    fs.len() == self.open_files@.len(),
                    open_views(kept@) == fs.subrange(0, i as int).filter(|f: OpenView| f.stateid != id),
                decreases self.open_files@.len() - i,
            {
                assert(fs[i as int] == self.open_files@[i as int]@);
                proof {
                    reveal(Seq::filter);
                    assert(fs.subrange(0, i + 1).drop_last() =~= fs.subrange(0, i as int));
                }
                if self.open_files[i].stateid != id {
                    let c = OpenFile { stateid: self.open_files[i].stateid, path: clone_bytes(&self.open_files[i].path) };
                    let ghost before = kept@;
                    kept.push(c);
                    assert(open_views(kept@) =~= open_views(before).push(fs[i as int]));
                }
                i += 1;
            }
            assert(fs.subrange(0, i as int) =~= fs);
            self.open_files = kept;
        }
        let mut z: Vec<u8> = Vec::new();
        put_zeros(&mut z, 16);
        succeeded(z, 20, None, None)
    }

    /// Drops the sessions idle longer than the lease.
    fn drop_expired_sessions(&mut self, now: u64)
        ensures
            final(self).session_list() == live_sessions(old(self).session_list(), now),
            final(self).clients == old(self).clients,
            final(self).owners == old(self).owners,
            final(self).open_files == old(self).open_files,
            final(self).locks == old(self).locks,
            final(self).writeverf == old(self).writeverf,
            final(self).client_counter == old(self).client_counter,
            final(self).open_counter == old(self).open_counter,
            final(self).lock_counter == old(self).lock_counter,
    {
        let ghost ss = self.session_list();
        let mut kept: Vec<SessionRecord> = Vec::new();
        let mut i: usize = 0;
        while i < self.sessions.len()
            invariant
                i <= self.sessions@.len(),
                ss == self.session_list(),
                ss.len() == self.sessions@.len(),
                session_views(kept@) == live_sessions(ss.subrange(0, i as int), now),
            decreases self.sessions@.len() - i,
        {
            assert(ss[i as int] == self.sessions@[i as int]@);
            proof {
                reveal(Seq::filter);
                assert(ss.subrange(0, i + 1).drop_last() =~= ss.subrange(0, i as int));
            }
            if !is_expired(self.sessions[i].last_used, now) {
                let c = clone_session(&self.sessions[i]);
                let ghost before = kept@;
                kept.push(c);
                assert(session_views(kept@) =~= session_views(before).push(ss[i as int]));
            }
            i += 1;
        }
        assert(ss.subrange(0, i as int) =~= ss);
        self.sessions = kept;
    }

    /// Lease cleanup at `now` (ms): drops the sessions idle longer than the
    /// lease, then the clients idle longer than the lease that have no session
    /// left, together with the owner entries named by those clients' ID
    /// strings.
    pub fn cleanup_expired(&mut self, now: u64)
        ensures
            final(self).session_list() == live_sessions(old(self).session_list(), now),
            final(self).client_list() == clients_kept(old(self).client_list(), final(self).session_list(), now),
            final(self).owner_list() == owners_kept(old(self).owner_list(),
                clients_removed(old(self).client_list(), final(self).session_list(), now)),
            final(self).open_files == old(self).open_files,
            final(self).locks == old(self).locks,
            final(self).writeverf == old(self).writeverf,
            final(self).client_counter == old(self).client_counter,
            final(self).open_counter == old(self).open_counter,
            final(self).lock_counter == old(self).lock_counter,
    {
        self.drop_expired_sessions(now);
        let ghost ss = self.session_list();
        let ghost cs = self.client_list();
        let mut kept: Vec<ClientRecord> = Vec::new();
        let mut removed: Vec<ClientRecord> = Vec::new();
        let mut i: usize = 0;
        while i < self.clients.len()
            invariant
                i <= self.clients@.len(),
                ss == self.session_list(),
                cs == self.client_list(),
                cs.len() == self.clients@.len(),
                client_views(kept@) == clients_kept(cs.subrange(0, i as int), ss, now),
                client_views(removed@) == clients_removed(cs.subrange(0, i as int), ss, now),
            decreases self.clients@.len() - i,
        {
            assert(cs[i as int] == self.clients@[i as int]@);
            proof {
                reveal(Seq::filter);
                assert(cs.subrange(0, i + 1).drop_last() =~= cs.subrange(0, i as int));
            }
            let gone = is_expired(self.clients[i].last_used, now) && self.find_client_session(self.clients[i].client_id).is_none();
            let c = clone_client(&self.clients[i]);
            if gone {
                let ghost before = removed@;
                removed.push(c);
                assert(client_views(removed@) =~= client_views(before).push(cs[i as int]));
            } else {
                let ghost before = kept@;
                kept.push(c);
                assert(client_views(kept@) =~= client_views(before).push(cs[i as int]));
            }
            i += 1;
        }
        assert(cs.subrange(0, i as int) =~= cs);
        self.clients = kept;
        let ghost os = self.owner_list();
        let ghost rm = client_views(removed@);
        let mut kept_owners: Vec<OwnerEntry> = Vec::new();
        let mut j: usize = 0;
        while j < self.owners.len()
            invariant
                j <= self.owners@.len(),
                os == self.owner_list(),
                os.len() == self.owners@.len(),
                rm == client_views(removed@),
                owner_views(kept_owners@) == owners_kept(os.subrange(0, j as int), rm),
            decreases self.owners@.len() - j,
        {
            assert(os[j as int] == self.owners@[j as int]@);
            proof {
                reveal(Seq::filter);
                assert(os.subrange(0, j + 1).drop_last() =~= os.subrange(0, j as int));
            }
            if index_by_id(&removed, self.owners[j].client_id).is_none() {
                let o = OwnerEntry { owner: clone_bytes(&self.owners[j].owner), client_id: self.owners[j].client_id };
                let ghost before = kept_owners@;
                kept_owners.push(o);
                assert(owner_views(kept_owners@) =~= owner_views(before).push(os[j as int]));
            }
            j += 1;
        }
        assert(os.subrange(0, j as int) =~= os);
        self.owners = kept_owners;
    }
}


/// Filtering keeps a sequence whole when every element passes.
pub proof fn lemma_filter_all<T>(s: Seq<T>, f: spec_fn(T) -> bool)
    requires
        forall|i: int| 0 <= i < s.len() ==> f(#[trigger] s[i]),
    ensures
        s.filter(f) == s,
    decreases s.len(),
{
    reveal(Seq::filter);
    if s.len() > 0 {
        lemma_filter_all(s.drop_last(), f);
        assert(s.drop_last().push(s.last()) =~= s);
    }
}

/// Once a lock is granted, a LOCK or LOCKT on the same file whose range
/// and type conflict with it is denied, and the lock it reports conflicts.
pub proof fn lemma_granted_lock_blocks(ls: Seq<LockView>, l: LockView, t: u32, off: u64, len: u64)
    requires
        conflicts(l, l.file, t, off, len),
    ensures
        first_conflict(ls.push(l), l.file, t, off, len) is Some,
        first_conflict(ls.push(l), l.file, t, off, len) matches Some(k)
            ==> 0 <= k < ls.len() + 1 && conflicts(ls.push(l)[k], l.file, t, off, len),
{
    let f = |x: LockView| conflicts(x, l.file, t, off, len);
    lemma_first_index_push(ls, l, f);
    lemma_first_index(ls.push(l), f, 0);
}

/// Two read locks (blocking or not) never conflict.
pub proof fn lemma_read_locks_share(l: LockView, file: u64, t: u32, off: u64, len: u64)
    requires
        t == READ_LT || t == READW_LT,
        l.lock_type == READ_LT || l.lock_type == READW_LT,
    ensures
        !conflicts(l, file, t, off, len),
{
}

/// LOCKU with the arguments of a granted lock undoes it: when no other held
/// lock matches those arguments, the table after LOCK then LOCKU is the table
/// before LOCK.
pub proof fn lemma_unlock_undoes_lock(ls: Seq<LockView>, l: LockView)
    requires
        forall|i: int| 0 <= i < ls.len() ==> !releases(#[trigger] ls[i], l.file, l.lock_type, l.offset, l.length, l.lock_owner),
    ensures
        locks_after_unlock(ls.push(l), l.file, l.lock_type, l.offset, l.length, l.lock_owner) == ls,
{
    let f = |x: LockView| !releases(x, l.file, l.lock_type, l.offset, l.length, l.lock_owner);
    reveal(Seq::filter);
    assert(ls.push(l).drop_last() =~= ls);
    lemma_filter_all(ls, f);
}

/// After LOCKU no held lock matches its arguments.
pub proof fn lemma_unlock_releases(ls: Seq<LockView>, file: u64, t: u32, off: u64, len: u64, owner: Seq<u8>)
    ensures
        forall|i: int| 0 <= i < locks_after_unlock(ls, file, t, off, len, owner).len()
            ==> !releases(#[trigger] locks_after_unlock(ls, file, t, off, len, owner)[i], file, t, off, len, owner),
{
    broadcast use vstd::seq_lib::group_filter_ensures;
}

/// After the lease cleanup no session has expired, and every client that
/// still has a session, or has been used within the lease, is kept.
pub proof fn lemma_cleanup_keeps_live(ss: Seq<SessionView>, cs: Seq<ClientView>, now: u64)
    ensures
        forall|i: int| 0 <= i < live_sessions(ss, now).len() ==> !expired(#[trigger] live_sessions(ss, now)[i].last_used, now),
        forall|i: int| 0 <= i < cs.len() && !client_gone(live_sessions(ss, now), now)(cs[i])
            ==> #[trigger] clients_kept(cs, live_sessions(ss, now), now).contains(cs[i]),
{
    broadcast use vstd::seq_lib::group_filter_ensures;
    let g = client_gone(live_sessions(ss, now), now);
    assert forall|i: int| 0 <= i < cs.len() && !g(cs[i]) implies #[trigger] clients_kept(cs, live_sessions(ss, now), now).contains(cs[i]) by {
        assert((|c: ClientView| !g(c))(cs[i]));
    }
}

/// After the lease cleanup no owner entry still names a removed client, and
/// every owner entry of a client that stays is kept.
pub proof fn lemma_cleanup_drops_owners(os: Seq<OwnerView>, removed: Seq<ClientView>)
    ensures
        forall|i: int| 0 <= i < owners_kept(os, removed).len()
            ==> client_index(removed, #[trigger] owners_kept(os, removed)[i].client_id) is None,
        forall|i: int| 0 <= i < os.len() && client_index(removed, os[i].client_id) is None
            ==> #[trigger] owners_kept(os, removed).contains(os[i]),
{
    broadcast use vstd::seq_lib::group_filter_ensures;
    let f = |o: OwnerView| client_index(removed, o.client_id) is None;
    assert forall|i: int| 0 <= i < owners_kept(os, removed).len()
        implies client_index(removed, #[trigger] owners_kept(os, removed)[i].client_id) is None by {
        assert(f(os.filter(f)[i]));
    }
    assert forall|i: int| 0 <= i < os.len() && client_index(removed, os[i].client_id) is None
        implies #[trigger] owners_kept(os, removed).contains(os[i]) by {
        assert(f(os[i]));
    }
}

/// A search over a sequence with a matching element finds one.
proof fn lemma_first_index_found<T>(s: Seq<T>, f: spec_fn(T) -> bool, k: int)
    requires
        0 <= k < s.len(),
        f(s[k]),
    ensures
        first_index(s, f) is Some,
    decreases s.len(),
{
    if !f(s[0]) {
        assert(s.drop_first()[k - 1] == s[k]);
        lemma_first_index_found(s.drop_first(), f, k - 1);
    }
}

/// A held write lock excludes every other lock on an overlapping range of
/// the same file, a read lock included; and a new write lock is excluded by
/// every held lock it overlaps. Ranges are `[offset, offset + length)`,
/// capped at the largest offset.
pub proof fn lemma_write_lock_excludes(l: LockView, file: u64, t: u32, off: u64, len: u64)
    requires
        l.file == file,
        off < l.offset + l.length,
        l.offset < off + len,
        off < u64::MAX,
        l.offset < u64::MAX,
    ensures
        l.lock_type == WRITE_LT || l.lock_type == WRITEW_LT ==> conflicts(l, file, t, off, len),
        t == WRITE_LT || t == WRITEW_LT ==> conflicts(l, file, t, off, len),
{
}

/// Locks on different files, or on ranges that do not overlap, never
/// conflict, whatever their types.
pub proof fn lemma_disjoint_locks_share(l: LockView, file: u64, t: u32, off: u64, len: u64)
    requires
        l.file != file || off >= l.offset + l.length || l.offset >= off + len,
    ensures
        !conflicts(l, file, t, off, len),
{
}

/// LOCK and LOCKT are refused when any held lock is a write lock on an
/// overlapping range of the same file, whatever type is asked for: the
/// search for a conflict finds one, and it names a lock that overlaps the
/// range on that file.
pub proof fn lemma_held_write_lock_denies(ls: Seq<LockView>, k: int, file: u64, t: u32, off: u64, len: u64)
    requires
        0 <= k < ls.len(),
        ls[k].file == file,
        ls[k].lock_type == WRITE_LT || ls[k].lock_type == WRITEW_LT,
        off < ls[k].offset + ls[k].length,
        ls[k].offset < off + len,
        off < u64::MAX,
        ls[k].offset < u64::MAX,
    ensures
        first_conflict(ls, file, t, off, len) is Some,
        first_conflict(ls, file, t, off, len) matches Some(j) ==> 0 <= j < ls.len() && ls[j].file == file,
{
    let f = |l: LockView| conflicts(l, file, t, off, len);
    lemma_write_lock_excludes(ls[k], file, t, off, len);
    lemma_first_index_found(ls, f, k);
    lemma_first_index_some(ls, f);
}

} // verus!
