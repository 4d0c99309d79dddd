//! NFSv4.x operation numbers, status codes and protocol constants
//! (RFC 7530, RFC 5661, RFC 7862).

use vstd::prelude::*;

verus! {

pub const OP_ACCESS: u32 = 3;
pub const OP_CLOSE: u32 = 4;
pub const OP_COMMIT: u32 = 5;
pub const OP_CREATE: u32 = 6;
pub const OP_DELEGRETURN: u32 = 8;
pub const OP_GETATTR: u32 = 9;
pub const OP_GETFH: u32 = 10;
pub const OP_LINK: u32 = 11;
pub const OP_LOCK: u32 = 12;
pub const OP_LOCKT: u32 = 13;
pub const OP_LOCKU: u32 = 14;
pub const OP_LOOKUP: u32 = 15;
pub const OP_LOOKUPP: u32 = 16;
pub const OP_NVERIFY: u32 = 17;
pub const OP_OPEN: u32 = 18;
pub const OP_OPENATTR: u32 = 19;
pub const OP_OPEN_CONFIRM: u32 = 20;
pub const OP_OPEN_DOWNGRADE: u32 = 21;
pub const OP_PUTFH: u32 = 22;
pub const OP_PUTPUBFH: u32 = 23;
pub const OP_PUTROOTFH: u32 = 24;
pub const OP_READ: u32 = 25;
pub const OP_READDIR: u32 = 26;
pub const OP_READLINK: u32 = 27;
pub const OP_REMOVE: u32 = 28;
pub const OP_RENAME: u32 = 29;
pub const OP_RENEW: u32 = 30;
pub const OP_RESTOREFH: u32 = 31;
pub const OP_SAVEFH: u32 = 32;
pub const OP_SECINFO: u32 = 33;
pub const OP_SETATTR: u32 = 34;
pub const OP_SETCLIENTID: u32 = 35;
pub const OP_SETCLIENTID_CONFIRM: u32 = 36;
pub const OP_VERIFY: u32 = 37;
pub const OP_WRITE: u32 = 38;
pub const OP_RELEASE_LOCKOWNER: u32 = 39;
pub const OP_ILLEGAL: u32 = 10044;
pub const OP_EXCHANGE_ID: u32 = 42;
pub const OP_CREATE_SESSION: u32 = 43;
pub const OP_DESTROY_SESSION: u32 = 44;
pub const OP_BIND_CONN_TO_SESSION: u32 = 45;
pub const OP_SECINFO_NO_NAME: u32 = 52;
pub const OP_SEQUENCE: u32 = 53;
pub const OP_DESTROY_CLIENTID: u32 = 57;
pub const OP_RECLAIM_COMPLETE: u32 = 58;
pub const OP_ALLOCATE: u32 = 59;
pub const OP_COPY: u32 = 60;
pub const OP_COPY_NOTIFY: u32 = 61;
pub const OP_DEALLOCATE: u32 = 62;
pub const OP_IO_ADVISE: u32 = 63;
pub const OP_LAYOUTERROR: u32 = 64;
pub const OP_LAYOUTSTATS: u32 = 65;
pub const OP_OFFLOAD_CANCEL: u32 = 66;
pub const OP_OFFLOAD_STATUS: u32 = 67;
pub const OP_READ_PLUS: u32 = 68;
pub const OP_SEEK: u32 = 69;
pub const OP_WRITE_SAME: u32 = 70;
pub const OP_CLONE: u32 = 71;

pub const NFS4_OK: u32 = 0;
pub const NFS4ERR_PERM: u32 = 1;
pub const NFS4ERR_NOENT: u32 = 2;
pub const NFS4ERR_IO: u32 = 5;
pub const NFS4ERR_ACCESS: u32 = 13;
pub const NFS4ERR_EXIST: u32 = 17;
pub const NFS4ERR_NOTDIR: u32 = 20;
pub const NFS4ERR_ISDIR: u32 = 21;
pub const NFS4ERR_INVAL: u32 = 22;
pub const NFS4ERR_NOSPC: u32 = 28;
pub const NFS4ERR_ROFS: u32 = 30;
pub const NFS4ERR_NOTEMPTY: u32 = 66;
pub const NFS4ERR_STALE: u32 = 70;
pub const NFS4ERR_BADHANDLE: u32 = 10001;
pub const NFS4ERR_NOTSUPP: u32 = 10004;
pub const NFS4ERR_SERVERFAULT: u32 = 10006;
pub const NFS4ERR_BADTYPE: u32 = 10007;
pub const NFS4ERR_SAME: u32 = 10009;
pub const NFS4ERR_DENIED: u32 = 10010;
pub const NFS4ERR_CLID_INUSE: u32 = 10017;
pub const NFS4ERR_RESOURCE: u32 = 10018;
pub const NFS4ERR_NOFILEHANDLE: u32 = 10020;
pub const NFS4ERR_MINOR_VERS_MISMATCH: u32 = 10021;
pub const NFS4ERR_STALE_CLIENTID: u32 = 10022;
pub const NFS4ERR_NOT_SAME: u32 = 10027;
pub const NFS4ERR_RESTOREFH: u32 = 10030;
pub const NFS4ERR_ATTRNOTSUPP: u32 = 10032;
pub const NFS4ERR_BADXDR: u32 = 10036;
pub const NFS4ERR_OP_ILLEGAL: u32 = 10044;
pub const NFS4ERR_BADSESSION: u32 = 10064;

pub const NF4REG: u32 = 1;
pub const NF4DIR: u32 = 2;
pub const NF4LNK: u32 = 5;

pub const OPEN4_NOCREATE: u32 = 0;
pub const OPEN4_CREATE: u32 = 1;
pub const CLAIM_NULL: u32 = 0;

pub const READ_LT: u32 = 1;
pub const WRITE_LT: u32 = 2;
pub const READW_LT: u32 = 3;
pub const WRITEW_LT: u32 = 4;

/// Most operations one COMPOUND may carry.
pub const MAX_OPS_PER_COMPOUND: usize = 64;

/// Seconds of idleness after which a session or client lease expires.
pub const LEASE_TIMEOUT_SECS: u64 = 300;

} // verus!
