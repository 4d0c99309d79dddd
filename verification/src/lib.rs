//! Verified core of a user-space NFS server: XDR and ONC-RPC framing,
//! the PORTMAP and MOUNT services, export access control, file-handle
//! management, and the NFSv3 / NFSv4.x protocol state machines.

pub mod config;
pub mod dirlist;
pub mod xdr;
pub mod rpc;
pub mod exports;
pub mod mount;
pub mod net;
pub mod nfs3;
pub mod nfs4_consts;
pub mod nfs4_fs;
pub mod nfs4_attrs;
pub mod nfs4_compound;
pub mod nfs4_ops;
pub mod nfs4_state;
pub mod path_ext;
pub mod paths;
pub mod portmap;
pub mod service_state;
pub mod tls;
