//! Why a second instance does not start.

use vstd::prelude::*;

use crate::error::{Error, IoErrorKind};
use crate::text::join_text;

verus! {

/// Why the lock of an instance was not taken.
#[derive(Debug, PartialEq, Eq)]
pub enum InstanceLockError {
    AlreadyRunning,
    Io(Error),
}

impl InstanceLockError {
    /// The message shown for this error.
    pub open spec fn text(self) -> Seq<char> {
        match self {
            InstanceLockError::AlreadyRunning =>
                "此数据目录已由另一个 P2P File 桌面实例使用"@,
            InstanceLockError::Io(error) => "无法取得桌面实例锁："@ + error.message(),
        }
    }

    /// The message shown for this error.
    pub fn message(&self) -> (text: String)
        ensures
            text@ == self.text(),
    {
        match self {
            InstanceLockError::AlreadyRunning =>
                "此数据目录已由另一个 P2P File 桌面实例使用".to_owned(),
            InstanceLockError::Io(error) => join_text("无法取得桌面实例锁：", error.text()),
        }
    }

    /// What a failed attempt to lock the file means: a lock that is held belongs to a
    /// running instance.
    pub fn from_lock_failure(kind: IoErrorKind, text: String) -> (error: InstanceLockError)
        ensures
            error == if kind == IoErrorKind::WouldBlock {
                InstanceLockError::AlreadyRunning
            } else {
                InstanceLockError::Io(Error::Io { kind, text })
            },
    {
        if kind == IoErrorKind::WouldBlock {
            InstanceLockError::AlreadyRunning
        } else {
            InstanceLockError::Io(Error::Io { kind, text })
        }
    }
}

} // verus!
