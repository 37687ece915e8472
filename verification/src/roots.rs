//! The folders that make up the library, and the state of their scans.

use vstd::prelude::*;

use crate::numbers::{to_signed, wrapped};
use crate::text::opt_text;

verus! {

/// A folder that is part of the library.
#[derive(Debug)]
pub struct RootInfo {
    pub root_path: String,
    pub label: Option<String>,
    pub status: String,
    pub last_scanned_at: Option<i64>,
    pub total_files: i64,
}

/// The contents of a `RootInfo`.
#[verifier::ext_equal]
pub struct RootView {
    pub root_path: Seq<char>,
    pub label: Option<Seq<char>>,
    pub status: Seq<char>,
    pub last_scanned_at: Option<i64>,
    pub total_files: i64,
}

impl View for RootInfo {
    type V = RootView;

    open spec fn view(&self) -> RootView {
        RootView {
            root_path: self.root_path@,
            label: opt_text(self.label),
            status: self.status@,
            last_scanned_at: self.last_scanned_at,
            total_files: self.total_files,
        }
    }
}

/// A root that was never scanned, in a state of its scan: its label is its
/// path.
pub open spec fn fresh_root(path: Seq<char>, status: Seq<char>) -> RootView {
    RootView {
        root_path: path,
        label: Some(path),
        status,
        last_scanned_at: None,
        total_files: 0,
    }
}

/// The root that is added for a path. Only a folder can be one.
pub fn add_root(path: &str, is_dir: bool) -> (r: Result<RootInfo, String>)
    ensures
        match r {
            Ok(root) => is_dir && root@ == fresh_root(path@, "idle"@),
            Err(message) => !is_dir && message@ == path@ + " is not a directory"@,
        },
{
    if !is_dir {
        let mut message = path.to_owned();
        message.append(" is not a directory");
        return Err(message);
    }
    Ok(
        RootInfo {
            root_path: path.to_owned(),
            label: Some(path.to_owned()),
            status: "idle".to_owned(),
            last_scanned_at: None,
            total_files: 0,
        },
    )
}

/// The root as it stands when its first scan begins. When the root is known
/// already, only its status is taken from here.
pub fn scan_started(path: &str) -> (r: RootInfo)
    ensures
        r@ == fresh_root(path@, "scanning"@),
{
    RootInfo {
        root_path: path.to_owned(),
        label: Some(path.to_owned()),
        status: "scanning".to_owned(),
        last_scanned_at: None,
        total_files: 0,
    }
}

/// The root when its scan is over: it is idle again, and knows when the scan
/// ended and how many files were found.
pub fn scan_finished(path: &str, now: i64, total: u64) -> (r: RootInfo)
    ensures
        r@.root_path == path@,
        r@.label == Some(path@),
        r@.status == "idle"@,
        r@.last_scanned_at == Some(now),
        r@.total_files == wrapped(total),
{
    RootInfo {
        root_path: path.to_owned(),
        label: Some(path.to_owned()),
        status: "idle".to_owned(),
        last_scanned_at: Some(now),
        total_files: to_signed(total),
    }
}

/// The time of a scan, in seconds since the epoch; zero for a clock that is set
/// before it.
pub fn now_secs(since_epoch: Option<u64>) -> (r: i64)
    ensures
        r == match since_epoch {
            Some(secs) => wrapped(secs),
            None => 0,
        },
{
    match since_epoch {
        Some(secs) => to_signed(secs),
        None => 0,
    }
}

} // verus!
