//! The decisions of the WinFsp drive: Windows paths become remote paths,
//! errors become NTSTATUS codes, and reads are served from a read-ahead
//! window that is fetched from the provider in the background.
use vstd::prelude::*;
use crate::path::{parse_outcome, RemotePath};
use crate::storage::StorageError;
use crate::text::{chars_of, string_from_chars};

verus! {

broadcast use vstd::string::group_string_axioms;

/// Why a drive operation failed.
#[derive(Debug)]
pub enum WinFspFilesystemError {
    Storage(StorageError),
    InvalidPath(String),
    AlreadyExists(RemotePath),
    IsDirectory(RemotePath),
    NotDirectory(RemotePath),
    DirectoryNotEmpty(RemotePath),
    NotWritable(RemotePath),
    Staging(String),
    Io(String),
}

/// The number of leading `\` and `/` characters.
pub open spec fn leading_separators(s: Seq<char>) -> nat
    decreases s.len(),
{
    if s.len() > 0 && (s[0] == '\\' || s[0] == '/') {
        1 + leading_separators(s.drop_first())
    } else {
        0
    }
}

proof fn lemma_leading_separators(s: Seq<char>, i: int)
    requires
        0 <= i <= s.len(),
        forall|k: int| 0 <= k < i ==> s[k] == '\\' || s[k] == '/',
        i == s.len() || !(s[i] == '\\' || s[i] == '/'),
    ensures
        leading_separators(s) == i,
    decreases i,
{
    if i > 0 {
        lemma_leading_separators(s.drop_first(), i - 1);
    }
}

/// The remote path for a path of the mounted drive: leading separators are
/// dropped and the rest is parsed; a path that does not parse is invalid.
pub fn remote_path_from_windows(path: &str) -> (r: Result<RemotePath, WinFspFilesystemError>)
    ensures
        ({
            let relative = path@.skip(leading_separators(path@) as int);
            match parse_outcome(relative) {
                Ok(p) => r matches Ok(rp) && rp@ == p,
                Err(_) => r matches Err(WinFspFilesystemError::InvalidPath(m)) && m@ == path@,
            }
        }),
{
    let chars = chars_of(path);
    let n = chars.len();
    let mut i: usize = 0;
    while i < n && (chars[i] == '\\' || chars[i] == '/')
        invariant
            n == chars@.len(),
            i <= n,
            forall|k: int| 0 <= k < i ==> chars@[k] == '\\' || chars@[k] == '/',
        decreases n - i,
    {
        i = i + 1;
    }
    proof {
        lemma_leading_separators(chars@, i as int);
    }
    let mut rest: Vec<char> = Vec::new();
    for k in i..n
        invariant
            i <= n == chars@.len(),
            rest@ == chars@.subrange(i as int, k as int),
    {
        rest.push(chars[k]);
        proof {
            assert(chars@.subrange(i as int, k + 1) == chars@.subrange(i as int, k as int).push(chars@[k as int]));
        }
    }
    proof {
        assert(chars@.subrange(i as int, n as int) == chars@.skip(i as int));
    }
    let relative = string_from_chars(rest.as_slice());
    match RemotePath::parse(relative.as_str()) {
        Ok(p) => Ok(p),
        Err(_) => Err(WinFspFilesystemError::InvalidPath(String::from_str(path))),
    }
}

/// `STATUS_OBJECT_NAME_NOT_FOUND`.
pub const STATUS_OBJECT_NAME_NOT_FOUND: i32 = -1073741772;
/// `STATUS_ACCESS_DENIED`.
pub const STATUS_ACCESS_DENIED: i32 = -1073741790;
/// `STATUS_NOT_SUPPORTED`.
pub const STATUS_NOT_SUPPORTED: i32 = -1073741637;
/// `STATUS_INVALID_PARAMETER`.
pub const STATUS_INVALID_PARAMETER: i32 = -1073741811;
/// `STATUS_OBJECT_NAME_COLLISION`.
pub const STATUS_OBJECT_NAME_COLLISION: i32 = -1073741771;
/// `STATUS_FILE_IS_A_DIRECTORY`.
pub const STATUS_FILE_IS_A_DIRECTORY: i32 = -1073741638;
/// `STATUS_NOT_A_DIRECTORY`.
pub const STATUS_NOT_A_DIRECTORY: i32 = -1073741565;
/// `STATUS_DIRECTORY_NOT_EMPTY`.
pub const STATUS_DIRECTORY_NOT_EMPTY: i32 = -1073741567;
/// `STATUS_IO_DEVICE_ERROR`.
pub const STATUS_IO_DEVICE_ERROR: i32 = -1073741435;

/// The NTSTATUS a drive error is reported with.
pub open spec fn status_of(error: WinFspFilesystemError) -> i32 {
    match error {
        WinFspFilesystemError::Storage(StorageError::NotFound { .. }) => STATUS_OBJECT_NAME_NOT_FOUND,
        WinFspFilesystemError::Storage(StorageError::PermissionDenied { .. })
        | WinFspFilesystemError::Storage(StorageError::AuthenticationFailed { .. }) => STATUS_ACCESS_DENIED,
        WinFspFilesystemError::Storage(StorageError::Unsupported { .. }) => STATUS_NOT_SUPPORTED,
        WinFspFilesystemError::InvalidPath(_) => STATUS_INVALID_PARAMETER,
        WinFspFilesystemError::AlreadyExists(_) => STATUS_OBJECT_NAME_COLLISION,
        WinFspFilesystemError::IsDirectory(_) => STATUS_FILE_IS_A_DIRECTORY,
        WinFspFilesystemError::NotDirectory(_) => STATUS_NOT_A_DIRECTORY,
        WinFspFilesystemError::DirectoryNotEmpty(_) => STATUS_DIRECTORY_NOT_EMPTY,
        WinFspFilesystemError::NotWritable(_) => STATUS_ACCESS_DENIED,
        _ => STATUS_IO_DEVICE_ERROR,
    }
}

/// The NTSTATUS for a drive error.
pub fn status_from_error(error: &WinFspFilesystemError) -> (status: i32)
    ensures
        status == status_of(*error),
{
    match error {
        WinFspFilesystemError::Storage(StorageError::NotFound { .. }) => STATUS_OBJECT_NAME_NOT_FOUND,
        WinFspFilesystemError::Storage(StorageError::PermissionDenied { .. })
        | WinFspFilesystemError::Storage(StorageError::AuthenticationFailed { .. }) => STATUS_ACCESS_DENIED,
        WinFspFilesystemError::Storage(StorageError::Unsupported { .. }) => STATUS_NOT_SUPPORTED,
        WinFspFilesystemError::InvalidPath(_) => STATUS_INVALID_PARAMETER,
        WinFspFilesystemError::AlreadyExists(_) => STATUS_OBJECT_NAME_COLLISION,
        WinFspFilesystemError::IsDirectory(_) => STATUS_FILE_IS_A_DIRECTORY,
        WinFspFilesystemError::NotDirectory(_) => STATUS_NOT_A_DIRECTORY,
        WinFspFilesystemError::DirectoryNotEmpty(_) => STATUS_DIRECTORY_NOT_EMPTY,
        WinFspFilesystemError::NotWritable(_) => STATUS_ACCESS_DENIED,
        _ => STATUS_IO_DEVICE_ERROR,
    }
}

/// Why mounting a drive failed.
#[derive(Debug)]
pub enum WinFspError {
    UnsupportedPlatform,
    RuntimeUnavailable,
    InvalidDriveLetter,
    Initialization(String),
    Mount(i32),
    Runtime(String),
}

/// Readies the WinFsp runtime where no native runtime is linked in: on
/// Windows the runtime is unavailable, elsewhere drives are unsupported.
pub fn initialize(windows_host: bool) -> (r: Result<(), WinFspError>)
    ensures
        windows_host ==> r matches Err(WinFspError::RuntimeUnavailable),
        !windows_host ==> r matches Err(WinFspError::UnsupportedPlatform),
{
    if windows_host {
        Err(WinFspError::RuntimeUnavailable)
    } else {
        Err(WinFspError::UnsupportedPlatform)
    }
}

/// The drive letter a mount uses: an ASCII letter, upper-cased.
pub fn normalized_drive_letter(letter: char) -> (r: Result<char, WinFspError>)
    ensures
        (('a' <= letter && letter <= 'z') || ('A' <= letter && letter <= 'Z')) ==> r == Ok::<char, WinFspError>(crate::text::ascii_upper(letter)),
        !(('a' <= letter && letter <= 'z') || ('A' <= letter && letter <= 'Z')) ==> r matches Err(WinFspError::InvalidDriveLetter),
{
    if ('a' <= letter && letter <= 'z') || ('A' <= letter && letter <= 'Z') {
        Ok(crate::text::to_ascii_upper(letter))
    } else {
        Err(WinFspError::InvalidDriveLetter)
    }
}

/// The mount point for a drive letter, such as `E:`.
pub fn mountpoint(letter: char) -> (r: Result<String, WinFspError>)
    ensures
        (('a' <= letter && letter <= 'z') || ('A' <= letter && letter <= 'Z')) ==> (r matches Ok(s) && s@ == seq![crate::text::ascii_upper(letter), ':']),
        !(('a' <= letter && letter <= 'z') || ('A' <= letter && letter <= 'Z')) ==> r matches Err(WinFspError::InvalidDriveLetter),
{
    let upper = normalized_drive_letter(letter)?;
    let mut s = String::new();
    crate::text::push_char(&mut s, upper);
    crate::text::push_char(&mut s, ':');
    Ok(s)
}

/// `FILE_ATTRIBUTE_HIDDEN`.
pub const FILE_ATTRIBUTE_HIDDEN: u32 = 0x2;
/// `FILE_ATTRIBUTE_DIRECTORY`.
pub const FILE_ATTRIBUTE_DIRECTORY: u32 = 0x10;
/// `FILE_ATTRIBUTE_ARCHIVE`.
pub const FILE_ATTRIBUTE_ARCHIVE: u32 = 0x20;

/// Whether the last component of a path starts with a dot.
pub open spec fn is_dot_name(path: Seq<char>) -> bool {
    match crate::bridge::last_slash(path) {
        Some(k) => k + 1 < path.len() && path[k + 1] == '.',
        None => path.len() > 0 && path[0] == '.',
    }
}

/// The Windows attributes of an item: directory or archive, and hidden for
/// Unix dot files.
pub fn file_attributes(path: &RemotePath, is_directory: bool) -> (attributes: u32)
    ensures
        attributes == (if is_directory { FILE_ATTRIBUTE_DIRECTORY } else { FILE_ATTRIBUTE_ARCHIVE })
            + (if is_dot_name(path@) { FILE_ATTRIBUTE_HIDDEN } else { 0 }),
{
    let chars = chars_of(path.as_str());
    let n = chars.len();
    let mut k: usize = n;
    while k > 0 && chars[k - 1] != '/'
        invariant
            k <= n == chars@.len(),
            forall|j: int| k <= j < n ==> chars@[j] != '/',
        decreases k,
    {
        k = k - 1;
    }
    proof {
        lemma_last_slash_from_end(chars@, k as int);
    }
    let hidden = k < n && chars[k] == '.';
    let base = if is_directory { FILE_ATTRIBUTE_DIRECTORY } else { FILE_ATTRIBUTE_ARCHIVE };
    if hidden { base + FILE_ATTRIBUTE_HIDDEN } else { base }
}

proof fn lemma_last_slash_from_end(s: Seq<char>, k: int)
    requires
        0 <= k <= s.len(),
        forall|j: int| k <= j < s.len() ==> s[j] != '/',
        k == 0 || s[k - 1] == '/',
    ensures
        crate::bridge::last_slash(s) == if k == 0 { None::<int> } else { Some(k - 1) },
    decreases s.len() - k,
{
    if s.len() > k {
        lemma_last_slash_from_end(s.drop_last(), k);
    }
}

/// The space a file of `size` bytes takes in 4096-byte clusters.
pub fn allocation_size(size: u64) -> (r: u64)
    requires
        size <= u64::MAX - 4095,
    ensures
        r % 4096 == 0,
        size <= r < size + 4096,
{
    let clusters = size / 4096 + if size % 4096 == 0 { 0 } else { 1 };
    clusters * 4096
}

} // verus!

verus! {

/// The first read-ahead: one mebibyte.
pub const INITIAL_READ_AHEAD_SIZE: usize = 1024 * 1024;
/// The read-ahead after a sequential read: 32 mebibytes.
pub const SEQUENTIAL_READ_AHEAD_SIZE: usize = 32 * 1024 * 1024;

/// The read-ahead window of an open file: the range `offset..end` being
/// fetched, how many of its bytes have arrived, whether the fetch finished,
/// and whether it failed.
#[derive(Debug, Clone, Copy, PartialEq, Eq, Structural)]
pub struct ReadWindow {
    pub offset: u64,
    pub end: u64,
    pub data_len: usize,
    pub complete: bool,
    pub failed: bool,
}

/// What a read does next.
#[derive(Debug, Clone, Copy, PartialEq, Eq, Structural)]
pub enum ReadStep {
    /// Answer with `len` bytes of the window starting at `from`.
    Serve { from: usize, len: usize },
    /// Answer with no bytes: the read is at or beyond the end of the file.
    Empty,
    /// Report the window's fetch failure.
    Fail,
    /// Wait for more of the window to arrive, then decide again.
    Wait,
    /// Replace the window by a fetch of `offset..end` (`read_length` bytes).
    Fetch { offset: u64, end: u64, read_length: usize },
}

/// `a - b`, or zero.
pub open spec fn sat_sub(a: int, b: int) -> int {
    if a > b { a - b } else { 0 }
}

/// `a + b`, or the largest `u64`.
pub open spec fn sat_add_u64(a: int, b: int) -> int {
    if a + b > u64::MAX { u64::MAX as int } else { a + b }
}

/// The step for a read of `length` bytes at `offset` of a file of
/// `file_size` bytes, given the current window.
pub open spec fn read_step_for(window: Option<ReadWindow>, offset: u64, length: usize, file_size: u64) -> ReadStep {
    if offset >= file_size {
        ReadStep::Empty
    } else {
        let decided: Option<ReadStep> = match window {
            None => None,
            Some(w) => {
                let relative = sat_sub(offset as int, w.offset as int);
                let data_end = sat_add_u64(w.offset as int, w.data_len as int);
                if w.failed {
                    Some(ReadStep::Fail)
                } else if offset >= w.offset && relative < w.data_len && ({
                    let available = if w.data_len - relative < length { w.data_len - relative } else { length as int };
                    let remote_eof = w.complete && w.data_len == sat_sub(w.end as int, w.offset as int) && w.end == file_size;
                    available == length || remote_eof
                }) {
                    let available = if w.data_len - relative < length { w.data_len - relative } else { length as int };
                    Some(ReadStep::Serve { from: relative as usize, len: available as usize })
                } else if w.complete && w.end == file_size && offset >= data_end {
                    Some(ReadStep::Empty)
                } else if offset >= w.offset && offset < w.end && !w.complete {
                    Some(ReadStep::Wait)
                } else if offset == data_end && w.complete && offset < w.end {
                    Some(ReadStep::Empty)
                } else {
                    None
                }
            },
        };
        match decided {
            Some(step) => step,
            None => {
                let sequential = match window {
                    Some(w) => w.complete && offset == sat_add_u64(w.offset as int, w.data_len as int),
                    None => false,
                };
                let ahead: int = if sequential { SEQUENTIAL_READ_AHEAD_SIZE as int } else { INITIAL_READ_AHEAD_SIZE as int };
                let wanted: int = if length >= ahead { length as int } else { ahead };
                let stop = sat_add_u64(offset as int, wanted);
                let end = if stop < file_size { stop } else { file_size as int };
                ReadStep::Fetch { offset, end: end as u64, read_length: (end - offset) as usize }
            },
        }
    }
}

/// Decides how to answer a read from the read-ahead window.
pub fn read_step(window: Option<ReadWindow>, offset: u64, length: usize, file_size: u64) -> (step: ReadStep)
    requires
        window matches Some(w) ==> w.offset <= w.end && w.data_len <= w.end - w.offset,
    ensures
        step == read_step_for(window, offset, length, file_size),
{
    if offset >= file_size {
        return ReadStep::Empty;
    }
    if let Some(w) = window {
        if w.failed {
            return ReadStep::Fail;
        }
        let relative: u64 = if offset > w.offset { offset - w.offset } else { 0 };
        let data_len = w.data_len as u64;
        if offset >= w.offset && relative < data_len {
            let rest = data_len - relative;
            let available: u64 = if rest < length as u64 { rest } else { length as u64 };
            let expected: u64 = w.end - w.offset;
            let remote_eof = w.complete && data_len == expected && w.end == file_size;
            if available == length as u64 || remote_eof {
                return ReadStep::Serve { from: relative as usize, len: available as usize };
            }
        }
        let data_end: u64 = if w.offset > u64::MAX - data_len { u64::MAX } else { w.offset + data_len };
        if w.complete && w.end == file_size && offset >= data_end {
            return ReadStep::Empty;
        }
        if offset >= w.offset && offset < w.end && !w.complete {
            return ReadStep::Wait;
        }
        if offset == data_end && w.complete && offset < w.end {
            return ReadStep::Empty;
        }
    }
    let sequential = match window {
        Some(w) => {
            let data_len = w.data_len as u64;
            let data_end: u64 = if w.offset > u64::MAX - data_len { u64::MAX } else { w.offset + data_len };
            w.complete && offset == data_end
        },
        None => false,
    };
    let ahead: usize = if sequential { SEQUENTIAL_READ_AHEAD_SIZE } else { INITIAL_READ_AHEAD_SIZE };
    let wanted: u64 = if length >= ahead { length as u64 } else { ahead as u64 };
    let stop: u64 = if offset > u64::MAX - wanted { u64::MAX } else { offset + wanted };
    let end: u64 = if stop < file_size { stop } else { file_size };
    ReadStep::Fetch { offset, end, read_length: (end - offset) as usize }
}

/// How one arriving chunk fills a window: the number of its bytes taken (no
/// more than the window still lacks) and whether the window is then full.
pub fn accept_chunk(data_len: usize, read_length: usize, chunk_len: usize) -> (r: (usize, bool))
    requires
        data_len <= read_length,
    ensures
        r.0 == if chunk_len < read_length - data_len { chunk_len } else { (read_length - data_len) as usize },
        r.1 == (data_len + r.0 == read_length),
{
    let remaining = read_length - data_len;
    let take = if chunk_len < remaining { chunk_len } else { remaining };
    (take, data_len + take == read_length)
}

/// A read never answers with fewer bytes than asked unless the window holds
/// the file's last byte; served bytes lie within what arrived; fetches never
/// reach past the end of the file.
pub proof fn lemma_reads_are_complete_or_at_eof(window: Option<ReadWindow>, offset: u64, length: usize, file_size: u64)
    requires
        window matches Some(w) ==> w.offset <= w.end && w.data_len <= w.end - w.offset,
    ensures
        read_step_for(window, offset, length, file_size) matches ReadStep::Serve { from, len } ==> {
            &&& window matches Some(w) && from + len <= w.data_len
            &&& (len < length ==> (window matches Some(w) && w.complete && w.end == file_size && from + len == w.data_len
                    && w.data_len == w.end - w.offset))
        },
        read_step_for(window, offset, length, file_size) matches ReadStep::Fetch { offset: o, end, read_length } ==> {
            &&& o == offset
            &&& offset < end <= file_size
            &&& read_length == end - offset
        },
        read_step_for(window, offset, length, file_size) is Empty ==> offset >= file_size || (window matches Some(w) && w.complete),
{
}

} // verus!
