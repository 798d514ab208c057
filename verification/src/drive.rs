//! Rules of the Windows drive integration and the desktop shell: drive
//! letters, Explorer mount-point names, network share prefixes, sync-root
//! folder names and command-line switches.
use vstd::prelude::*;
use crate::text::{
    ascii_lower_seq, ascii_upper, chars_end_with, chars_of, chars_start_with, chars_to_ascii_lower, push_decimal, str_eq, string_from_chars, to_ascii_upper, trim_chars, trimmed, decimal_text,
};

verus! {

broadcast use vstd::string::group_string_axioms;

/// The message for a drive letter outside D to Z.
pub open spec fn drive_letter_error() -> Seq<char> {
    "Drive letter must be a single letter from D to Z"@
}

/// Whether `c` is an ASCII letter.
pub open spec fn is_ascii_letter(c: char) -> bool {
    ('a' <= c && c <= 'z') || ('A' <= c && c <= 'Z')
}

/// The drive letter that `value` names, after trimming and dropping one
/// trailing `:`; `None` for blank input, an error for anything but a single
/// letter from D to Z (in either case).
pub open spec fn drive_letter_outcome(value: Option<Seq<char>>) -> Result<Option<char>, Seq<char>> {
    match value {
        None => Ok(None),
        Some(v) => {
            let t = trimmed(v);
            if t.len() == 0 {
                Ok(None)
            } else {
                let s = if t.last() == ':' { t.drop_last() } else { t };
                if s.len() == 1 && is_ascii_letter(s[0]) && 'D' <= ascii_upper(s[0]) && ascii_upper(s[0]) <= 'Z' {
                    Ok(Some(ascii_upper(s[0])))
                } else {
                    Err(drive_letter_error())
                }
            }
        },
    }
}

/// Reads an optional drive letter setting.
pub fn normalize_drive_letter(value: Option<&str>) -> (r: Result<Option<char>, String>)
    ensures
        match drive_letter_outcome(match value { Some(v) => Some(v@), None => None }) {
            Ok(letter) => r == Ok::<Option<char>, String>(letter),
            Err(m) => r matches Err(e) && e@ == m,
        },
{
    let v = match value {
        None => return Ok(None),
        Some(v) => v,
    };
    let chars = chars_of(v);
    let t = trim_chars(chars.as_slice());
    if t.len() == 0 {
        return Ok(None);
    }
    let len = if t[t.len() - 1] == ':' { t.len() - 1 } else { t.len() };
    proof {
        let s = if t@.last() == ':' { t@.drop_last() } else { t@ };
        assert(s.len() == len);
        if len > 0 {
            assert(s[0] == t@[0]);
        }
    }
    if len == 1 {
        let c = t[0];
        let is_letter = ('a' <= c && c <= 'z') || ('A' <= c && c <= 'Z');
        if is_letter {
            let upper = to_ascii_upper(c);
            if 'D' <= upper && upper <= 'Z' {
                return Ok(Some(upper));
            }
        }
    }
    Err(String::from_str("Drive letter must be a single letter from D to Z"))
}

/// Whether the arguments ask the application to quit for uninstallation.
pub fn is_uninstall_quit_request(arguments: &[String]) -> (r: bool)
    ensures
        r == exists|i: int| 0 <= i < arguments@.len() && arguments@[i]@ == "--quit-for-uninstall"@,
{
    let n = arguments.len();
    for i in 0..n
        invariant
            n == arguments@.len(),
            forall|k: int| 0 <= k < i ==> arguments@[k]@ != "--quit-for-uninstall"@,
    {
        if str_eq(arguments[i].as_str(), "--quit-for-uninstall") {
            return true;
        }
    }
    false
}

/// Whether an Explorer mount-point entry belongs to this application.
pub fn is_bifrost_mount_point(entry: &str) -> (r: bool)
    ensures
        r == ({
            let lower = ascii_lower_seq(entry@);
            "##bifrost"@.len() <= lower.len() && lower.take("##bifrost"@.len() as int) == "##bifrost"@
        }),
{
    let chars = chars_of(entry);
    let lower = chars_to_ascii_lower(chars.as_slice());
    let prefix = chars_of("##bifrost");
    chars_start_with(lower.as_slice(), prefix.as_slice())
}

/// Whether `c` is a control character (`char::is_control`).
pub open spec fn is_control_char(c: char) -> bool {
    (c as u32) <= 0x1f || (0x7f <= (c as u32) && (c as u32) <= 0x9f)
}

/// The characters a share label may not hold as they are.
pub open spec fn is_share_forbidden(c: char) -> bool {
    c == '\\' || c == '/' || c == ':' || c == '*' || c == '?' || c == '"' || c == '<' || c == '>' || c == '|'
        || is_control_char(c)
}

/// A label with forbidden characters replaced by `_`.
pub open spec fn share_replaced(label: Seq<char>) -> Seq<char> {
    label.map_values(|c: char| if is_share_forbidden(c) { '_' } else { c })
}

/// The length of the leading run of dots.
pub open spec fn leading_dots(s: Seq<char>) -> nat
    decreases s.len(),
{
    if s.len() > 0 && s[0] == '.' {
        1 + leading_dots(s.drop_first())
    } else {
        0
    }
}

/// The length of the trailing run of dots.
pub open spec fn trailing_dots(s: Seq<char>) -> nat
    decreases s.len(),
{
    if s.len() > 0 && s.last() == '.' {
        1 + trailing_dots(s.drop_last())
    } else {
        0
    }
}

/// `s` without leading and trailing dots.
pub open spec fn without_dots(s: Seq<char>) -> Seq<char> {
    let rest = s.skip(leading_dots(s) as int);
    rest.take(rest.len() - trailing_dots(rest))
}

/// The share name made from a volume label: forbidden characters become `_`,
/// then white space and dots are trimmed from both ends.
pub open spec fn share_name(label: Seq<char>) -> Seq<char> {
    without_dots(trimmed(share_replaced(label)))
}

proof fn lemma_leading_dots(s: Seq<char>, i: int)
    requires
        0 <= i <= s.len(),
        forall|k: int| 0 <= k < i ==> s[k] == '.',
        i == s.len() || s[i] != '.',
    ensures
        leading_dots(s) == i,
    decreases i,
{
    if i > 0 {
        lemma_leading_dots(s.drop_first(), i - 1);
    }
}

proof fn lemma_trailing_dots(s: Seq<char>, j: int)
    requires
        0 <= j <= s.len(),
        forall|k: int| j <= k < s.len() ==> s[k] == '.',
        j == 0 || s[j - 1] != '.',
    ensures
        trailing_dots(s) == s.len() - j,
    decreases s.len() - j,
{
    if j < s.len() {
        lemma_trailing_dots(s.drop_last(), j);
    }
}

/// The characters of `s` without leading and trailing dots.
fn strip_dots(s: &[char]) -> (out: Vec<char>)
    ensures
        out@ == without_dots(s@),
{
    let n = s.len();
    let mut i: usize = 0;
    while i < n && s[i] == '.'
        invariant
            n == s@.len(),
            i <= n,
            forall|k: int| 0 <= k < i ==> s@[k] == '.',
        decreases n - i,
    {
        i = i + 1;
    }
    proof {
        lemma_leading_dots(s@, i as int);
    }
    let mut j: usize = n;
    while j > i && s[j - 1] == '.'
        invariant
            n == s@.len(),
            i <= j <= n,
            forall|k: int| j <= k < n ==> s@[k] == '.',
        decreases j,
    {
        j = j - 1;
    }
    let ghost rest = s@.skip(i as int);
    proof {
        assert forall|k: int| j - i <= k < rest.len() implies rest[k] == '.' by {
            assert(rest[k] == s@[k + i]);
        }
        if j > i {
            assert(rest[j - i - 1] == s@[j - 1]);
        }
        lemma_trailing_dots(rest, (j - i) as int);
    }
    let mut out: Vec<char> = Vec::new();
    for k in i..j
        invariant
            i <= j <= n == s@.len(),
            rest == s@.skip(i as int),
            out@ == rest.take(k - i),
    {
        out.push(s[k]);
        proof {
            assert(rest.take(k + 1 - i) == rest.take(k - i).push(s@[k as int]));
        }
    }
    out
}

/// The share name for a volume label.
pub fn sanitize_share_name(label: &str) -> (out: Vec<char>)
    ensures
        out@ == share_name(label@),
{
    let chars = chars_of(label);
    let n = chars.len();
    let mut replaced: Vec<char> = Vec::new();
    for i in 0..n
        invariant
            n == chars@.len(),
            chars@ == label@,
            replaced@ == share_replaced(chars@.take(i as int)),
    {
        let c = chars[i];
        let code = c as u32;
        let forbidden = c == '\\' || c == '/' || c == ':' || c == '*' || c == '?' || c == '"' || c == '<' || c == '>'
            || c == '|' || code <= 0x1f || (0x7f <= code && code <= 0x9f);
        replaced.push(if forbidden { '_' } else { c });
        proof {
            assert(share_replaced(chars@.take(i + 1)) =~= share_replaced(chars@.take(i as int)).push(if forbidden { '_' } else { c }));
        }
    }
    proof {
        assert(chars@.take(n as int) == chars@);
    }
    let t = trim_chars(replaced.as_slice());
    strip_dots(t.as_slice())
}

/// The WinFsp volume prefix for a mounted label: `\bifrost-<process>-<mount>\<share>`,
/// where an empty share name becomes `Bifrost Drive`.
pub open spec fn network_prefix_text(label: Seq<char>, process_id: u32, mount_id: u64) -> Seq<char> {
    let share = share_name(label);
    "\\bifrost-"@ + decimal_text(process_id as nat) + "-"@ + decimal_text(mount_id as nat) + "\\"@
        + if share.len() == 0 { "Bifrost Drive"@ } else { share }
}

/// The WinFsp volume prefix for a mount of `label` by process `process_id`
/// with per-process mount number `mount_id`.
pub fn network_prefix(label: &str, process_id: u32, mount_id: u64) -> (r: String)
    ensures
        r@ == network_prefix_text(label@, process_id, mount_id),
{
    let share = sanitize_share_name(label);
    let mut out = String::from_str("\\bifrost-");
    push_decimal(&mut out, process_id as u64);
    out.append("-");
    push_decimal(&mut out, mount_id);
    out.append("\\");
    if share.len() == 0 {
        out.append("Bifrost Drive");
    } else {
        let text = string_from_chars(share.as_slice());
        out.append(text.as_str());
    }
    out
}

/// Whether an Explorer mount-point entry belongs to this application and to
/// the share made from `label` (ignoring ASCII case).
pub fn is_mount_point_for_share(entry: &str, label: &str) -> (r: bool)
    ensures
        r == ({
            let lower = ascii_lower_seq(entry@);
            let suffix = seq!['#'] + ascii_lower_seq(share_name(label@));
            &&& "##bifrost"@.len() <= lower.len() && lower.take("##bifrost"@.len() as int) == "##bifrost"@
            &&& suffix.len() <= lower.len() && lower.skip(lower.len() - suffix.len()) == suffix
        }),
{
    if !is_bifrost_mount_point(entry) {
        return false;
    }
    let share = sanitize_share_name(label);
    let share_lower = chars_to_ascii_lower(share.as_slice());
    let mut suffix: Vec<char> = Vec::new();
    suffix.push('#');
    let k = share_lower.len();
    for i in 0..k
        invariant
            k == share_lower@.len(),
            suffix@ == seq!['#'] + share_lower@.take(i as int),
    {
        suffix.push(share_lower[i]);
        proof {
            assert(share_lower@.take(i + 1) == share_lower@.take(i as int).push(share_lower@[i as int]));
        }
    }
    proof {
        assert(share_lower@.take(k as int) == share_lower@);
    }
    let chars = chars_of(entry);
    let lower = chars_to_ascii_lower(chars.as_slice());
    chars_end_with(lower.as_slice(), suffix.as_slice())
}

/// A character kept in a sync-root folder name.
pub open spec fn is_folder_safe(c: char) -> bool {
    ('a' <= c && c <= 'z') || ('A' <= c && c <= 'Z') || ('0' <= c && c <= '9') || c == ' ' || c == '-' || c == '_'
}

/// The folder name for a connection's sync root: unsafe characters become
/// `_`, white space and dots are trimmed, an empty name becomes `connection`,
/// and the connection identifier follows after a `-`.
pub open spec fn sync_root_folder_text(name: Seq<char>, id_text: Seq<char>) -> Seq<char> {
    let safe = without_dots(trimmed(name.map_values(|c: char| if is_folder_safe(c) { c } else { '_' })));
    (if safe.len() == 0 { "connection"@ } else { safe }) + "-"@ + id_text
}

/// The folder name of a connection's sync root.
pub fn sync_root_folder_name(name: &str, id_text: &str) -> (r: String)
    ensures
        r@ == sync_root_folder_text(name@, id_text@),
{
    let chars = chars_of(name);
    let n = chars.len();
    let mut replaced: Vec<char> = Vec::new();
    for i in 0..n
        invariant
            n == chars@.len(),
            chars@ == name@,
            replaced@ == chars@.take(i as int).map_values(|c: char| if is_folder_safe(c) { c } else { '_' }),
    {
        let c = chars[i];
        let safe = ('a' <= c && c <= 'z') || ('A' <= c && c <= 'Z') || ('0' <= c && c <= '9') || c == ' ' || c == '-'
            || c == '_';
        replaced.push(if safe { c } else { '_' });
        proof {
            assert(chars@.take(i + 1).map_values(|c: char| if is_folder_safe(c) { c } else { '_' })
                =~= chars@.take(i as int).map_values(|c: char| if is_folder_safe(c) { c } else { '_' }).push(
                if safe { c } else { '_' },
            ));
        }
    }
    proof {
        assert(chars@.take(n as int) == chars@);
    }
    let t = trim_chars(replaced.as_slice());
    let safe = strip_dots(t.as_slice());
    let mut out = if safe.len() == 0 {
        String::from_str("connection")
    } else {
        string_from_chars(safe.as_slice())
    };
    out.append("-");
    out.append(id_text);
    out
}

/// Which Explorer mount-point entries a cleanup removes.
#[derive(Debug)]
pub enum MountPointFilter {
    /// Every entry of this application.
    AllBifrost,
    /// The entries of this application for the share made from a label.
    Share(String),
}

/// Whether a cleanup with `filter` removes `entry`.
pub open spec fn filter_removes(filter: MountPointFilter, entry: Seq<char>) -> bool {
    let lower = ascii_lower_seq(entry);
    &&& "##bifrost"@.len() <= lower.len() && lower.take("##bifrost"@.len() as int) == "##bifrost"@
    &&& match filter {
        MountPointFilter::AllBifrost => true,
        MountPointFilter::Share(label) => {
            let suffix = seq!['#'] + ascii_lower_seq(share_name(label@));
            suffix.len() <= lower.len() && lower.skip(lower.len() - suffix.len()) == suffix
        },
    }
}

/// The cleanup that removes every mount-point entry of this application.
pub fn cleanup_bifrost_mount_points() -> (f: MountPointFilter)
    ensures
        f is AllBifrost,
{
    MountPointFilter::AllBifrost
}

/// The cleanup that removes the mount-point entries of the share made from
/// `share`.
pub fn cleanup_bifrost_mount_points_for_share(share: &str) -> (f: MountPointFilter)
    ensures
        f matches MountPointFilter::Share(label) && label@ == share@,
{
    MountPointFilter::Share(String::from_str(share))
}

/// Whether a cleanup removes a mount-point entry.
pub fn should_remove_mount_point(filter: &MountPointFilter, entry: &str) -> (r: bool)
    ensures
        r == filter_removes(*filter, entry@),
{
    match filter {
        MountPointFilter::AllBifrost => is_bifrost_mount_point(entry),
        MountPointFilter::Share(label) => is_mount_point_for_share(entry, label.as_str()),
    }
}

/// The registry index to read next: a removed entry shifts the following
/// ones down, so the index stays; otherwise it moves on.
pub fn next_mount_point_index(removed: bool, index: u32) -> (r: u32)
    requires
        index < u32::MAX,
    ensures
        r == if removed { index } else { (index + 1) as u32 },
{
    if removed { index } else { index + 1 }
}

/// The NUL-terminated UTF-16 form of a text, as Windows APIs take it.
pub fn windows_wide_null(value: &str) -> (out: Vec<u16>)
    ensures
        out@ == crate::cfapi::utf16_of(value@).push(0u16),
{
    crate::cfapi::wide(value)
}

/// How an SFTP connection signs in when its settings do not say.
pub fn default_sftp_authentication() -> (r: String)
    ensures
        r@ == "password"@,
{
    String::from_str("password")
}

} // verus!
