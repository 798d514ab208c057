//! Where remote paths land on file-protocol servers: the start folders that
//! SFTP and MEGA connections are configured with, and how a remote path is
//! spelled on SFTP, SMB and FTP servers.
use vstd::prelude::*;
use crate::path::{join_components, kept_components, normalize_separators, split_components, RemotePath};
use crate::storage::{empty_range_text, ByteRange};
use crate::text::{chars_of, string_from_chars, trim_chars, trimmed};

verus! {

broadcast use vstd::string::group_string_axioms;

/// How an SFTP connection reaches its server. The known-hosts file is a
/// local path's text.
#[derive(Debug, Clone, PartialEq, Eq)]
pub struct SftpConfig {
    pub host: String,
    pub port: u16,
    pub username: String,
    pub known_hosts: String,
    pub root_path: String,
    pub trust_on_first_use: bool,
}

/// How an SFTP connection signs in. The key file is a local path's text.
#[derive(Debug, Clone, PartialEq, Eq)]
pub enum SftpAuthentication {
    Password(String),
    PrivateKey { path: String, passphrase: Option<String> },
}

/// Whether a connection signs in with a private key.
pub fn uses_private_key(authentication: &SftpAuthentication) -> (r: bool)
    ensures
        r == (*authentication is PrivateKey),
{
    match authentication {
        SftpAuthentication::PrivateKey { .. } => true,
        SftpAuthentication::Password(_) => false,
    }
}

/// How a MEGA connection signs in and where it starts.
#[derive(Debug, Clone, PartialEq, Eq)]
pub struct MegaConfig {
    pub email: String,
    pub password: String,
    pub root_path: String,
}

/// The pieces of a start folder between `/` (or `\`) separators, once the
/// text is trimmed.
pub open spec fn start_pieces(value: Seq<char>) -> Seq<Seq<char>> {
    split_components(normalize_separators(trimmed(value)))
}

/// The normalized pieces of a start folder: a `..` piece refuses it.
fn start_components(value: &str) -> (r: (Vec<char>, bool, bool))
    ensures
        r.0@ == join_components(kept_components(start_pieces(value@))),
        r.1 == start_pieces(value@).contains(seq!['.', '.']),
        r.2 == (normalize_separators(trimmed(value@)).len() > 0 && normalize_separators(trimmed(value@))[0] == '/'),
{
    let chars = chars_of(value);
    let t = trim_chars(chars.as_slice());
    let mut n: Vec<char> = Vec::new();
    for i in 0..t.len()
        invariant
            t@ == trimmed(value@),
            n@ == normalize_separators(t@).take(i as int),
    {
        let c = t[i];
        n.push(if c == '\\' { '/' } else { c });
        proof {
            assert(normalize_separators(t@).take(i + 1) =~= n@);
        }
    }
    proof {
        assert(normalize_separators(t@).take(t@.len() as int) =~= normalize_separators(t@));
    }
    let absolute = n.len() > 0 && n[0] == '/';
    let (joined, parent) = RemotePath::joined_components(n.as_slice());
    (joined, parent, absolute)
}

/// The SFTP start folder as it is used: trimmed, with `\` as `/`, without
/// empty or `.` components, and absolute when it was written so; `..` is
/// refused.
pub open spec fn sftp_start(value: Seq<char>) -> Option<Seq<char>> {
    let n = normalize_separators(trimmed(value));
    if start_pieces(value).contains(seq!['.', '.']) {
        None
    } else if n.len() > 0 && n[0] == '/' {
        Some(seq!['/'] + join_components(kept_components(start_pieces(value))))
    } else {
        Some(join_components(kept_components(start_pieces(value))))
    }
}

/// Normalizes an SFTP start folder; a folder with `..` is refused with the
/// reason.
pub fn sftp_normalize_root_path(value: &str) -> (r: Result<String, String>)
    ensures
        match sftp_start(value@) {
            Some(p) => r matches Ok(s) && s@ == p,
            None => r matches Err(m) && m@ == "SFTP start path cannot contain '..'"@,
        },
{
    let (joined, parent, absolute) = start_components(value);
    if parent {
        return Err(String::from_str("SFTP start path cannot contain '..'"));
    }
    if absolute {
        let mut out: Vec<char> = Vec::new();
        out.push('/');
        for i in 0..joined.len()
            invariant
                out@ == seq!['/'] + joined@.take(i as int),
        {
            out.push(joined[i]);
            proof {
                assert(seq!['/'] + joined@.take(i + 1) =~= out@);
            }
        }
        proof {
            assert(joined@.take(joined@.len() as int) =~= joined@);
        }
        Ok(string_from_chars(out.as_slice()))
    } else {
        Ok(string_from_chars(joined.as_slice()))
    }
}

/// The MEGA start folder as the names of the folders on the way to it; `..`
/// is refused.
pub open spec fn mega_start(value: Seq<char>) -> Option<Seq<Seq<char>>> {
    if start_pieces(value).contains(seq!['.', '.']) {
        None
    } else {
        Some(kept_components(start_pieces(value)))
    }
}

/// The views of some strings.
pub open spec fn string_views(v: Seq<String>) -> Seq<Seq<char>> {
    v.map_values(|s: String| s@)
}

/// Splits a MEGA start folder into folder names; a folder with `..` is
/// refused with the reason.
pub fn mega_normalize_root_path(value: &str) -> (r: Result<Vec<String>, String>)
    ensures
        match mega_start(value@) {
            Some(names) => r matches Ok(v) && string_views(v@) == names,
            None => r matches Err(m) && m@ == "MEGA start path cannot contain '..'"@,
        },
{
    let chars = chars_of(value);
    let t = trim_chars(chars.as_slice());
    let mut n: Vec<char> = Vec::new();
    for i in 0..t.len()
        invariant
            t@ == trimmed(value@),
            n@ == normalize_separators(t@).take(i as int),
    {
        let c = t[i];
        n.push(if c == '\\' { '/' } else { c });
        proof {
            assert(normalize_separators(t@).take(i + 1) =~= n@);
        }
    }
    proof {
        assert(normalize_separators(t@).take(t@.len() as int) =~= normalize_separators(t@));
    }
    let ghost norm = n@;
    let len = n.len();
    let mut out: Vec<String> = Vec::new();
    let mut cur: Vec<char> = Vec::new();
    let mut saw_parent = false;
    let ghost mut done: Seq<Seq<char>> = Seq::empty();
    proof {
        assert(norm.take(0) =~= Seq::<char>::empty());
        assert(string_views(out@) =~= Seq::<Seq<char>>::empty());
    }
    let mut i: usize = 0;
    loop
        invariant_except_break
            i <= len,
            split_components(norm.take(i as int)) == done.push(cur@),
        invariant
            len == norm.len(),
            n@ == norm,
            string_views(out@) == kept_components(done),
            saw_parent == done.contains(seq!['.', '.']),
        ensures
            split_components(norm) == done,
        decreases len + 1 - i,
    {
        let at_end = i == len;
        if at_end || n[i] == '/' {
            let ghost finished = cur@;
            let ghost d2 = done.push(finished);
            proof {
                assert(d2.drop_last() =~= done);
                assert(d2.last() == finished);
            }
            let is_dot = cur.len() == 1 && cur[0] == '.';
            let is_dotdot = cur.len() == 2 && cur[0] == '.' && cur[1] == '.';
            proof {
                if is_dot {
                    assert(cur@ =~= seq!['.']);
                }
                if cur@ == seq!['.'] {
                    assert(cur@[0] == '.');
                }
                if is_dotdot {
                    assert(cur@ =~= seq!['.', '.']);
                    assert(d2[done.len() as int] == seq!['.', '.']);
                }
                if cur@ == seq!['.', '.'] {
                    assert(cur@[0] == '.' && cur@[1] == '.');
                }
                if d2.contains(seq!['.', '.']) && !done.contains(seq!['.', '.']) {
                    let k = choose|k: int| 0 <= k < d2.len() && d2[k] == seq!['.', '.'];
                    if k < done.len() {
                        assert(done[k] == d2[k]);
                    }
                }
                if done.contains(seq!['.', '.']) {
                    let k = choose|k: int| 0 <= k < done.len() && done[k] == seq!['.', '.'];
                    assert(d2[k] == done[k]);
                }
            }
            if is_dotdot {
                saw_parent = true;
            }
            if !(cur.len() == 0 || is_dot) {
                let ghost prior = out@;
                let piece = string_from_chars(cur.as_slice());
                out.push(piece);
                proof {
                    assert(string_views(out@) =~= string_views(prior).push(finished));
                }
            }
            proof {
                done = d2;
            }
            cur = Vec::new();
            if at_end {
                proof {
                    assert(norm.take(len as int) =~= norm);
                }
                break;
            }
            proof {
                assert(norm.take(i + 1).drop_last() =~= norm.take(i as int));
                assert(norm.take(i + 1).last() == '/');
                assert(split_components(norm.take(i + 1)) =~= done.push(cur@));
            }
        } else {
            let c = n[i];
            let ghost before = cur@;
            cur.push(c);
            proof {
                assert(norm.take(i + 1).drop_last() =~= norm.take(i as int));
                assert(norm.take(i + 1).last() == c);
                assert(done.push(before).update(done.len() as int, before.push(c)) =~= done.push(cur@));
            }
        }
        i = i + 1;
    }
    if saw_parent {
        return Err(String::from_str("MEGA start path cannot contain '..'"));
    }
    Ok(out)
}

/// Why a MEGA connection cannot be made from its settings.
pub open spec fn mega_config_problem(config: MegaConfig) -> Option<Seq<char>> {
    if trimmed(config.email@).len() == 0 || config.password@.len() == 0 {
        Some("MEGA email and password are required"@)
    } else if mega_start(config.root_path@) is None {
        Some("MEGA start path cannot contain '..'"@)
    } else {
        None
    }
}

/// Checks the settings of a MEGA connection: an email and a password are
/// needed, and the start folder must not hold `..`.
pub fn check_mega_config(config: &MegaConfig) -> (r: Result<(), String>)
    ensures
        match mega_config_problem(*config) {
            Some(m) => r matches Err(e) && e@ == m,
            None => r is Ok,
        },
{
    let email = chars_of(config.email.as_str());
    let trimmed_email = trim_chars(email.as_slice());
    if trimmed_email.len() == 0 || config.password.as_str().unicode_len() == 0 {
        return Err(String::from_str("MEGA email and password are required"));
    }
    match mega_normalize_root_path(config.root_path.as_str()) {
        Ok(_) => Ok(()),
        Err(m) => Err(m),
    }
}

/// Where a remote path is on an SFTP server whose start folder is `root`:
/// under it (with `/` as the root itself), or relative to the login folder
/// (`.` for the root) when there is none.
pub open spec fn sftp_location(root: Seq<char>, path: Seq<char>) -> Seq<char> {
    if root.len() == 0 {
        if path.len() == 0 { "."@ } else { path }
    } else if path.len() == 0 {
        root
    } else if root == "/"@ {
        "/"@ + path
    } else {
        root + "/"@ + path
    }
}

/// Where a remote path is on an SFTP server.
pub fn sftp_path(root: &str, path: &RemotePath) -> (r: String)
    ensures
        r@ == sftp_location(root@, path@),
{
    proof {
        reveal_strlit(".");
        reveal_strlit("/");
    }
    let root_len = root.unicode_len();
    let path_len = path.as_str().unicode_len();
    if root_len == 0 {
        return if path_len == 0 { String::from_str(".") } else { String::from_str(path.as_str()) };
    }
    if path_len == 0 {
        return String::from_str(root);
    }
    let root_chars = chars_of(root);
    if root_chars.len() == 1 && root_chars[0] == '/' {
        proof {
            assert(root@ =~= "/"@);
        }
        let mut out = String::from_str("/");
        out.append(path.as_str());
        out
    } else {
        proof {
            if root@ == "/"@ {
                assert(root_chars@[0] == '/');
            }
        }
        let mut out = String::from_str(root);
        out.append("/");
        out.append(path.as_str());
        out
    }
}

/// Where an SFTP read starts and how much it reads: all of the file, or the
/// range's length from its start; an empty or reversed range is refused
/// with the reason.
pub fn sftp_range(range: Option<ByteRange>) -> (r: Result<(u64, Option<u64>), String>)
    ensures
        match range {
            None => r matches Ok(v) && v.0 == 0 && v.1 is None,
            Some(b) => if b.start < b.end {
                r matches Ok(v) && v.0 == b.start && v.1 == Some((b.end - b.start) as u64)
            } else {
                r matches Err(m) && m@ == empty_range_text()
            },
        },
{
    match range {
        None => Ok((0, None)),
        Some(b) => if b.start >= b.end {
            Err(String::from_str("read range must have a positive length"))
        } else {
            Ok((b.start, Some(b.end - b.start)))
        },
    }
}

/// How a remote path is spelled on an SMB share: with `\` separators; the
/// root is empty.
pub open spec fn smb_location(path: Seq<char>) -> Seq<char> {
    Seq::new(path.len(), |i: int| if path[i] == '/' { '\\' } else { path[i] })
}

/// How a remote path is spelled on an SMB share.
pub fn smb_path(path: &RemotePath) -> (r: String)
    ensures
        r@ == smb_location(path@),
{
    let chars = chars_of(path.as_str());
    let mut out: Vec<char> = Vec::new();
    for i in 0..chars.len()
        invariant
            chars@ == path@,
            out@ == smb_location(path@).take(i as int),
    {
        let c = chars[i];
        out.push(if c == '/' { '\\' } else { c });
        proof {
            assert(smb_location(path@).take(i + 1) =~= out@);
        }
    }
    proof {
        assert(smb_location(path@).take(chars@.len() as int) =~= smb_location(path@));
    }
    string_from_chars(out.as_slice())
}

/// How a remote path is spelled on an FTP server: `.` for the root.
pub fn ftp_path(path: &RemotePath) -> (r: String)
    ensures
        r@ == if path@.len() == 0 { "."@ } else { path@ },
{
    proof {
        reveal_strlit(".");
    }
    if path.as_str().unicode_len() == 0 {
        String::from_str(".")
    } else {
        String::from_str(path.as_str())
    }
}

/// How a stored SFTP connection signs in: with a private key when its
/// settings say `private_key` (the key path of the settings, else the one
/// stored with the credentials, is required), else with the stored password
/// (which is required).
pub fn sftp_authentication(
    authentication: &str,
    configured_key_path: Option<String>,
    stored_key_path: Option<String>,
    passphrase: Option<String>,
    password: Option<String>,
) -> (r: Result<SftpAuthentication, String>)
    ensures
        authentication@ == "private_key"@ ==> match (configured_key_path, stored_key_path) {
            (Some(k), _) => r matches Ok(SftpAuthentication::PrivateKey { path, passphrase: p }) && path@ == k@ && p == passphrase,
            (None, Some(k)) => r matches Ok(SftpAuthentication::PrivateKey { path, passphrase: p }) && path@ == k@ && p == passphrase,
            (None, None) => r matches Err(m) && m@ == "SFTP private key path is required"@,
        },
        authentication@ != "private_key"@ ==> match password {
            Some(p) => r matches Ok(SftpAuthentication::Password(q)) && q@ == p@,
            None => r matches Err(m) && m@ == "SFTP password is required"@,
        },
{
    if crate::text::str_eq(authentication, "private_key") {
        let key = match configured_key_path {
            Some(k) => Some(k),
            None => stored_key_path,
        };
        match key {
            Some(path) => Ok(SftpAuthentication::PrivateKey { path, passphrase }),
            None => Err(String::from_str("SFTP private key path is required")),
        }
    } else {
        match password {
            Some(p) => Ok(SftpAuthentication::Password(p)),
            None => Err(String::from_str("SFTP password is required")),
        }
    }
}

/// Why an SFTP connection cannot be made from its settings, given whether
/// its known-hosts file exists and, for key sign-in, whether its key file
/// exists; otherwise the start folder it uses.
pub open spec fn sftp_config_outcome(config: SftpConfig, known_hosts_present: bool, key_file: Option<(Seq<char>, bool)>) -> Result<Seq<char>, Seq<char>> {
    match sftp_start(config.root_path@) {
        None => Err("SFTP start path cannot contain '..'"@),
        Some(root) => if trimmed(config.host@).len() == 0 || trimmed(config.username@).len() == 0 {
            Err("SFTP host and username are required"@)
        } else if !config.trust_on_first_use && !known_hosts_present {
            Err("known_hosts file does not exist: "@ + config.known_hosts@)
        } else {
            match key_file {
                Some((path, false)) => Err("private key file does not exist: "@ + path),
                _ => Ok(root),
            }
        },
    }
}

/// Checks the settings of an SFTP connection before any network access: the
/// start folder must not hold `..`, a host and a user name are needed, the
/// known-hosts file must exist unless first-use trust is on, and a key file
/// (when signing in with one: its path and whether it exists) must exist.
/// Returns the start folder the connection uses.
pub fn check_sftp_config(config: &SftpConfig, known_hosts_present: bool, key_file: Option<(&str, bool)>) -> (r: Result<String, String>)
    ensures
        match sftp_config_outcome(*config, known_hosts_present, match key_file { Some((p, e)) => Some((p@, e)), None => None }) {
            Ok(root) => r matches Ok(s) && s@ == root,
            Err(m) => r matches Err(e) && e@ == m,
        },
{
    let root = match sftp_normalize_root_path(config.root_path.as_str()) {
        Ok(root) => root,
        Err(m) => return Err(m),
    };
    let host = chars_of(config.host.as_str());
    let user = chars_of(config.username.as_str());
    if trim_chars(host.as_slice()).len() == 0 || trim_chars(user.as_slice()).len() == 0 {
        return Err(String::from_str("SFTP host and username are required"));
    }
    if !config.trust_on_first_use && !known_hosts_present {
        let mut m = String::from_str("known_hosts file does not exist: ");
        m.append(config.known_hosts.as_str());
        return Err(m);
    }
    match key_file {
        Some((path, false)) => {
            let mut m = String::from_str("private key file does not exist: ");
            m.append(path);
            Err(m)
        },
        _ => Ok(root),
    }
}

/// What to do with a server key during an SSH handshake.
#[derive(Debug, Clone, Copy, PartialEq, Eq, Structural)]
pub enum ServerKeyDecision {
    /// The key is known for the host.
    Accept,
    /// The key is unknown but first-use trust is on: record it and accept.
    LearnAndAccept,
    /// The key is unknown: refuse the server.
    Reject,
}

/// Decides on a server key: known keys are accepted, unknown ones only
/// under first-use trust (and then recorded).
pub fn server_key_decision(known: bool, trust_on_first_use: bool) -> (d: ServerKeyDecision)
    ensures
        known ==> d == ServerKeyDecision::Accept,
        !known && trust_on_first_use ==> d == ServerKeyDecision::LearnAndAccept,
        !known && !trust_on_first_use ==> d == ServerKeyDecision::Reject,
{
    if known {
        ServerKeyDecision::Accept
    } else if trust_on_first_use {
        ServerKeyDecision::LearnAndAccept
    } else {
        ServerKeyDecision::Reject
    }
}

/// Where an SSH cipher comes in the client's preference: AES-128-GCM, then
/// AES-256-GCM, then ChaCha20-Poly1305, then any other.
pub open spec fn cipher_rank(name: Seq<char>) -> nat {
    if name == "aes128-gcm@openssh.com"@ {
        0
    } else if name == "aes256-gcm@openssh.com"@ {
        1
    } else if name == "chacha20-poly1305@openssh.com"@ {
        2
    } else {
        3
    }
}

/// The ciphers of one rank, in their given order.
pub open spec fn ciphers_of_rank(names: Seq<Seq<char>>, rank: nat) -> Seq<Seq<char>>
    decreases names.len(),
{
    if names.len() == 0 {
        Seq::empty()
    } else {
        let rest = ciphers_of_rank(names.drop_last(), rank);
        if cipher_rank(names.last()) == rank { rest.push(names.last()) } else { rest }
    }
}

/// The ciphers ordered by preference; ciphers of equal rank keep their
/// given order (a stable sort by rank).
pub open spec fn preferred_ciphers(names: Seq<Seq<char>>) -> Seq<Seq<char>> {
    ciphers_of_rank(names, 0) + ciphers_of_rank(names, 1) + ciphers_of_rank(names, 2) + ciphers_of_rank(names, 3)
}

/// The preference rank of a cipher name.
fn cipher_rank_of(name: &str) -> (r: u8)
    ensures
        r as nat == cipher_rank(name@),
{
    if crate::text::str_eq(name, "aes128-gcm@openssh.com") {
        0
    } else if crate::text::str_eq(name, "aes256-gcm@openssh.com") {
        1
    } else if crate::text::str_eq(name, "chacha20-poly1305@openssh.com") {
        2
    } else {
        3
    }
}

/// Appends the ciphers of one rank, in order.
fn push_rank(out: &mut Vec<String>, names: &Vec<String>, rank: u8)
    ensures
        crate::urls::texts(final(out)@) == crate::urls::texts(old(out)@) + ciphers_of_rank(crate::urls::texts(names@), rank as nat),
{
    let ghost start = crate::urls::texts(out@);
    let ghost all = crate::urls::texts(names@);
    for i in 0..names.len()
        invariant
            all == crate::urls::texts(names@),
            crate::urls::texts(out@) == start + ciphers_of_rank(all.take(i as int), rank as nat),
    {
        proof {
            assert(all.take(i + 1).drop_last() =~= all.take(i as int));
            assert(all.take(i + 1).last() == names@[i as int]@);
        }
        if cipher_rank_of(names[i].as_str()) == rank {
            let ghost before = crate::urls::texts(out@);
            out.push(names[i].clone());
            proof {
                assert(crate::urls::texts(out@) =~= before.push(names@[i as int]@));
                assert(start + ciphers_of_rank(all.take(i as int), rank as nat).push(names@[i as int]@) =~= (start
                    + ciphers_of_rank(all.take(i as int), rank as nat)).push(names@[i as int]@));
            }
        }
    }
    proof {
        assert(all.take(names@.len() as int) =~= all);
    }
}

/// Orders SSH ciphers as the SFTP client prefers them: AES-128-GCM,
/// AES-256-GCM, ChaCha20-Poly1305, then the others, each group in its given
/// order.
pub fn prefer_ciphers(names: &Vec<String>) -> (r: Vec<String>)
    ensures
        crate::urls::texts(r@) == preferred_ciphers(crate::urls::texts(names@)),
{
    let mut out: Vec<String> = Vec::new();
    proof {
        assert(crate::urls::texts(out@) =~= Seq::<Seq<char>>::empty());
    }
    push_rank(&mut out, names, 0);
    push_rank(&mut out, names, 1);
    push_rank(&mut out, names, 2);
    push_rank(&mut out, names, 3);
    proof {
        let all = crate::urls::texts(names@);
        assert(Seq::<Seq<char>>::empty() + ciphers_of_rank(all, 0) =~= ciphers_of_rank(all, 0));
    }
    out
}

} // verus!
