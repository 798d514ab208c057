//! The settings a connection keeps in its JSON configuration: whether it
//! mounts at startup, its drive letter and drive type, and how it is
//! described in the activity history.
use vstd::prelude::*;
use crate::common::{provider_kind_id, ConnectionId, ProviderKind};
use crate::drive::{drive_letter_outcome, normalize_drive_letter};
use crate::text::{ascii_lower_seq, chars_of, chars_start_with, chars_to_ascii_lower, parse_i32, parsed_i32, push_char, str_eq, string_from_chars, trim_chars, trimmed};

verus! {

broadcast use vstd::string::group_string_axioms;

/// One top-level field of a JSON configuration.
#[derive(Debug)]
pub enum JsonField {
    /// The text is not JSON.
    Invalid,
    /// The text is JSON but not an object holding the field.
    Missing,
    Null,
    Bool(bool),
    Text(String),
    /// A number, an array or an object.
    Other,
}

/// A JSON field as plain values.
pub enum JsonFieldView {
    Invalid,
    Missing,
    Null,
    Bool(bool),
    Text(Seq<char>),
    Other,
}

impl View for JsonField {
    type V = JsonFieldView;

    open spec fn view(&self) -> JsonFieldView {
        match self {
            JsonField::Invalid => JsonFieldView::Invalid,
            JsonField::Missing => JsonFieldView::Missing,
            JsonField::Null => JsonFieldView::Null,
            JsonField::Bool(b) => JsonFieldView::Bool(*b),
            JsonField::Text(t) => JsonFieldView::Text(t@),
            JsonField::Other => JsonFieldView::Other,
        }
    }
}

/// What `serde_json` reads as the field `key` of the text `text`.
pub uninterp spec fn json_field_of(text: Seq<char>, key: Seq<char>) -> JsonFieldView;

/// `serde_json::from_str::<serde_json::Value>` followed by `Value::get`: the
/// field `key` of the JSON text, told apart by kind. What counts as JSON is
/// not stated; the result is a function of the text and the key.
#[verifier::external_body]
fn json_field(text: &str, key: &str) -> (r: JsonField)
    ensures
        r@ == json_field_of(text@, key@),
{
    match serde_json::from_str::<serde_json::Value>(text) {
        Err(_) => JsonField::Invalid,
        Ok(value) => match value.get(key) {
            None => JsonField::Missing,
            Some(serde_json::Value::Null) => JsonField::Null,
            Some(serde_json::Value::Bool(b)) => JsonField::Bool(*b),
            Some(serde_json::Value::String(t)) => JsonField::Text(t.clone()),
            Some(_) => JsonField::Other,
        },
    }
}

/// Whether a connection is mounted at startup: yes unless its configuration
/// holds `mount_on_startup` as `false`.
pub fn mount_on_startup(configuration_json: &str) -> (r: bool)
    ensures
        r == match json_field_of(configuration_json@, "mount_on_startup"@) {
            JsonFieldView::Bool(b) => b,
            _ => true,
        },
{
    match json_field(configuration_json, "mount_on_startup") {
        JsonField::Bool(b) => b,
        _ => true,
    }
}

/// Whether `serde_json` reads the text as a JSON object.
pub uninterp spec fn is_json_object(text: Seq<char>) -> bool;

/// The JSON text that `serde_json` writes for the object of `text` with the
/// field `key` set to the string `value`.
pub uninterp spec fn json_with_text(text: Seq<char>, key: Seq<char>, value: Seq<char>) -> Seq<char>;

/// The JSON text that `serde_json` writes for the object of `text` without
/// the field `key`.
pub uninterp spec fn json_without(text: Seq<char>, key: Seq<char>) -> Seq<char>;

/// `serde_json::from_str::<serde_json::Value>` followed by
/// `Value::is_object`: whether the text is a JSON object.
#[verifier::external_body]
fn json_is_object(text: &str) -> (r: bool)
    ensures
        r == is_json_object(text@),
{
    serde_json::from_str::<serde_json::Value>(text).is_ok_and(|value| value.is_object())
}

/// Reads the text as a JSON object, sets the field `key` to the string
/// `value` (`Map::insert`) and writes it back (`serde_json::to_string`, which
/// cannot fail for a `Value`). Reading the field back from what is written
/// gives the string.
#[verifier::external_body]
fn json_insert_text(text: &str, key: &str, value: &str) -> (r: Option<String>)
    ensures
        r is Some <==> is_json_object(text@),
        r matches Some(t) ==> t@ == json_with_text(text@, key@, value@) && is_json_object(t@) && json_field_of(t@, key@)
            == JsonFieldView::Text(value@),
        r matches Some(t) ==> forall|other: Seq<char>| other != key@ ==> #[trigger] json_field_of(t@, other) == json_field_of(text@, other),
{
    let mut object = serde_json::from_str::<serde_json::Value>(text).ok()?;
    object.as_object_mut()?.insert(key.to_owned(), serde_json::Value::String(value.to_owned()));
    serde_json::to_string(&object).ok()
}

/// Reads the text as a JSON object, removes the field `key` (`Map::remove`)
/// and writes it back. Reading the field back from what is written finds
/// nothing.
#[verifier::external_body]
fn json_remove_field(text: &str, key: &str) -> (r: Option<String>)
    ensures
        r is Some <==> is_json_object(text@),
        r matches Some(t) ==> t@ == json_without(text@, key@) && is_json_object(t@) && json_field_of(t@, key@)
            == JsonFieldView::Missing,
        r matches Some(t) ==> forall|other: Seq<char>| other != key@ ==> #[trigger] json_field_of(t@, other) == json_field_of(text@, other),
{
    let mut object = serde_json::from_str::<serde_json::Value>(text).ok()?;
    object.as_object_mut()?.remove(key);
    serde_json::to_string(&object).ok()
}

/// The refusal of a configuration that is not a JSON object.
pub open spec fn not_an_object_text() -> Seq<char> {
    "Connection configuration must be an object"@
}

/// The configuration with its drive letter set: the letter a setting names
/// (upper case) is written as `drive_letter`, a blank setting removes it; a
/// configuration that is not an object, or a setting that names no usable
/// letter, is refused, in that order.
pub fn set_drive_letter(configuration_json: &str, value: Option<&str>) -> (r: Result<String, String>)
    ensures
        !is_json_object(configuration_json@) ==> (r matches Err(e) && e@ == not_an_object_text()),
        is_json_object(configuration_json@) ==> match drive_letter_outcome(match value { Some(v) => Some(v@), None => None }) {
            Err(m) => r matches Err(e) && e@ == m,
            Ok(Some(l)) => r matches Ok(t) && t@ == json_with_text(configuration_json@, "drive_letter"@, seq![l])
                && json_field_of(t@, "drive_letter"@) == JsonFieldView::Text(seq![l]),
            Ok(None) => r matches Ok(t) && t@ == json_without(configuration_json@, "drive_letter"@)
                && json_field_of(t@, "drive_letter"@) == JsonFieldView::Missing,
        },
{
    if !json_is_object(configuration_json) {
        return Err(String::from_str("Connection configuration must be an object"));
    }
    let written = match normalize_drive_letter(value)? {
        Some(letter) => {
            let mut text = String::new();
            push_char(&mut text, letter);
            proof {
                assert(text@ =~= seq![letter]);
            }
            json_insert_text(configuration_json, "drive_letter", text.as_str())
        },
        None => json_remove_field(configuration_json, "drive_letter"),
    };
    match written {
        Some(t) => Ok(t),
        None => Err(String::from_str("Connection configuration must be an object")),
    }
}

/// What the caller knows of a custom icon's file: its extension (if the
/// path has one) and whether the path is absolute and names an existing
/// file. Only a custom icon is checked against it.
#[derive(Debug)]
pub struct IconFile {
    pub extension: Option<String>,
    pub is_absolute: bool,
    pub is_file: bool,
}

/// Whether a custom icon's file may be used.
pub open spec fn icon_file_usable(file: IconFile) -> bool {
    file.is_absolute && file.is_file && match file.extension {
        Some(e) => supported_icon_extension(e@),
        None => false,
    }
}

/// The refusal of an unusable custom icon file.
pub open spec fn custom_icon_text() -> Seq<char> {
    "Custom drive icon must be an existing .ico, .exe, .dll, .png, .jpg, or .webp file"@
}

/// What writing a presentation into a configuration gives: the drive type
/// (blank is `network`, else `network` or `local`) and icon (blank or
/// missing is `system`) are read as `presentation_outcome` reads them, a
/// custom icon's file must be usable, and the configuration must be an
/// object, in that order; then `drive_type` and `drive_icon` are written.
pub open spec fn presentation_written(
    configuration: Seq<char>,
    drive_type: Seq<char>,
    drive_icon: Option<Seq<char>>,
    file: IconFile,
) -> Result<Seq<char>, Seq<char>> {
    match presentation_outcome(drive_type, drive_icon) {
        Err(m) => Err(m),
        Ok((kind, icon)) => if !builtin_icon(icon) && !icon_file_usable(file) {
            Err(custom_icon_text())
        } else if !is_json_object(configuration) {
            Err(not_an_object_text())
        } else {
            Ok(json_with_text(json_with_text(configuration, "drive_type"@, kind), "drive_icon"@, icon))
        },
    }
}

/// The configuration with its presentation written, after the drive type,
/// the icon (and a custom icon's file) are checked; a refused setting gives
/// its reason and no configuration.
pub fn set_drive_presentation(configuration_json: &str, drive_type: &str, drive_icon: Option<&str>, icon_file: &IconFile) -> (r: Result<
    String,
    String,
>)
    ensures
        match presentation_written(configuration_json@, drive_type@, match drive_icon { Some(i) => Some(i@), None => None }, *icon_file) {
            Err(m) => r matches Err(e) && e@ == m,
            Ok(t) => r matches Ok(x) && x@ == t && ({
                let (kind, icon) = presentation_outcome(drive_type@, match drive_icon { Some(i) => Some(i@), None => None })->Ok_0;
                &&& json_field_of(x@, "drive_type"@) == JsonFieldView::Text(kind)
                &&& json_field_of(x@, "drive_icon"@) == JsonFieldView::Text(icon)
            }),
        },
{
    let (kind, icon) = drive_presentation(drive_type, drive_icon)?;
    let icon_text = match icon {
        DriveIcon::Builtin(name) => name,
        DriveIcon::Custom(path) => {
            let extension = match &icon_file.extension {
                Some(e) => Some(e.as_str()),
                None => None,
            };
            check_custom_icon(extension, icon_file.is_absolute, icon_file.is_file)?;
            path
        },
    };
    write_presentation(configuration_json, kind.as_str(), icon_text.as_str())
}

/// The configuration with `drive_type` and `drive_icon` set to the given
/// (already checked) values; a configuration that is not an object is
/// refused.
fn write_presentation(configuration_json: &str, drive_type: &str, drive_icon: &str) -> (r: Result<String, String>)
    ensures
        !is_json_object(configuration_json@) ==> (r matches Err(e) && e@ == not_an_object_text()),
        is_json_object(configuration_json@) ==> (r matches Ok(t) && t@ == json_with_text(
            json_with_text(configuration_json@, "drive_type"@, drive_type@),
            "drive_icon"@,
            drive_icon@,
        ) && json_field_of(t@, "drive_icon"@) == JsonFieldView::Text(drive_icon@) && json_field_of(t@, "drive_type"@)
            == JsonFieldView::Text(drive_type@)),
{
    proof {
        reveal_strlit("drive_icon");
        reveal_strlit("drive_type");
    }
    let typed = match json_insert_text(configuration_json, "drive_type", drive_type) {
        Some(t) => t,
        None => return Err(String::from_str("Connection configuration must be an object")),
    };
    match json_insert_text(typed.as_str(), "drive_icon", drive_icon) {
        Some(t) => {
            proof {
                assert("drive_type"@ != "drive_icon"@) by {
                    assert("drive_type"@[6] != "drive_icon"@[6]);
                }
                assert(json_field_of(t@, "drive_type"@) == json_field_of(typed@, "drive_type"@));
            }
            Ok(t)
        },
        None => Err(String::from_str("Connection configuration must be an object")),
    }
}

/// The drive letter the configuration asks for, read as the letter picker
/// reads it.
pub open spec fn configured_letter(field: JsonFieldView) -> Result<Option<char>, Seq<char>> {
    match field {
        JsonFieldView::Invalid => Err("Connection configuration is invalid"@),
        JsonFieldView::Text(t) => drive_letter_outcome(Some(t)),
        _ => drive_letter_outcome(None),
    }
}

/// The drive letter a configuration asks for; text that is not JSON is
/// refused.
pub fn configured_drive_letter(configuration_json: &str) -> (r: Result<Option<char>, String>)
    ensures
        match configured_letter(json_field_of(configuration_json@, "drive_letter"@)) {
            Ok(v) => r matches Ok(x) && x == v,
            Err(m) => r matches Err(e) && e@ == m,
        },
{
    match json_field(configuration_json, "drive_letter") {
        JsonField::Invalid => Err(String::from_str("Connection configuration is invalid")),
        JsonField::Text(t) => normalize_drive_letter(Some(t.as_str())),
        _ => normalize_drive_letter(None),
    }
}

/// Whether a configuration mounts as a network drive: yes unless its
/// `drive_type` is `local`; text that is not JSON is refused.
pub fn configured_drive_type(configuration_json: &str) -> (r: Result<bool, String>)
    ensures
        match json_field_of(configuration_json@, "drive_type"@) {
            JsonFieldView::Invalid => r matches Err(e) && e@ == "Connection configuration is invalid"@,
            JsonFieldView::Text(t) => r matches Ok(b) && b == (t != "local"@),
            _ => r matches Ok(b) && b,
        },
{
    proof {
        reveal_strlit("local");
        reveal_strlit("network");
    }
    match json_field(configuration_json, "drive_type") {
        JsonField::Invalid => Err(String::from_str("Connection configuration is invalid")),
        JsonField::Text(t) => Ok(!crate::text::str_eq(t.as_str(), "local")),
        _ => Ok(true),
    }
}

/// How a connection is described in the activity history: its name, kind
/// and endpoint, and the drive letter it is mounted on when it has one.
pub open spec fn activity_details(name: Seq<char>, kind: ProviderKind, endpoint: Seq<char>, letter: Result<Option<char>, Seq<char>>) -> Seq<char> {
    name + " · "@ + provider_kind_id(kind) + " · "@ + endpoint + match letter {
        Ok(Some(c)) => " · Drive "@ + seq![c, ':'],
        _ => Seq::empty(),
    }
}

/// Describes a connection for the activity history.
pub fn connection_activity_details(name: &str, kind: ProviderKind, endpoint: &str, configuration_json: &str) -> (r: String)
    ensures
        r@ == activity_details(name@, kind, endpoint@, configured_letter(json_field_of(configuration_json@, "drive_letter"@))),
{
    let letter = configured_drive_letter(configuration_json);
    let mut out = String::from_str(name);
    out.append(" · ");
    out.append(kind.as_str());
    out.append(" · ");
    out.append(endpoint);
    match letter {
        Ok(Some(c)) => {
            out.append(" · Drive ");
            crate::text::push_char(&mut out, c);
            crate::text::push_char(&mut out, ':');
        },
        _ => {},
    }
    proof {
        reveal_strlit(" · ");
        reveal_strlit(" · Drive ");
    }
    out
}

/// A stored connection, as far as drive letters are concerned.
pub struct StoredConnection {
    pub id: ConnectionId,
    pub name: String,
    pub configuration_json: String,
}

/// The message for a drive letter that another connection has.
pub open spec fn letter_taken_text(letter: char, name: Seq<char>) -> Seq<char> {
    "Drive "@ + seq![letter] + ": is already assigned to "@ + name
}

/// The first problem met while looking for `letter` among `cs` (skipping
/// the connection `excluding`): an unreadable configuration, or a
/// connection that has the letter.
pub open spec fn letter_conflict(cs: Seq<StoredConnection>, letter: char, excluding: Option<ConnectionId>) -> Option<Seq<char>>
    decreases cs.len(),
{
    if cs.len() == 0 {
        None
    } else if excluding == Some(cs[0].id) {
        letter_conflict(cs.drop_first(), letter, excluding)
    } else {
        match configured_letter(json_field_of(cs[0].configuration_json@, "drive_letter"@)) {
            Err(m) => Some(m),
            Ok(Some(x)) => if x == letter {
                Some(letter_taken_text(letter, cs[0].name@))
            } else {
                letter_conflict(cs.drop_first(), letter, excluding)
            },
            Ok(None) => letter_conflict(cs.drop_first(), letter, excluding),
        }
    }
}

/// Checks that no other connection (than `excluding`) already has the
/// drive letter `requested` asks for.
pub fn ensure_drive_letter_unassigned(requested: Option<&str>, excluding: Option<ConnectionId>, connections: &[StoredConnection]) -> (r: Result<(), String>)
    ensures
        match drive_letter_outcome(match requested { Some(v) => Some(v@), None => None }) {
            Err(m) => r matches Err(e) && e@ == m,
            Ok(None) => r is Ok,
            Ok(Some(letter)) => match letter_conflict(connections@, letter, excluding) {
                Some(m) => r matches Err(e) && e@ == m,
                None => r is Ok,
            },
        },
{
    let normalized = normalize_drive_letter(requested);
    let ghost outcome = drive_letter_outcome(match requested { Some(v) => Some(v@), None => None });
    let letter = match normalized {
        Err(m) => {
            assert(outcome matches Err(x) && m@ == x);
            return Err(m);
        },
        Ok(None) => {
            assert(outcome == Ok::<Option<char>, Seq<char>>(None));
            return Ok(());
        },
        Ok(Some(letter)) => letter,
    };
    let n = connections.len();
    let mut i: usize = 0;
    proof {
        assert(connections@.skip(0) =~= connections@);
    }
    while i < n
        invariant
            n == connections@.len(),
            i <= n,
            letter_conflict(connections@, letter, excluding) == letter_conflict(connections@.skip(i as int), letter, excluding),
            drive_letter_outcome(match requested { Some(v) => Some(v@), None => None }) == Ok::<Option<char>, Seq<char>>(Some(letter)),
        decreases n - i,
    {
        let c = &connections[i];
        proof {
            assert(connections@.skip(i as int)[0] == connections@[i as int]);
            assert(connections@.skip(i as int).drop_first() =~= connections@.skip(i + 1));
        }
        let skip = match excluding {
            Some(id) => id.0 == c.id.0,
            None => false,
        };
        proof {
            if !skip {
                assert(excluding != Some(connections@[i as int].id));
            } else {
                assert(excluding == Some(connections@[i as int].id));
            }
        }
        if !skip {
            match configured_drive_letter(c.configuration_json.as_str()) {
                Err(m) => {
                    proof {
                        let cs = connections@.skip(i as int);
                        assert(cs.len() > 0);
                        assert(cs[0] == connections@[i as int]);
                        assert(letter_conflict(cs, letter, excluding) == Some(m@));
                    }
                    return Err(m);
                },
                Ok(Some(x)) => {
                    if x == letter {
                        let mut m = String::from_str("Drive ");
                        push_char(&mut m, letter);
                        m.append(": is already assigned to ");
                        m.append(c.name.as_str());
                        proof {
                            reveal_strlit("Drive ");
                            assert(m@ =~= letter_taken_text(letter, c.name@));
                        }
                        return Err(m);
                    }
                },
                Ok(None) => {},
            }
        }
        i = i + 1;
    }
    proof {
        assert(connections@.skip(n as int) =~= Seq::<StoredConnection>::empty());
    }
    Ok(())
}

/// The letter of drive number `k` (`A` is zero).
pub open spec fn drive_letter_char(k: int) -> char {
    (65 + k) as char
}

/// The free drive letters of a logical-drive bit mask, from drive `k` down
/// to `D`, each written with its colon.
pub open spec fn free_letters_from(used: u32, k: int) -> Seq<Seq<char>>
    decreases k,
{
    if k < 3 {
        Seq::empty()
    } else {
        (if (used >> (k as u32)) & 1 == 0 { seq![seq![drive_letter_char(k), ':']] } else { Seq::empty() }) + free_letters_from(used, k - 1)
    }
}

/// The views of some strings.
pub open spec fn string_views(v: Seq<String>) -> Seq<Seq<char>> {
    v.map_values(|s: String| s@)
}

/// The drive letters from `Z:` down to `D:` that the logical-drive bit mask
/// `used` leaves free.
pub fn drive_letters_available(used: u32) -> (r: Vec<String>)
    ensures
        string_views(r@) == free_letters_from(used, 25),
{
    let mut out: Vec<String> = Vec::new();
    let mut k: u32 = 25;
    proof {
        assert(string_views(out@) + free_letters_from(used, 25) =~= free_letters_from(used, 25));
    }
    while k >= 3
        invariant
            k <= 25,
            string_views(out@) + free_letters_from(used, k as int) == free_letters_from(used, 25),
        decreases k,
    {
        let ghost prior = string_views(out@);
        if (used >> k) & 1 == 0 {
            let mut text = String::new();
            push_char(&mut text, crate::text::char_from_ascii_code(65 + k));
            push_char(&mut text, ':');
            proof {
                assert(text@ =~= seq![drive_letter_char(k as int), ':']);
            }
            let ghost before_vec = out@;
            out.push(text);
            proof {
                assert(out@ == before_vec.push(text));
                assert(string_views(out@)[string_views(out@).len() - 1] == text@);
                assert(string_views(out@) =~= prior.push(seq![drive_letter_char(k as int), ':']));
                assert(prior.push(seq![drive_letter_char(k as int), ':']) + free_letters_from(used, k - 1)
                    =~= prior + free_letters_from(used, k as int));
            }
        } else {
            proof {
                assert(prior + free_letters_from(used, k - 1) =~= prior + free_letters_from(used, k as int));
            }
        }
        k = k - 1;
    }
    proof {
        assert(free_letters_from(used, k as int) =~= Seq::<Seq<char>>::empty());
        assert(string_views(out@) + Seq::<Seq<char>>::empty() =~= string_views(out@));
    }
    out
}

/// One field of a stored credential payload.
#[derive(Debug)]
pub enum CredentialValue {
    Null,
    Text(String),
    /// Any other JSON value, by its JSON text.
    Other(String),
}

/// A credential field as plain values.
pub enum CredentialValueView {
    Null,
    Text(Seq<char>),
    Other(Seq<char>),
}

impl View for CredentialValue {
    type V = CredentialValueView;

    open spec fn view(&self) -> CredentialValueView {
        match self {
            CredentialValue::Null => CredentialValueView::Null,
            CredentialValue::Text(t) => CredentialValueView::Text(t@),
            CredentialValue::Other(j) => CredentialValueView::Other(j@),
        }
    }
}

/// A credential field by its name and value.
pub open spec fn field_view(f: (String, CredentialValue)) -> (Seq<char>, CredentialValueView) {
    (f.0@, f.1@)
}

/// The views of some credential fields.
pub open spec fn field_views(fs: Seq<(String, CredentialValue)>) -> Seq<(Seq<char>, CredentialValueView)> {
    fs.map_values(|f: (String, CredentialValue)| field_view(f))
}

/// Whether an update replaces the stored value: it is neither null nor
/// empty text.
pub open spec fn replaces(v: CredentialValueView) -> bool {
    !(v is Null) && !(v matches CredentialValueView::Text(t) && t.len() == 0)
}

/// The updates that replace stored values, in order.
pub open spec fn replacing(us: Seq<(Seq<char>, CredentialValueView)>) -> Seq<(Seq<char>, CredentialValueView)>
    decreases us.len(),
{
    if us.len() == 0 {
        Seq::empty()
    } else if replaces(us.last().1) {
        replacing(us.drop_last()).push(us.last())
    } else {
        replacing(us.drop_last())
    }
}

/// The value of field `key` in a payload where later fields win.
pub open spec fn field_value(fs: Seq<(Seq<char>, CredentialValueView)>, key: Seq<char>) -> Option<CredentialValueView>
    decreases fs.len(),
{
    if fs.len() == 0 {
        None
    } else if fs.last().0 == key {
        Some(fs.last().1)
    } else {
        field_value(fs.drop_last(), key)
    }
}

/// Whether no two fields of a payload share a name, as in a JSON object.
pub open spec fn distinct_names(fs: Seq<(Seq<char>, CredentialValueView)>) -> bool {
    forall|i: int, j: int| 0 <= i < j < fs.len() ==> #[trigger] fs[i].0 != #[trigger] fs[j].0
}

/// The position of the first field named `key`, if any.
pub open spec fn field_index(fs: Seq<(Seq<char>, CredentialValueView)>, key: Seq<char>) -> Option<int>
    decreases fs.len(),
{
    if fs.len() == 0 {
        None
    } else {
        match field_index(fs.drop_last(), key) {
            Some(i) => Some(i),
            None => if fs.last().0 == key { Some(fs.len() - 1) } else { None },
        }
    }
}

/// A payload with field `f` set: a field of its name takes its value in
/// place, else it comes last (`Map::insert`).
pub open spec fn set_field(fs: Seq<(Seq<char>, CredentialValueView)>, f: (Seq<char>, CredentialValueView)) -> Seq<(Seq<char>, CredentialValueView)> {
    match field_index(fs, f.0) {
        Some(i) => fs.update(i, f),
        None => fs.push(f),
    }
}

/// A payload with the fields `us` set one after the other.
pub open spec fn merged_fields(fs: Seq<(Seq<char>, CredentialValueView)>, us: Seq<(Seq<char>, CredentialValueView)>) -> Seq<(Seq<char>, CredentialValueView)>
    decreases us.len(),
{
    if us.len() == 0 {
        fs
    } else {
        set_field(merged_fields(fs, us.drop_last()), us.last())
    }
}

/// What `field_index` finds.
proof fn lemma_field_index(fs: Seq<(Seq<char>, CredentialValueView)>, key: Seq<char>)
    ensures
        field_index(fs, key) matches Some(i) ==> 0 <= i < fs.len() && fs[i].0 == key && forall|j: int| 0 <= j < i ==> fs[j].0 != key,
        field_index(fs, key) is None ==> forall|j: int| 0 <= j < fs.len() ==> fs[j].0 != key,
    decreases fs.len(),
{
    if fs.len() > 0 {
        lemma_field_index(fs.drop_last(), key);
        assert forall|j: int| 0 <= j < fs.len() - 1 implies fs[j] == fs.drop_last()[j] by {}
    }
}

/// The first position of `key` is the one `field_index` finds.
proof fn lemma_field_index_is(fs: Seq<(Seq<char>, CredentialValueView)>, key: Seq<char>, i: int)
    requires
        0 <= i <= fs.len(),
        i < fs.len() ==> fs[i].0 == key,
        forall|j: int| 0 <= j < i ==> fs[j].0 != key,
    ensures
        field_index(fs, key) == if i < fs.len() { Some(i) } else { None::<int> },
{
    lemma_field_index(fs, key);
}

/// Changing a field of another name leaves `key`'s value alone.
proof fn lemma_value_update_other(fs: Seq<(Seq<char>, CredentialValueView)>, i: int, f: (Seq<char>, CredentialValueView), key: Seq<char>)
    requires
        0 <= i < fs.len(),
        fs[i].0 == f.0,
        f.0 != key,
    ensures
        field_value(fs.update(i, f), key) == field_value(fs, key),
    decreases fs.len(),
{
    let u = fs.update(i, f);
    if i == fs.len() - 1 {
        assert(u.drop_last() =~= fs.drop_last());
    } else {
        assert(u.drop_last() =~= fs.drop_last().update(i, f));
        lemma_value_update_other(fs.drop_last(), i, f, key);
    }
}

/// In a payload with distinct names, the field set in place is read back.
proof fn lemma_value_update_same(fs: Seq<(Seq<char>, CredentialValueView)>, i: int, f: (Seq<char>, CredentialValueView))
    requires
        0 <= i < fs.len(),
        fs[i].0 == f.0,
        distinct_names(fs),
    ensures
        field_value(fs.update(i, f), f.0) == Some(f.1),
    decreases fs.len(),
{
    let u = fs.update(i, f);
    if i < fs.len() - 1 {
        assert(u.drop_last() =~= fs.drop_last().update(i, f));
        assert(u.last() == fs.last());
        assert(fs[i].0 != fs[fs.len() - 1].0);
        assert(distinct_names(fs.drop_last()));
        lemma_value_update_same(fs.drop_last(), i, f);
    }
}

/// Setting a field keeps names distinct, and reads back as expected.
proof fn lemma_set_field(fs: Seq<(Seq<char>, CredentialValueView)>, f: (Seq<char>, CredentialValueView), key: Seq<char>)
    requires
        distinct_names(fs),
    ensures
        distinct_names(set_field(fs, f)),
        field_value(set_field(fs, f), key) == if key == f.0 { Some(f.1) } else { field_value(fs, key) },
{
    lemma_field_index(fs, f.0);
    let t = set_field(fs, f);
    match field_index(fs, f.0) {
        Some(i) => {
            assert forall|a: int, b: int| 0 <= a < b < t.len() implies #[trigger] t[a].0 != #[trigger] t[b].0 by {
                assert(t[a].0 == fs[a].0);
                assert(t[b].0 == fs[b].0);
            }
            if key == f.0 {
                lemma_value_update_same(fs, i, f);
            } else {
                lemma_value_update_other(fs, i, f, key);
            }
        },
        None => {
            assert forall|a: int, b: int| 0 <= a < b < t.len() implies #[trigger] t[a].0 != #[trigger] t[b].0 by {
                assert(t[a] == fs[a]);
                if b < fs.len() {
                    assert(t[b] == fs[b]);
                }
            }
            assert(t.drop_last() =~= fs);
        },
    }
}

/// The position of the first field named `key`, if any.
fn field_position(fs: &Vec<(String, CredentialValue)>, key: &str) -> (r: Option<usize>)
    ensures
        match r {
            Some(k) => field_index(field_views(fs@), key@) == Some(k as int),
            None => field_index(field_views(fs@), key@) is None,
        },
{
    let n = fs.len();
    let ghost v = field_views(fs@);
    for i in 0..n
        invariant
            n == fs@.len(),
            v == field_views(fs@),
            forall|j: int| 0 <= j < i ==> v[j].0 != key@,
    {
        if str_eq(fs[i].0.as_str(), key) {
            proof {
                lemma_field_index_is(v, key@, i as int);
            }
            return Some(i);
        }
    }
    proof {
        lemma_field_index_is(v, key@, n as int);
    }
    None
}

/// Merges credential updates into a stored payload (`Map::insert` of each
/// kept update): updates that are null or empty text keep the stored value,
/// the others take the place of the stored field of their name, or come
/// last.
pub fn merge_connection_credentials(existing: Vec<(String, CredentialValue)>, updates: Vec<(String, CredentialValue)>) -> (r: Vec<(String, CredentialValue)>)
    ensures
        field_views(r@) == merged_fields(field_views(existing@), replacing(field_views(updates@))),
        distinct_names(field_views(existing@)) ==> distinct_names(field_views(r@)),
{
    let mut out = existing;
    let ghost base = field_views(out@);
    let mut rest = updates;
    let ghost all = field_views(rest@);
    let n = rest.len();
    let mut i: usize = 0;
    proof {
        assert(all.take(0) =~= Seq::<(Seq<char>, CredentialValueView)>::empty());
    }
    while i < n
        invariant
            n == all.len(),
            i <= n,
            rest@.len() == n - i,
            forall|k: int| 0 <= k < rest@.len() ==> #[trigger] field_view(rest@[k]) == all[i + k],
            field_views(out@) == merged_fields(base, replacing(all.take(i as int))),
            distinct_names(base) ==> distinct_names(field_views(out@)),
        decreases n - i,
    {
        let ghost r0 = rest@;
        proof {
            assert(field_view(r0[0]) == all[i + 0]);
        }
        let update = rest.remove(0);
        proof {
            assert(rest@ == r0.remove(0));
            assert forall|k: int| 0 <= k < rest@.len() implies #[trigger] field_view(rest@[k]) == all[(i + 1) + k] by {
                assert(rest@[k] == r0[k + 1]);
                assert(field_view(r0[k + 1]) == all[i + (k + 1)]);
            }
            assert(all.take(i + 1).drop_last() =~= all.take(i as int));
            assert(all.take(i + 1).last() == field_view(update));
        }
        let keep = match &update.1 {
            CredentialValue::Null => false,
            CredentialValue::Text(t) => t.as_str().unicode_len() != 0,
            CredentialValue::Other(_) => true,
        };
        if keep {
            let ghost prior = field_views(out@);
            let ghost f = field_view(update);
            proof {
                assert(replacing(all.take(i + 1)) == replacing(all.take(i as int)).push(f));
                assert(replacing(all.take(i as int)).push(f).drop_last() =~= replacing(all.take(i as int)));
                if distinct_names(base) {
                    lemma_set_field(prior, f, f.0);
                }
                lemma_field_index(prior, f.0);
                assert(prior.len() == out@.len());
                let us = replacing(all.take(i + 1));
                assert(us.drop_last() == replacing(all.take(i as int)));
                assert(us.last() == f);
                assert(merged_fields(base, us) == set_field(prior, f));
            }
            match field_position(&out, update.0.as_str()) {
                Some(k) => {
                    out.set(k, update);
                    proof {
                        assert(field_views(out@) =~= prior.update(k as int, f));
                    }
                },
                None => {
                    out.push(update);
                    proof {
                        assert(field_views(out@) =~= prior.push(f));
                    }
                },
            }
        }
        proof {
            if !keep {
                assert(!replaces(all[i as int].1));
                assert(replacing(all.take(i + 1)) == replacing(all.take(i as int)));
            }
        }
        i = i + 1;
    }
    proof {
        assert(all.take(n as int) =~= all);
    }
    out
}

/// Reading a merged payload whose stored fields have distinct names: a
/// field that some update replaces has the last such update's value; any
/// other field keeps its stored value; and the names stay distinct.
pub proof fn lemma_merge_reads_back(stored: Seq<(Seq<char>, CredentialValueView)>, updates: Seq<(Seq<char>, CredentialValueView)>, key: Seq<char>)
    requires
        distinct_names(stored),
    ensures
        distinct_names(merged_fields(stored, replacing(updates))),
        field_value(merged_fields(stored, replacing(updates)), key) == match field_value(replacing(updates), key) {
            Some(v) => Some(v),
            None => field_value(stored, key),
        },
{
    lemma_merged_reads_back(stored, replacing(updates), key);
}

proof fn lemma_merged_reads_back(stored: Seq<(Seq<char>, CredentialValueView)>, us: Seq<(Seq<char>, CredentialValueView)>, key: Seq<char>)
    requires
        distinct_names(stored),
    ensures
        distinct_names(merged_fields(stored, us)),
        field_value(merged_fields(stored, us), key) == match field_value(us, key) {
            Some(v) => Some(v),
            None => field_value(stored, key),
        },
    decreases us.len(),
{
    if us.len() > 0 {
        lemma_merged_reads_back(stored, us.drop_last(), key);
        lemma_set_field(merged_fields(stored, us.drop_last()), us.last(), key);
    }
}

/// An icon choice for a mounted drive.
#[derive(Debug)]
pub enum DriveIcon {
    /// One of the icons that come with the system or the application.
    Builtin(String),
    /// An icon file of the user's, by its path.
    Custom(String),
}

/// Whether an icon setting names a built-in icon: one of the named ones, or
/// a stock or `shell32` icon number.
pub open spec fn builtin_icon(icon: Seq<char>) -> bool {
    ||| icon == "system"@ || icon == "bifrost"@ || icon == "windows_local"@ || icon == "windows_network"@
    ||| (icon.len() >= 6 && icon.take(6) == "stock:"@ && parsed_i32(icon.skip(6)) is Some)
    ||| (icon.len() >= 8 && icon.take(8) == "shell32:"@ && parsed_i32(icon.skip(8)) is Some)
}

/// The drive type and icon a presentation setting asks for: a blank type is
/// `network`, the type must be `network` or `local`; a blank or missing icon
/// is `system`.
pub open spec fn presentation_outcome(drive_type: Seq<char>, drive_icon: Option<Seq<char>>) -> Result<(Seq<char>, Seq<char>), Seq<char>> {
    let t = trimmed(drive_type);
    let kind = if t.len() == 0 { "network"@ } else { t };
    let icon = match drive_icon {
        Some(i) => if trimmed(i).len() == 0 { "system"@ } else { trimmed(i) },
        None => "system"@,
    };
    if kind != "network"@ && kind != "local"@ {
        Err("Drive type must be network or local"@)
    } else {
        Ok((kind, icon))
    }
}

/// The text after `k` characters, when it starts with `prefix`.
fn after_prefix(v: &[char], prefix: &str) -> (r: Option<Vec<char>>)
    ensures
        match r {
            Some(rest) => prefix@.len() <= v@.len() && v@.take(prefix@.len() as int) == prefix@ && rest@ == v@.skip(prefix@.len() as int),
            None => !(prefix@.len() <= v@.len() && v@.take(prefix@.len() as int) == prefix@),
        },
{
    let p = chars_of(prefix);
    if !chars_start_with(v, p.as_slice()) {
        return None;
    }
    let k = p.len();
    let mut rest: Vec<char> = Vec::new();
    for i in k..v.len()
        invariant
            k <= v@.len(),
            rest@ == v@.subrange(k as int, i as int),
    {
        rest.push(v[i]);
        proof {
            assert(v@.subrange(k as int, i + 1) =~= v@.subrange(k as int, i as int).push(v@[i as int]));
        }
    }
    proof {
        assert(v@.subrange(k as int, v@.len() as int) =~= v@.skip(k as int));
    }
    Some(rest)
}

/// Reads a presentation setting: the drive type (which must be `network` or
/// `local`) and whether the icon is built in or a file of the user's.
pub fn drive_presentation(drive_type: &str, drive_icon: Option<&str>) -> (r: Result<(String, DriveIcon), String>)
    ensures
        match presentation_outcome(drive_type@, match drive_icon { Some(i) => Some(i@), None => None }) {
            Err(m) => r matches Err(e) && e@ == m,
            Ok((kind, icon)) => r matches Ok((k, i)) && k@ == kind && if builtin_icon(icon) {
                i matches DriveIcon::Builtin(b) && b@ == icon
            } else {
                i matches DriveIcon::Custom(c) && c@ == icon
            },
        },
{
    proof {
        reveal_strlit("network");
        reveal_strlit("local");
        reveal_strlit("system");
        reveal_strlit("stock:");
        reveal_strlit("shell32:");
    }
    let type_chars = chars_of(drive_type);
    let t = trim_chars(type_chars.as_slice());
    let kind = if t.len() == 0 { String::from_str("network") } else { string_from_chars(t.as_slice()) };
    if !str_eq(kind.as_str(), "network") && !str_eq(kind.as_str(), "local") {
        return Err(String::from_str("Drive type must be network or local"));
    }
    let icon_chars: Vec<char> = match drive_icon {
        Some(i) => {
            let c = chars_of(i);
            let ti = trim_chars(c.as_slice());
            if ti.len() == 0 { chars_of("system") } else { ti }
        },
        None => chars_of("system"),
    };
    let icon = string_from_chars(icon_chars.as_slice());
    let named = str_eq(icon.as_str(), "system") || str_eq(icon.as_str(), "bifrost") || str_eq(icon.as_str(), "windows_local")
        || str_eq(icon.as_str(), "windows_network");
    let stock = match after_prefix(icon_chars.as_slice(), "stock:") {
        Some(rest) => parse_i32(rest.as_slice()).is_some(),
        None => false,
    };
    let shell = match after_prefix(icon_chars.as_slice(), "shell32:") {
        Some(rest) => parse_i32(rest.as_slice()).is_some(),
        None => false,
    };
    if named || stock || shell {
        Ok((kind, DriveIcon::Builtin(icon)))
    } else {
        Ok((kind, DriveIcon::Custom(icon)))
    }
}

/// Whether an icon file extension (ignoring ASCII case) is one the drive
/// icon can be made from.
pub open spec fn supported_icon_extension(extension: Seq<char>) -> bool {
    let e = ascii_lower_seq(extension);
    e == "ico"@ || e == "exe"@ || e == "dll"@ || e == "png"@ || e == "jpg"@ || e == "jpeg"@ || e == "webp"@
}

/// Checks a custom icon file, given its extension and whether its path is
/// absolute and names an existing file.
pub fn check_custom_icon(extension: Option<&str>, is_absolute: bool, is_file: bool) -> (r: Result<(), String>)
    ensures
        r is Ok <==> (is_absolute && is_file && match extension { Some(e) => supported_icon_extension(e@), None => false }),
        r matches Err(m) ==> m@ == "Custom drive icon must be an existing .ico, .exe, .dll, .png, .jpg, or .webp file"@,
{
    let supported = match extension {
        Some(e) => {
            let c = chars_of(e);
            let lower = chars_to_ascii_lower(c.as_slice());
            let text = string_from_chars(lower.as_slice());
            let t = text.as_str();
            str_eq(t, "ico") || str_eq(t, "exe") || str_eq(t, "dll") || str_eq(t, "png") || str_eq(t, "jpg")
                || str_eq(t, "jpeg") || str_eq(t, "webp")
        },
        None => false,
    };
    if !is_absolute || !is_file || !supported {
        return Err(String::from_str("Custom drive icon must be an existing .ico, .exe, .dll, .png, .jpg, or .webp file"));
    }
    Ok(())
}

/// The drive icon a connection's settings name: the `drive_icon` text, or
/// `system` where there is none; settings that are no JSON are refused.
pub fn drive_icon_setting(configuration_json: &str) -> (r: Result<String, String>)
    ensures
        match json_field_of(configuration_json@, "drive_icon"@) {
            JsonFieldView::Invalid => r matches Err(e) && e@ == "Connection configuration is invalid"@,
            JsonFieldView::Text(t) => r matches Ok(i) && i@ == t,
            _ => r matches Ok(i) && i@ == "system"@,
        },
{
    match json_field(configuration_json, "drive_icon") {
        JsonField::Invalid => Err(String::from_str("Connection configuration is invalid")),
        JsonField::Text(t) => Ok(t),
        _ => Ok(String::from_str("system")),
    }
}

/// `s` with every leading copy of `p` cut off (as `trim_start_matches`).
pub open spec fn without_leading(s: Seq<char>, p: Seq<char>) -> Seq<char>
    decreases s.len(),
{
    if p.len() > 0 && p.len() <= s.len() && s.take(p.len() as int) == p {
        without_leading(s.skip(p.len() as int), p)
    } else {
        s
    }
}

/// Cuts every leading copy of a non-empty `p` off `s`.
fn strip_all_leading(s: &[char], p: &str) -> (r: Vec<char>)
    ensures
        r@ == without_leading(s@, p@),
{
    let pc = chars_of(p);
    let mut rest: Vec<char> = Vec::new();
    for i in 0..s.len()
        invariant
            rest@ == s@.take(i as int),
    {
        rest.push(s[i]);
        proof {
            assert(s@.take(i + 1) =~= s@.take(i as int).push(s@[i as int]));
        }
    }
    proof {
        assert(s@.take(s@.len() as int) =~= s@);
    }
    if pc.len() == 0 {
        return rest;
    }
    loop
        invariant
            pc@ == p@,
            pc@.len() > 0,
            without_leading(rest@, p@) == without_leading(s@, p@),
        decreases rest@.len(),
    {
        if !chars_start_with(rest.as_slice(), pc.as_slice()) {
            return rest;
        }
        let k = pc.len();
        let mut next: Vec<char> = Vec::new();
        for i in k..rest.len()
            invariant
                k <= rest@.len(),
                next@ == rest@.subrange(k as int, i as int),
        {
            next.push(rest[i]);
            proof {
                assert(rest@.subrange(k as int, i + 1) =~= rest@.subrange(k as int, i as int).push(rest@[i as int]));
            }
        }
        proof {
            assert(rest@.subrange(k as int, rest@.len() as int) =~= rest@.skip(k as int));
        }
        rest = next;
    }
}

/// The decimal text of a signed number.
pub open spec fn signed_decimal_text(n: int) -> Seq<char> {
    if n < 0 { "-"@ + crate::text::decimal_text((-n) as nat) } else { crate::text::decimal_text(n as nat) }
}

/// Appends the decimal text of a signed number.
pub fn push_signed_decimal(s: &mut String, n: i32)
    ensures
        final(s)@ == old(s)@ + signed_decimal_text(n as int),
{
    let ghost start = s@;
    if n < 0 {
        s.append("-");
        let magnitude: u64 = (0i64 - n as i64) as u64;
        crate::text::push_decimal(s, magnitude);
        proof {
            assert(s@ =~= start + ("-"@ + crate::text::decimal_text((-n) as nat)));
        }
    } else {
        crate::text::push_decimal(s, n as u64);
    }
}

/// Where a drive's icon comes from.
#[derive(Debug)]
pub enum IconSource {
    /// The system's own drive icon.
    System,
    /// An icon named as a file and an index, in the registry's spelling.
    Text(String),
    /// The Windows stock icon with this id.
    Stock(i32),
    /// A picture file, to be turned into an icon first.
    Picture(String),
}

/// Whether a custom icon file is a picture (by its extension, in any ASCII
/// case).
pub open spec fn is_picture_extension(extension: Option<Seq<char>>) -> bool {
    match extension {
        Some(e) => {
            let l = ascii_lower_seq(e);
            l == "png"@ || l == "jpg"@ || l == "jpeg"@ || l == "webp"@
        },
        None => false,
    }
}

/// Whether a text starts with `p`.
pub open spec fn begins_with(s: Seq<char>, p: Seq<char>) -> bool {
    p.len() <= s.len() && s.take(p.len() as int) == p
}

/// Whether an icon setting is one of the named icons.
pub open spec fn is_named_icon(icon: Seq<char>) -> bool {
    icon == "system"@ || icon == "bifrost"@ || icon == "windows_local"@ || icon == "windows_network"@
}

/// Where the icon named by a setting comes from: the system's icon, the
/// application's own (from its executable), the Windows local or network
/// drive icon, a stock icon by id, a `SHELL32.dll` icon by index, a picture
/// to convert, or an icon file; an id or index that is no number is
/// refused. The Windows folder, the executable's path and the extension of
/// the icon's file are given.
pub fn icon_source(icon: &str, windows_root: &str, executable: &str, extension: Option<&str>) -> (r: Result<IconSource, String>)
    ensures
        icon@ == "system"@ ==> r matches Ok(IconSource::System),
        icon@ == "bifrost"@ ==> (r matches Ok(IconSource::Text(t)) && t@ == "\""@ + executable@ + "\",0"@),
        icon@ == "windows_local"@ ==> (r matches Ok(IconSource::Text(t)) && t@ == windows_root@ + "\\System32\\shell32.dll,8"@),
        icon@ == "windows_network"@ ==> (r matches Ok(IconSource::Text(t)) && t@ == windows_root@ + "\\System32\\shell32.dll,9"@),
        !is_named_icon(icon@) && begins_with(icon@, "stock:"@) ==> match parsed_i32(without_leading(icon@, "stock:"@)) {
            Some(n) => r matches Ok(IconSource::Stock(x)) && x == n,
            None => r matches Err(m) && m@ == "Invalid Windows stock icon"@,
        },
        !is_named_icon(icon@) && !begins_with(icon@, "stock:"@) && begins_with(icon@, "shell32:"@) ==> match parsed_i32(
            without_leading(icon@, "shell32:"@),
        ) {
            Some(n) => r matches Ok(IconSource::Text(t)) && t@ == "\""@ + windows_root@ + "\\System32\\SHELL32.dll\","@
                + signed_decimal_text(n as int),
            None => r matches Err(m) && m@ == "Invalid shell32 icon index"@,
        },
        !is_named_icon(icon@) && !begins_with(icon@, "stock:"@) && !begins_with(icon@, "shell32:"@) ==> if is_picture_extension(
            match extension {
                Some(e) => Some(e@),
                None => None,
            },
        ) {
            r matches Ok(IconSource::Picture(p)) && p@ == icon@
        } else {
            r matches Ok(IconSource::Text(t)) && t@ == "\""@ + icon@ + "\",0"@
        },
{
    proof {
        reveal_strlit("system");
        reveal_strlit("bifrost");
        reveal_strlit("windows_local");
        reveal_strlit("windows_network");
        reveal_strlit("stock:");
        reveal_strlit("shell32:");
    }
    if str_eq(icon, "system") {
        return Ok(IconSource::System);
    }
    if str_eq(icon, "bifrost") {
        let mut t = String::from_str("\"");
        t.append(executable);
        t.append("\",0");
        return Ok(IconSource::Text(t));
    }
    if str_eq(icon, "windows_local") {
        let mut t = String::from_str(windows_root);
        t.append("\\System32\\shell32.dll,8");
        return Ok(IconSource::Text(t));
    }
    if str_eq(icon, "windows_network") {
        let mut t = String::from_str(windows_root);
        t.append("\\System32\\shell32.dll,9");
        return Ok(IconSource::Text(t));
    }
    let chars = chars_of(icon);
    let stock = chars_of("stock:");
    if chars_start_with(chars.as_slice(), stock.as_slice()) {
        let rest = strip_all_leading(chars.as_slice(), "stock:");
        return match parse_i32(rest.as_slice()) {
            Some(id) => Ok(IconSource::Stock(id)),
            None => Err(String::from_str("Invalid Windows stock icon")),
        };
    }
    let shell = chars_of("shell32:");
    if chars_start_with(chars.as_slice(), shell.as_slice()) {
        let rest = strip_all_leading(chars.as_slice(), "shell32:");
        return match parse_i32(rest.as_slice()) {
            Some(index) => {
                let mut t = String::from_str("\"");
                t.append(windows_root);
                t.append("\\System32\\SHELL32.dll\",");
                push_signed_decimal(&mut t, index);
                Ok(IconSource::Text(t))
            },
            None => Err(String::from_str("Invalid shell32 icon index")),
        };
    }
    let picture = match extension {
        Some(e) => {
            let c = chars_of(e);
            let lower = chars_to_ascii_lower(c.as_slice());
            let text = string_from_chars(lower.as_slice());
            let t = text.as_str();
            str_eq(t, "png") || str_eq(t, "jpg") || str_eq(t, "jpeg") || str_eq(t, "webp")
        },
        None => false,
    };
    if picture {
        Ok(IconSource::Picture(String::from_str(icon)))
    } else {
        let mut t = String::from_str("\"");
        t.append(icon);
        t.append("\",0");
        Ok(IconSource::Text(t))
    }
}

} // verus!
