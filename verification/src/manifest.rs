//! The manifest: the remotely published descriptor of the expected state,
//! and the rules for assembling it from a parsed payload. `modpack_dir`,
//! `version` and `mods_url` are mandatory; the display name, changelog and
//! blacklist default to empty.

use vstd::prelude::*;

verus! {

/// The descriptor parsed from a manifest payload. Immutable once parsed.
#[derive(Debug)]
pub struct ModpackDescriptor {
    /// Display name of the modpack.
    pub modpack: String,
    /// The target subdirectory under the instances root.
    pub modpack_dir: String,
    /// The declared version, an opaque token.
    pub version: String,
    /// Free-text changelog.
    pub changelog: String,
    /// Relative paths that must not exist after a successful run.
    pub blacklist: Vec<String>,
    /// Where the archive is published.
    pub mods_url: String,
}

/// Why a manifest payload was rejected.
#[derive(PartialEq, Eq, Structural, Debug, Clone, Copy)]
pub enum ManifestError {
    /// The payload is not well-formed structured data.
    Syntax,
    /// A field is present but has the wrong shape.
    Malformed,
    /// `modpack_dir` is missing.
    MissingTargetDir,
    /// `version` is missing.
    MissingVersion,
    /// `mods_url` is missing.
    MissingArchiveUrl,
}

/// Assembles a descriptor from the raw fields of a parsed payload. The
/// mandatory fields are checked in the order target directory, version,
/// archive location; the rest default to empty when absent.
pub fn build_descriptor(
    modpack: Option<String>,
    modpack_dir: Option<String>,
    version: Option<String>,
    changelog: Option<String>,
    blacklist: Option<Vec<String>>,
    mods_url: Option<String>,
) -> (r: Result<ModpackDescriptor, ManifestError>)
    ensures
        r is Ok <==> modpack_dir is Some && version is Some && mods_url is Some,
        modpack_dir is None ==> r == Err::<ModpackDescriptor, ManifestError>(
            ManifestError::MissingTargetDir,
        ),
        modpack_dir is Some && version is None ==> r == Err::<ModpackDescriptor, ManifestError>(
            ManifestError::MissingVersion,
        ),
        modpack_dir is Some && version is Some && mods_url is None ==> r == Err::<
            ModpackDescriptor,
            ManifestError,
        >(ManifestError::MissingArchiveUrl),
        r matches Ok(d) ==> {
            &&& d.modpack_dir == modpack_dir.unwrap()
            &&& d.version == version.unwrap()
            &&& d.mods_url == mods_url.unwrap()
            &&& d.modpack@ == (if modpack is Some {
                modpack.unwrap()@
            } else {
                Seq::<char>::empty()
            })
            &&& d.changelog@ == (if changelog is Some {
                changelog.unwrap()@
            } else {
                Seq::<char>::empty()
            })
            &&& d.blacklist@ == (if blacklist is Some {
                blacklist.unwrap()@
            } else {
                Seq::<String>::empty()
            })
        },
{
    let dir = match modpack_dir {
        Some(d) => d,
        None => {
            return Err(ManifestError::MissingTargetDir);
        },
    };
    let ver = match version {
        Some(v) => v,
        None => {
            return Err(ManifestError::MissingVersion);
        },
    };
    let url = match mods_url {
        Some(u) => u,
        None => {
            return Err(ManifestError::MissingArchiveUrl);
        },
    };
    let name = match modpack {
        Some(s) => s,
        None => String::new(),
    };
    let log = match changelog {
        Some(s) => s,
        None => String::new(),
    };
    let bl = match blacklist {
        Some(b) => b,
        None => Vec::new(),
    };
    proof {
        assert(Seq::<String>::empty() =~= Seq::<String>::empty());
    }
    Ok(
        ModpackDescriptor {
            modpack: name,
            modpack_dir: dir,
            version: ver,
            changelog: log,
            blacklist: bl,
            mods_url: url,
        },
    )
}

/// Is the payload well-formed JSON? A function of the text alone.
pub uninterp spec fn json_wf(text: Seq<char>) -> bool;

/// Does the payload's root object carry a field named `key`?
pub uninterp spec fn json_has_field(text: Seq<char>, key: Seq<char>) -> bool;

/// The characters of root field `key`, when it is present and is a string.
pub uninterp spec fn json_str_field(text: Seq<char>, key: Seq<char>) -> Option<Seq<char>>;

/// The strings of root field `key`, when it is present and is an array of
/// strings.
pub uninterp spec fn json_str_list_field(text: Seq<char>, key: Seq<char>) -> Option<
    Seq<Seq<char>>,
>;

/// Root field `key` is present but is not a string.
pub open spec fn bad_str_field(text: Seq<char>, key: Seq<char>) -> bool {
    json_has_field(text, key) && json_str_field(text, key) is None
}

/// Root field `key` is present but is not an array of strings.
pub open spec fn bad_list_field(text: Seq<char>, key: Seq<char>) -> bool {
    json_has_field(text, key) && json_str_list_field(text, key) is None
}

/// Some field of the payload has the wrong shape for the manifest.
pub open spec fn wrong_shape(text: Seq<char>) -> bool {
    ||| bad_str_field(text, "modpack"@)
    ||| bad_str_field(text, "modpack_dir"@)
    ||| bad_str_field(text, "version"@)
    ||| bad_str_field(text, "changelog"@)
    ||| bad_str_field(text, "mods_url"@)
    ||| bad_list_field(text, "blacklist"@)
}

/// What one root field of the payload holds.
enum FieldValue {
    /// The field is not there.
    Missing,
    /// The field is a string.
    Text(String),
    /// The field has some other shape.
    Other,
}

/// What an array-of-strings root field of the payload holds.
enum ListValue {
    /// The field is not there.
    Missing,
    /// The field is an array of strings.
    Items(Vec<String>),
    /// The field has some other shape.
    Other,
}

/// Relies on serde_json::from_str: whether the payload parses as JSON,
/// which is deterministic in the text.
#[verifier::external_body]
fn payload_is_json(text: &str) -> (r: bool)
    ensures
        r == json_wf(text@),
{
    serde_json::from_str::<serde_json::Value>(text).is_ok()
}

/// Relies on serde_json::from_str, Value::get and Value::as_str: reads one
/// root field of a well-formed payload, telling an absent field, a string
/// field (whose characters it copies out) and a field of any other shape
/// apart.
#[verifier::external_body]
fn read_str_field(text: &str, key: &str) -> (r: FieldValue)
    requires
        json_wf(text@),
    ensures
        r is Missing <==> !json_has_field(text@, key@),
        r is Text <==> json_str_field(text@, key@) is Some,
        r matches FieldValue::Text(s) ==> json_str_field(text@, key@) == Some(s@),
{
    let root: serde_json::Value = match serde_json::from_str(text) {
        Ok(v) => v,
        Err(_) => return FieldValue::Other,
    };
    match root.get(key) {
        None => FieldValue::Missing,
        Some(f) => match f.as_str() {
            Some(s) => FieldValue::Text(s.to_owned()),
            None => FieldValue::Other,
        },
    }
}

/// Relies on serde_json::from_str, Value::get, Value::as_array and
/// Value::as_str: reads one array-of-strings root field of a well-formed
/// payload, copying the strings out.
#[verifier::external_body]
fn read_str_list_field(text: &str, key: &str) -> (r: ListValue)
    requires
        json_wf(text@),
    ensures
        r is Missing <==> !json_has_field(text@, key@),
        r is Items <==> json_str_list_field(text@, key@) is Some,
        r matches ListValue::Items(v) ==> json_str_list_field(text@, key@) == Some(v.deep_view()),
{
    let root: serde_json::Value = match serde_json::from_str(text) {
        Ok(v) => v,
        Err(_) => return ListValue::Other,
    };
    let arr = match root.get(key) {
        None => return ListValue::Missing,
        Some(f) => match f.as_array() {
            Some(a) => a,
            None => return ListValue::Other,
        },
    };
    match arr.iter().map(|e| e.as_str().map(str::to_owned)).collect() {
        Some(items) => ListValue::Items(items),
        None => ListValue::Other,
    }
}

/// Parses a manifest payload into a descriptor. The payload must be
/// well-formed JSON; `modpack_dir`, `version` and `mods_url` are mandatory
/// strings, `modpack` and `changelog` are optional strings, and `blacklist`
/// is an optional array of strings, all defaulting to empty. A field of the
/// wrong shape is `Malformed`, and wrong shapes are reported before missing
/// mandatory fields.
pub fn parse_manifest(text: &str) -> (r: Result<ModpackDescriptor, ManifestError>)
    ensures
        r == Err::<ModpackDescriptor, ManifestError>(ManifestError::Syntax) <==> !json_wf(text@),
        r == Err::<ModpackDescriptor, ManifestError>(ManifestError::Malformed) <==> json_wf(text@)
            && wrong_shape(text@),
        r == Err::<ModpackDescriptor, ManifestError>(ManifestError::MissingTargetDir) <==> json_wf(
            text@,
        ) && !wrong_shape(text@) && !json_has_field(text@, "modpack_dir"@),
        r == Err::<ModpackDescriptor, ManifestError>(ManifestError::MissingVersion) <==> json_wf(
            text@,
        ) && !wrong_shape(text@) && json_has_field(text@, "modpack_dir"@) && !json_has_field(
            text@,
            "version"@,
        ),
        r == Err::<ModpackDescriptor, ManifestError>(ManifestError::MissingArchiveUrl) <==> json_wf(
            text@,
        ) && !wrong_shape(text@) && json_has_field(text@, "modpack_dir"@) && json_has_field(
            text@,
            "version"@,
        ) && !json_has_field(text@, "mods_url"@),
        r is Ok <==> json_wf(text@) && !wrong_shape(text@) && json_has_field(text@, "modpack_dir"@)
            && json_has_field(text@, "version"@) && json_has_field(text@, "mods_url"@),
        r matches Ok(d) ==> {
            &&& d.modpack_dir@ == json_str_field(text@, "modpack_dir"@).unwrap()
            &&& d.version@ == json_str_field(text@, "version"@).unwrap()
            &&& d.mods_url@ == json_str_field(text@, "mods_url"@).unwrap()
            &&& d.modpack@ == (if json_has_field(text@, "modpack"@) {
                json_str_field(text@, "modpack"@).unwrap()
            } else {
                Seq::<char>::empty()
            })
            &&& d.changelog@ == (if json_has_field(text@, "changelog"@) {
                json_str_field(text@, "changelog"@).unwrap()
            } else {
                Seq::<char>::empty()
            })
            &&& d.blacklist.deep_view() == (if json_has_field(text@, "blacklist"@) {
                json_str_list_field(text@, "blacklist"@).unwrap()
            } else {
                Seq::<Seq<char>>::empty()
            })
        },
{
    if !payload_is_json(text) {
        return Err(ManifestError::Syntax);
    }
    let modpack = match read_str_field(text, "modpack") {
        FieldValue::Missing => None,
        FieldValue::Text(s) => Some(s),
        FieldValue::Other => {
            return Err(ManifestError::Malformed);
        },
    };
    let modpack_dir = match read_str_field(text, "modpack_dir") {
        FieldValue::Missing => None,
        FieldValue::Text(s) => Some(s),
        FieldValue::Other => {
            return Err(ManifestError::Malformed);
        },
    };
    let version = match read_str_field(text, "version") {
        FieldValue::Missing => None,
        FieldValue::Text(s) => Some(s),
        FieldValue::Other => {
            return Err(ManifestError::Malformed);
        },
    };
    let changelog = match read_str_field(text, "changelog") {
        FieldValue::Missing => None,
        FieldValue::Text(s) => Some(s),
        FieldValue::Other => {
            return Err(ManifestError::Malformed);
        },
    };
    let mods_url = match read_str_field(text, "mods_url") {
        FieldValue::Missing => None,
        FieldValue::Text(s) => Some(s),
        FieldValue::Other => {
            return Err(ManifestError::Malformed);
        },
    };
    let blacklist = match read_str_list_field(text, "blacklist") {
        ListValue::Missing => None,
        ListValue::Items(v) => Some(v),
        ListValue::Other => {
            return Err(ManifestError::Malformed);
        },
    };
    let r = build_descriptor(modpack, modpack_dir, version, changelog, blacklist, mods_url);
    proof {
        if r is Ok {
            assert(r.unwrap().blacklist.deep_view() =~~= (if json_has_field(
                text@,
                "blacklist"@,
            ) {
                json_str_list_field(text@, "blacklist"@).unwrap()
            } else {
                Seq::<Seq<char>>::empty()
            }));
        }
    }
    r
}

} // verus!
