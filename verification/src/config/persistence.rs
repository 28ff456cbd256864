//! Revisions of a configuration file, and changing one mode in it.

use crate::number::{append_decimal, decimal, decimal_reads_back, is_digit};
use crate::config::{parse_mode_text, read_mode};
use crate::paths::{join_path, joined};
use crate::table::{
    has_key, lemma_filter_is_picked, lemma_place_unique, lemma_without_again, lookup, place,
    place_is_the_first, put, put_then_lookup, without, without_is_a_join,
};
use crate::text::{quoted, same_text, splitting_undoes_joining};
use sha2::Digest;
use vstd::prelude::*;

verus! {

// ---------------------------------------------------------------------------------------------
// Revisions
// ---------------------------------------------------------------------------------------------

/// The SHA-256 digest of a text, as `sha2` computes it.
pub uninterp spec fn sha256(content: Seq<char>) -> Seq<u8>;

/// `sha2::Sha256::digest` of the UTF-8 encoding of the text: 32 bytes that depend on the text alone.
#[verifier::external_body]
fn digest(content: &str) -> (bytes: Vec<u8>)
    ensures
        bytes@ == sha256(content@),
        bytes@.len() == 32,
{
    sha2::Sha256::digest(content.as_bytes()).to_vec()
}

/// The hexadecimal digit for a number below sixteen.
pub open spec fn hex_digit(n: nat) -> char {
    if n < 10 {
        ('0' as nat + n) as char
    } else {
        ('a' as nat + (n - 10)) as char
    }
}

/// Bytes in hexadecimal notation, two digits each.
pub open spec fn hex(bytes: Seq<u8>) -> Seq<char>
    decreases bytes.len(),
{
    if bytes.len() == 0 {
        Seq::empty()
    } else {
        hex(bytes.drop_last()).push(hex_digit(bytes.last() as nat / 16)).push(
            hex_digit(bytes.last() as nat % 16),
        )
    }
}

/// Bytes and their hexadecimal notation determine each other.
pub proof fn hex_tells_bytes_apart(a: Seq<u8>, b: Seq<u8>)
    ensures
        hex(a) == hex(b) <==> a == b,
        hex(a).len() == 2 * a.len(),
    decreases a.len(),
{
    if a.len() > 0 {
        let shorter = a.drop_last();
        if b.len() > 0 {
            hex_tells_bytes_apart(shorter, b.drop_last());
            if hex(a) == hex(b) {
                let n = hex(a).len();
                assert(hex(shorter) =~= hex(a).take(n - 2));
                assert(hex(b.drop_last()) =~= hex(b).take(n - 2));
                assert(hex(a)[n - 2] == hex_digit(a.last() as nat / 16));
                assert(hex(b)[n - 2] == hex_digit(b.last() as nat / 16));
                assert(hex(a)[n - 1] == hex_digit(a.last() as nat % 16));
                assert(hex(b)[n - 1] == hex_digit(b.last() as nat % 16));
                lemma_hex_digit(a.last() as nat / 16, b.last() as nat / 16);
                lemma_hex_digit(a.last() as nat % 16, b.last() as nat % 16);
                assert(a.last() == b.last());
                assert(a =~= shorter.push(a.last()));
                assert(b =~= b.drop_last().push(b.last()));
                assert(shorter == b.drop_last());
                assert(a == b);
            }
        } else {
            hex_tells_bytes_apart(shorter, b);
            assert(hex(b).len() == 0);
            assert(hex(a).len() > 0);
        }
    } else if b.len() == 0 {
        assert(a =~= b);
    } else {
        assert(hex(a).len() == 0);
        assert(hex(b).len() > 0);
    }
}

proof fn lemma_hex_digit(m: nat, n: nat)
    requires
        m < 16,
        n < 16,
        hex_digit(m) == hex_digit(n),
    ensures
        m == n,
{
}

fn hex_char(n: u8) -> (digit: char)
    requires
        n < 16,
    ensures
        digit == hex_digit(n as nat),
{
    if n < 10 {
        (48 + n) as char
    } else {
        (87 + n) as char
    }
}

/// The revision of a configuration: the digest of its text in hexadecimal notation.
pub fn revision(content: &str) -> (revision: String)
    ensures
        revision@ == hex(sha256(content@)),
{
    let bytes = digest(content);
    let mut revision = String::new();
    assert(bytes@.take(0) =~= Seq::empty());
    for i in 0..bytes.len()
        invariant
            revision@ == hex(bytes@.take(i as int)),
    {
        let byte: u8 = bytes[i];
        assert(bytes@.take(i + 1).drop_last() =~= bytes@.take(i as int));
        revision.push(hex_char(byte / 16));
        revision.push(hex_char(byte % 16));
    }
    assert(bytes@.take(bytes@.len() as int) =~= bytes@);
    revision
}

// ---------------------------------------------------------------------------------------------
// Replacing the file
// ---------------------------------------------------------------------------------------------

/// The name of a file in the making, which replaces the configuration file once it is complete.
pub open spec fn temporary_name(process: nat, number: nat) -> Seq<char> {
    ".config.toml.nagame-"@ + decimal(process) + seq!['-'] + decimal(number) + ".tmp"@
}

/// The path of a file in the making, in the directory of the configuration file.
pub fn temporary_path(parent: &str, process: u32, number: u64) -> (path: String)
    ensures
        path@ == joined(parent@, temporary_name(process as nat, number as nat)),
{
    let mut name = ".config.toml.nagame-".to_owned();
    append_decimal(&mut name, process as u64);
    name.push('-');
    append_decimal(&mut name, number);
    name.append(".tmp");
    assert(name@ =~= temporary_name(process as nat, number as nat));
    join_path(parent, name.as_str())
}

/// Files in the making have different names if their numbers differ or their processes do.
pub proof fn temporary_names_differ(a: nat, b: nat, m: nat, n: nat)
    ensures
        temporary_name(a, m) == temporary_name(b, n) <==> a == b && m == n,
{
    if temporary_name(a, m) == temporary_name(b, n) {
        let front = ".config.toml.nagame-"@;
        let end = ".tmp"@;
        decimal_reads_back(a);
        decimal_reads_back(b);
        decimal_reads_back(m);
        decimal_reads_back(n);
        assert(!decimal(a).contains('-')) by {
            if decimal(a).contains('-') {
                let k = choose|k: int| 0 <= k < decimal(a).len() && decimal(a)[k] == '-';
                assert(is_digit(decimal(a)[k]));
            }
        }
        assert(!decimal(b).contains('-')) by {
            if decimal(b).contains('-') {
                let k = choose|k: int| 0 <= k < decimal(b).len() && decimal(b)[k] == '-';
                assert(is_digit(decimal(b)[k]));
            }
        }
        let x = decimal(a) + seq!['-'] + (decimal(m) + end);
        let y = decimal(b) + seq!['-'] + (decimal(n) + end);
        assert(temporary_name(a, m).skip(front.len() as int) =~= x);
        assert(temporary_name(b, n).skip(front.len() as int) =~= y);
        splitting_undoes_joining(decimal(a), '-', decimal(m) + end);
        splitting_undoes_joining(decimal(b), '-', decimal(n) + end);
        let s = decimal(m) + end;
        let t = decimal(n) + end;
        assert(s == t);
        assert(decimal(m) =~= s.take(s.len() - end.len()));
        assert(decimal(n) =~= t.take(t.len() - end.len()));
    }
}

// ---------------------------------------------------------------------------------------------
// Documents
// ---------------------------------------------------------------------------------------------

/// `toml_edit::DocumentMut`, a TOML document with its comments and white space.
#[verifier::external_type_specification]
#[verifier::external_body]
pub struct ExDocumentMut(toml_edit::DocumentMut);

/// `toml_edit::TomlError`, why a text is no TOML document.
#[verifier::external_type_specification]
#[verifier::external_body]
pub struct ExTomlError(toml_edit::TomlError);

/// Comments and white space in front of a value and behind it, in its line. Where a document leaves
/// them open, they are a blank in front and nothing behind.
#[verifier::ext_equal]
pub struct Around {
    pub before: Seq<char>,
    pub after: Seq<char>,
}

/// What is around a value for which the document says nothing else.
pub open spec fn plain_around() -> Around {
    Around { before: " "@, after: ""@ }
}

/// What stands under a key of a table.
pub enum TomlEntry {
    /// A string.
    Text { text: Seq<char>, around: Around },
    /// Another value, as the document writes it out, with line feeds for line ends.
    Value { notation: Seq<char>, around: Around },
    /// A table that is made by dotted keys, as the document writes it out, with line feeds for line ends
    /// and with the comments in it.
    Dotted { notation: Seq<char> },
    /// A table or an array of tables with headers of its own, as the document writes it out, with line
    /// feeds for line ends and with the comments in it and in front of it.
    Table { notation: Seq<char> },
    /// An array of tables that is described apart: `profile` in the document, `output` in a profile.
    Apart,
}

impl TomlEntry {
    /// What is around the value.
    pub open spec fn around(self) -> Around {
        match self {
            TomlEntry::Text { around, .. } => around,
            TomlEntry::Value { around, .. } => around,
            _ => plain_around(),
        }
    }

    /// Whether headers of its own begin it.
    pub open spec fn is_headed(self) -> bool {
        self is Table || self is Apart
    }
}

/// A table of the array `profile`: what stands under its keys, and the tables of the array `output`, if
/// `output` is such an array, each by what stands under its keys. What stands under the keys of a table
/// is in the order in which the document begins to write it out, so what has headers comes last.
#[verifier::ext_equal]
pub struct TomlProfile {
    pub entries: Seq<(Seq<char>, TomlEntry)>,
    pub outputs: Option<Seq<Seq<(Seq<char>, TomlEntry)>>>,
}

impl TomlProfile {
    /// The name of the profile, if it is a string.
    pub open spec fn name(self) -> Option<Seq<char>> {
        match lookup(self.entries, "name"@) {
            Some(TomlEntry::Text { text, .. }) => Some(text),
            _ => None,
        }
    }
}

/// What a document holds: what stands under its keys, the tables of the array `profile`, if `profile` is
/// such an array, the keys of the headers that are not part of an entry of an output, and the comments
/// that stand neither around a value nor in an entry, each in the order in which the document writes them
/// out.
#[verifier::ext_equal]
pub struct TomlDocument {
    pub entries: Seq<(Seq<char>, TomlEntry)>,
    pub profiles: Option<Seq<TomlProfile>>,
    pub headers: Seq<Seq<Seq<char>>>,
    pub comments: Seq<Seq<char>>,
}

/// What a document holds.
pub uninterp spec fn document_content(document: toml_edit::DocumentMut) -> TomlDocument;

/// Whether a document can be written out as a text which, when it is read, holds what the document holds.
pub uninterp spec fn reads_back(document: toml_edit::DocumentMut) -> bool;

/// What `toml_edit` reads out of a text; nothing if it is no TOML document.
pub uninterp spec fn toml_content(source: Seq<char>) -> Option<TomlDocument>;

/// What is around the mode of an output, or would be around a new one.
pub open spec fn mode_around(output: Seq<(Seq<char>, TomlEntry)>) -> Around {
    match lookup(output, "mode"@) {
        Some(entry) => entry.around(),
        None => plain_around(),
    }
}

/// How many entries stand in front of the first one with a header.
pub open spec fn values_end(entries: Seq<(Seq<char>, TomlEntry)>) -> int
    decreases entries.len(),
{
    if entries.len() == 0 || entries[0].1.is_headed() {
        0
    } else {
        1 + values_end(entries.skip(1))
    }
}

/// The entries of a table in which this value stands under a key: in place of what stood there, unless
/// that had a header, or else behind all that has none.
pub open spec fn with_value(
    entries: Seq<(Seq<char>, TomlEntry)>,
    key: Seq<char>,
    value: TomlEntry,
) -> Seq<(Seq<char>, TomlEntry)> {
    if has_key(entries, key) && !lookup(entries, key)->0.is_headed() {
        put(entries, key, value)
    } else {
        let others = without(entries, seq![key]);
        others.insert(values_end(others), (key, value))
    }
}

/// The document with this mode for one output, and this around it. Nothing else changes.
pub open spec fn with_mode_entry(
    document: TomlDocument,
    profile: int,
    output: int,
    mode: Seq<char>,
    around: Around,
) -> TomlDocument {
    let profiles = document.profiles->0;
    let outputs = profiles[profile].outputs->0;
    let entry = TomlEntry::Text { text: mode, around };
    TomlDocument {
        profiles: Some(
            profiles.update(
                profile,
                TomlProfile {
                    outputs: Some(
                        outputs.update(output, with_value(outputs[output], "mode"@, entry)),
                    ),
                    ..profiles[profile]
                },
            ),
        ),
        ..document
    }
}

/// The document with this mode for one output. What is around the mode stays, and nothing else changes.
pub open spec fn with_mode(
    document: TomlDocument,
    profile: int,
    output: int,
    mode: Seq<char>,
) -> TomlDocument {
    with_mode_entry(
        document,
        profile,
        output,
        mode,
        mode_around(document.profiles->0[profile].outputs->0[output]),
    )
}

/// Whether a document has this output.
pub open spec fn has_output(document: TomlDocument, profile: int, output: int) -> bool {
    &&& document.profiles is Some
    &&& 0 <= profile < document.profiles->0.len()
    &&& document.profiles->0[profile].outputs is Some
    &&& 0 <= output < document.profiles->0[profile].outputs->0.len()
}

/// `str::parse` into a `toml_edit::DocumentMut`. It succeeds on TOML documents, and what is read
/// depends on the text alone. `toml_edit` keeps what it reads, comments included, so the text of such a
/// document reads as the same document.
#[verifier::external_body]
fn parse_document(source: &str) -> (document: Result<
    toml_edit::DocumentMut,
    toml_edit::TomlError,
>)
    ensures
        match document {
            Ok(document) => toml_content(source@) == Some(document_content(document))
                && reads_back(document),
            Err(_) => toml_content(source@) is None,
        },
{
    source.parse::<toml_edit::DocumentMut>()
}

/// `toml_edit::ArrayOfTables::len` of the item `profile` of the document, if that is an array of
/// tables.
#[verifier::external_body]
fn profile_count(document: &toml_edit::DocumentMut) -> (count: Option<usize>)
    ensures
        count is Some <==> document_content(*document).profiles is Some,
        count matches Some(n) ==> n == document_content(*document).profiles->0.len(),
{
    document.get("profile").and_then(toml_edit::Item::as_array_of_tables).map(|list| list.len())
}

/// `toml_edit::Item::as_str` of the item `name` in one table of the array `profile`, if there is such
/// an item.
#[verifier::external_body]
fn profile_name(document: &toml_edit::DocumentMut, profile: usize) -> (name: Option<String>)
    requires
        document_content(*document).profiles is Some,
        profile < document_content(*document).profiles->0.len(),
    ensures
        match name {
            Some(text) => document_content(*document).profiles->0[profile as int].name() == Some(
                text@,
            ),
            None => document_content(*document).profiles->0[profile as int].name() is None,
        },
{
    document["profile"][profile].get("name").and_then(toml_edit::Item::as_str).map(String::from)
}

/// `toml_edit::ArrayOfTables::len` of the item `output` in one table of the array `profile`, if that
/// is an array of tables.
#[verifier::external_body]
fn output_count(document: &toml_edit::DocumentMut, profile: usize) -> (count: Option<usize>)
    requires
        document_content(*document).profiles is Some,
        profile < document_content(*document).profiles->0.len(),
    ensures
        count is Some <==> document_content(*document).profiles->0[profile as int].outputs is Some,
        count matches Some(n) ==> n == document_content(
            *document,
        ).profiles->0[profile as int].outputs->0.len(),
{
    let outputs = document["profile"][profile].get("output");
    outputs.and_then(toml_edit::Item::as_array_of_tables).map(|list| list.len())
}

/// `toml_edit::Decor::prefix` of the mode of one output, if it has one that is a value: what is in
/// front of it, or none where the document leaves that open.
#[verifier::external_body]
fn mode_prefix(document: &toml_edit::DocumentMut, profile: usize, output: usize) -> (before: Option<
    String,
>)
    requires
        has_output(document_content(*document), profile as int, output as int),
    ensures
        mode_around(
            document_content(*document).profiles->0[profile as int].outputs->0[output as int],
        ).before == match before {
            Some(text) => text@,
            None => plain_around().before,
        },
{
    let mode = document["profile"][profile]["output"][output].get("mode");
    let prefix = mode.and_then(toml_edit::Item::as_value).and_then(|value| value.decor().prefix());
    prefix.and_then(toml_edit::RawString::as_str).map(String::from)
}

/// `toml_edit::Decor::suffix` of the mode of one output, if it has one that is a value: what is behind
/// it, or none where the document leaves that open.
#[verifier::external_body]
fn mode_suffix(document: &toml_edit::DocumentMut, profile: usize, output: usize) -> (after: Option<
    String,
>)
    requires
        has_output(document_content(*document), profile as int, output as int),
    ensures
        mode_around(
            document_content(*document).profiles->0[profile as int].outputs->0[output as int],
        ).after == match after {
            Some(text) => text@,
            None => plain_around().after,
        },
{
    let mode = document["profile"][profile]["output"][output].get("mode");
    let suffix = mode.and_then(toml_edit::Item::as_value).and_then(|value| value.decor().suffix());
    suffix.and_then(toml_edit::RawString::as_str).map(String::from)
}

/// `IndexMut` of a `toml_edit` table: puts a string, with this around it, under the key `mode` of one
/// output. A value keeps its place among the keys, and a new one comes behind the other values. Every
/// other entry of the document stays, and so does every comment elsewhere. A document whose text reads
/// back stays so if what is around the mode stays. The mode has to be a valid one: not every string can be
/// written out.
#[verifier::external_body]
fn set_output_mode(
    document: &mut toml_edit::DocumentMut,
    profile: usize,
    output: usize,
    mode: &str,
    before: &str,
    after: &str,
)
    requires
        has_output(document_content(*old(document)), profile as int, output as int),
        read_mode(mode@) is Ok,
    ensures
        document_content(*final(document)) == with_mode_entry(
            document_content(*old(document)),
            profile as int,
            output as int,
            mode@,
            (Around { before: before@, after: after@ }),
        ),
        reads_back(*old(document)) && (Around { before: before@, after: after@ }) == mode_around(
            document_content(*old(document)).profiles->0[profile as int].outputs->0[output as int],
        ) ==> reads_back(*final(document)),
{
    let mut value = toml_edit::Value::from(mode);
    value.decor_mut().set_prefix(before);
    value.decor_mut().set_suffix(after);
    document["profile"][profile]["output"][output]["mode"] = toml_edit::Item::Value(value);
}

/// `ToString` of a `toml_edit::DocumentMut`. Of the text is said what it holds when it is read; the white
/// space in front of keys and headers is not described.
#[verifier::external_body]
fn render_document(document: &toml_edit::DocumentMut) -> (text: String)
    requires
        reads_back(*document),
    ensures
        toml_content(text@) == Some(document_content(*document)),
{
    document.to_string()
}

// ---------------------------------------------------------------------------------------------
// Updates
// ---------------------------------------------------------------------------------------------

/// Why a mode could not be changed.
#[derive(Clone, Copy, PartialEq, Eq, Debug, Structural)]
pub enum UpdateError {
    /// The text is no TOML document.
    NotToml,
    /// There is no array of profiles.
    NoProfiles,
    /// No profile has the name.
    NoProfile,
    /// The profile has no array of outputs.
    NoOutputs,
    /// The profile has no output at the place.
    NoOutput,
    /// The mode is not one that a valid configuration can have.
    InvalidMode,
}

/// The text of an error about this profile and the output at this place.
pub open spec fn update_message(
    error: UpdateError,
    profile_name: Seq<char>,
    output_index: nat,
) -> Seq<char> {
    match error {
        UpdateError::NotToml => "Failed to parse configuration for targeted update"@,
        UpdateError::NoProfiles => "Configuration does not contain a profile array"@,
        UpdateError::NoProfile => "Profile '"@ + profile_name + "' no longer exists"@,
        UpdateError::NoOutputs => "Profile '"@ + profile_name + "' does not contain outputs"@,
        UpdateError::NoOutput => "Output index "@ + decimal(output_index)
            + " no longer exists in profile '"@ + profile_name + "'"@,
        UpdateError::InvalidMode => "Updated configuration is invalid"@,
    }
}

impl UpdateError {
    /// The text of the error about this profile and the output at this place.
    pub fn message(self, profile_name: &str, output_index: usize) -> (text: String)
        ensures
            text@ == update_message(self, profile_name@, output_index as nat),
    {
        match self {
            UpdateError::NotToml => {
                "Failed to parse configuration for targeted update".to_owned()
            },
            UpdateError::NoProfiles => "Configuration does not contain a profile array".to_owned(),
            UpdateError::NoProfile => quoted("Profile '", profile_name, "' no longer exists"),
            UpdateError::NoOutputs => {
                quoted("Profile '", profile_name, "' does not contain outputs")
            },
            UpdateError::NoOutput => {
                let mut text = "Output index ".to_owned();
                append_decimal(&mut text, output_index as u64);
                text.append(" no longer exists in profile '");
                text.append(profile_name);
                text.append("'");
                text
            },
            UpdateError::InvalidMode => "Updated configuration is invalid".to_owned(),
        }
    }
}

/// The first profile from `from` on that has this name.
pub open spec fn profile_at(profiles: Seq<TomlProfile>, name: Seq<char>, from: int) -> Option<int>
    decreases profiles.len() - from,
{
    if from < 0 || from >= profiles.len() {
        None
    } else if profiles[from].name() == Some(name) {
        Some(from)
    } else {
        profile_at(profiles, name, from + 1)
    }
}

/// Where the mode to be changed stands in what was read out of a text, or why there is none.
pub open spec fn update_target(
    read: Option<TomlDocument>,
    profile_name: Seq<char>,
    output_index: nat,
) -> Result<int, UpdateError> {
    match read {
        None => Err(UpdateError::NotToml),
        Some(document) => match document.profiles {
            None => Err(UpdateError::NoProfiles),
            Some(profiles) => match profile_at(profiles, profile_name, 0) {
                None => Err(UpdateError::NoProfile),
                Some(i) => match profiles[i].outputs {
                    None => Err(UpdateError::NoOutputs),
                    Some(outputs) => if output_index < outputs.len() {
                        Ok(i)
                    } else {
                        Err(UpdateError::NoOutput)
                    },
                },
            },
        },
    }
}

/// Where this mode is to be written in what was read out of a text, or why it cannot be.
pub open spec fn mode_target(
    read: Option<TomlDocument>,
    profile_name: Seq<char>,
    output_index: nat,
    mode: Seq<char>,
) -> Result<int, UpdateError> {
    match update_target(read, profile_name, output_index) {
        Err(error) => Err(error),
        Ok(profile) => if read_mode(mode) is Err {
            Err(UpdateError::InvalidMode)
        } else {
            Ok(profile)
        },
    }
}

/// Changes the mode of one output of a profile in the text of a configuration. The result is a text
/// which, when it is read, differs in that mode only, or says why there is no such output or that the
/// mode is not valid.
pub fn update_output_mode(
    source: &str,
    profile_name: &str,
    output_index: usize,
    mode: &str,
) -> (updated: Result<String, UpdateError>)
    ensures
        match mode_target(toml_content(source@), profile_name@, output_index as nat, mode@) {
            Ok(profile) => updated matches Ok(text) && toml_content(text@) == Some(
                with_mode(toml_content(source@)->0, profile, output_index as int, mode@),
            ),
            Err(error) => updated == Err::<String, UpdateError>(error),
        },
{
    let mut document = match parse_document(source) {
        Ok(document) => document,
        Err(_) => {
            return Err(UpdateError::NotToml);
        },
    };
    let count: usize = match profile_count(&document) {
        Some(count) => count,
        None => {
            return Err(UpdateError::NoProfiles);
        },
    };
    let profile: usize = match find_profile(&document, count, profile_name) {
        Some(profile) => profile,
        None => {
            return Err(UpdateError::NoProfile);
        },
    };
    let outputs: usize = match output_count(&document, profile) {
        Some(outputs) => outputs,
        None => {
            return Err(UpdateError::NoOutputs);
        },
    };
    if output_index >= outputs {
        return Err(UpdateError::NoOutput);
    }
    if parse_mode_text(mode).is_err() {
        return Err(UpdateError::InvalidMode);
    }
    let before = match mode_prefix(&document, profile, output_index) {
        Some(text) => text,
        None => " ".to_owned(),
    };
    let after = match mode_suffix(&document, profile, output_index) {
        Some(text) => text,
        None => "".to_owned(),
    };
    set_output_mode(
        &mut document,
        profile,
        output_index,
        mode,
        before.as_str(),
        after.as_str(),
    );
    Ok(render_document(&document))
}

fn find_profile(document: &toml_edit::DocumentMut, count: usize, name: &str) -> (found: Option<usize>)
    requires
        document_content(*document).profiles is Some,
        count == document_content(*document).profiles->0.len(),
    ensures
        match profile_at(document_content(*document).profiles->0, name@, 0) {
            Some(i) => found == Some(i as usize) && 0 <= i < count,
            None => found is None,
        },
{
    for i in 0..count
        invariant
            document_content(*document).profiles is Some,
            count == document_content(*document).profiles->0.len(),
            profile_at(document_content(*document).profiles->0, name@, 0) == profile_at(
                document_content(*document).profiles->0,
                name@,
                i as int,
            ),
    {
        if let Some(text) = profile_name(document, i) {
            if same_text(text.as_str(), name) {
                return Some(i);
            }
        }
    }
    None
}

proof fn lemma_with_value(entries: Seq<(Seq<char>, TomlEntry)>, key: Seq<char>, value: TomlEntry)
    ensures
        lookup(with_value(entries, key, value), key) == Some(value),
        without(with_value(entries, key, value), seq![key]) == without(entries, seq![key]),
{
    if has_key(entries, key) && !lookup(entries, key)->0.is_headed() {
        lemma_put_value(entries, key, value);
    } else {
        let others = without(entries, seq![key]);
        assert(seq![key][0] == key);
        lemma_filter_is_picked(entries, seq![key]);
        lemma_without_again(entries, seq![key]);
        lemma_values_end(others);
        lemma_insert_value(others, values_end(others), key, value);
    }
}

proof fn lemma_put_value(entries: Seq<(Seq<char>, TomlEntry)>, key: Seq<char>, value: TomlEntry)
    requires
        has_key(entries, key),
    ensures
        lookup(put(entries, key, value), key) == Some(value),
        without(put(entries, key, value), seq![key]) == without(entries, seq![key]),
{
    let keys = seq![key];
    assert(keys[0] == key);
    place_is_the_first(entries, key);
    let at = place(entries, key);
    put_then_lookup(entries, key, value, key);
    let front = entries.take(at);
    let back = entries.skip(at + 1);
    lemma_without_middle(front, entries[at], back, keys);
    lemma_without_middle(front, (key, value), back, keys);
    assert(entries =~= front + seq![entries[at]] + back);
    assert(put(entries, key, value) =~= front + seq![(key, value)] + back);
}

proof fn lemma_insert_value(
    others: Seq<(Seq<char>, TomlEntry)>,
    at: int,
    key: Seq<char>,
    value: TomlEntry,
)
    requires
        0 <= at <= others.len(),
        forall|j: int| 0 <= j < others.len() ==> (#[trigger] others[j]).0 != key,
    ensures
        lookup(others.insert(at, (key, value)), key) == Some(value),
        without(others.insert(at, (key, value)), seq![key]) == without(others, seq![key]),
{
    let keys = seq![key];
    assert(keys[0] == key);
    let grown = others.insert(at, (key, value));
    assert forall|j: int| 0 <= j < at implies (#[trigger] grown[j]).0 != key by {
        assert(grown[j] == others[j]);
    }
    lemma_place_unique(grown, key, at);
    let front = others.take(at);
    let back = others.skip(at);
    lemma_without_middle(front, (key, value), back, keys);
    without_is_a_join(front, back, keys);
    assert(others =~= front + back);
    assert(grown =~= front + seq![(key, value)] + back);
}

/// Taking a key out of entries of which one, with that key, stands between two parts.
proof fn lemma_without_middle(
    front: Seq<(Seq<char>, TomlEntry)>,
    middle: (Seq<char>, TomlEntry),
    back: Seq<(Seq<char>, TomlEntry)>,
    keys: Seq<Seq<char>>,
)
    requires
        keys.contains(middle.0),
    ensures
        without(front + seq![middle] + back, keys) == without(front, keys) + without(back, keys),
{
    without_is_a_join(front + seq![middle], back, keys);
    without_is_a_join(front, seq![middle], keys);
    reveal_with_fuel(Seq::filter, 2);
    assert(seq![middle].drop_last() =~= Seq::empty());
    assert(without(seq![middle], keys) =~= Seq::empty());
    assert(without(front, keys) + Seq::<(Seq<char>, TomlEntry)>::empty() =~= without(front, keys));
}

proof fn lemma_values_end(entries: Seq<(Seq<char>, TomlEntry)>)
    ensures
        0 <= values_end(entries) <= entries.len(),
    decreases entries.len(),
{
    if entries.len() > 0 && !entries[0].1.is_headed() {
        lemma_values_end(entries.skip(1));
    }
}

proof fn lemma_value_twice(
    entries: Seq<(Seq<char>, TomlEntry)>,
    key: Seq<char>,
    first: TomlEntry,
    second: TomlEntry,
)
    requires
        !first.is_headed(),
    ensures
        with_value(with_value(entries, key, first), key, second) == with_value(entries, key, second),
{
    let once = with_value(entries, key, first);
    lemma_with_value(entries, key, first);
    place_is_the_first(entries, key);
    place_is_the_first(once, key);
    if has_key(entries, key) && !lookup(entries, key)->0.is_headed() {
        let at = place(entries, key);
        assert forall|j: int| 0 <= j < at implies (#[trigger] once[j]).0 != key by {
            assert(once[j] == entries[j]);
        }
        lemma_place_unique(once, key, at);
    } else {
        let others = without(entries, seq![key]);
        lemma_values_end(others);
        let at = values_end(others);
        lemma_filter_is_picked(entries, seq![key]);
        assert(seq![key][0] == key);
        assert forall|j: int| 0 <= j < at implies (#[trigger] once[j]).0 != key by {
            assert(once[j] == others[j]);
        }
        lemma_place_unique(once, key, at);
    }
    assert(with_value(once, key, second) =~= with_value(entries, key, second));
}

/// After a change the output has the new mode, with what was around the old one. All its other entries
/// are there, in order, and every other output, every profile, every other entry, every header and every
/// comment is what it was, in order.
pub proof fn an_update_changes_one_mode(
    document: TomlDocument,
    profile: int,
    output: int,
    mode: Seq<char>,
    i: int,
    j: int,
)
    requires
        has_output(document, profile, output),
        0 <= i < document.profiles->0.len(),
    ensures
        ({
            let profiles = document.profiles->0;
            let changed = with_mode(document, profile, output, mode);
            let now = changed.profiles->0;
            let here = now[profile].outputs->0[output];
            let there = profiles[profile].outputs->0[output];
            &&& changed.entries == document.entries
            &&& changed.headers == document.headers
            &&& changed.comments == document.comments
            &&& has_output(changed, profile, output)
            &&& lookup(here, "mode"@) == Some(
                TomlEntry::Text { text: mode, around: mode_around(there) },
            )
            &&& without(here, seq!["mode"@]) == without(there, seq!["mode"@])
            &&& now.len() == profiles.len()
            &&& now[i].entries == profiles[i].entries
            &&& now[i].outputs is Some <==> profiles[i].outputs is Some
            &&& profiles[i].outputs is Some ==> {
                &&& now[i].outputs->0.len() == profiles[i].outputs->0.len()
                &&& 0 <= j < profiles[i].outputs->0.len() && (i != profile || j != output)
                    ==> now[i].outputs->0[j] == profiles[i].outputs->0[j]
            }
        }),
{
    let there = document.profiles->0[profile].outputs->0[output];
    lemma_with_value(
        there,
        "mode"@,
        TomlEntry::Text { text: mode, around: mode_around(there) },
    );
}

/// Changing a mode twice comes to the second change.
pub proof fn the_last_update_wins(
    document: TomlDocument,
    profile: int,
    output: int,
    first: Seq<char>,
    second: Seq<char>,
)
    requires
        has_output(document, profile, output),
    ensures
        with_mode(with_mode(document, profile, output, first), profile, output, second)
            == with_mode(document, profile, output, second),
{
    let once = with_mode(document, profile, output, first);
    let twice = with_mode(once, profile, output, second);
    let direct = with_mode(document, profile, output, second);
    let there = document.profiles->0[profile].outputs->0[output];
    let around = mode_around(there);
    lemma_with_value(there, "mode"@, TomlEntry::Text { text: first, around });
    lemma_value_twice(
        there,
        "mode"@,
        TomlEntry::Text { text: first, around },
        TomlEntry::Text { text: second, around },
    );
    assert(twice.profiles->0[profile].outputs->0[output]
        =~= direct.profiles->0[profile].outputs->0[output]);
    assert(twice.profiles->0[profile].outputs->0 =~= direct.profiles->0[profile].outputs->0);
    assert(twice.profiles->0 =~= direct.profiles->0);
}

/// Where a mode is to be changed, the document has an output of a profile of that name, and no earlier
/// profile has the name.
pub proof fn a_target_is_there(document: TomlDocument, profile_name: Seq<char>, output_index: nat)
    ensures
        update_target(Some(document), profile_name, output_index) matches Ok(profile) ==> {
            &&& has_output(document, profile, output_index as int)
            &&& document.profiles->0[profile].name() == Some(profile_name)
            &&& forall|i: int|
                0 <= i < profile ==> (#[trigger] document.profiles->0[i]).name() != Some(
                    profile_name,
                )
        },
{
    if document.profiles is Some {
        lemma_profile_at(document.profiles->0, profile_name, 0);
    }
}

proof fn lemma_profile_at(profiles: Seq<TomlProfile>, name: Seq<char>, from: int)
    requires
        0 <= from,
    ensures
        profile_at(profiles, name, from) matches Some(at) ==> {
            &&& from <= at < profiles.len()
            &&& profiles[at].name() == Some(name)
            &&& forall|i: int| from <= i < at ==> (#[trigger] profiles[i]).name() != Some(name)
        },
    decreases profiles.len() - from,
{
    if from < profiles.len() {
        lemma_profile_at(profiles, name, from + 1);
    }
}

/// After a change the same profile and output are found at the same place.
pub proof fn an_update_keeps_its_target(
    document: TomlDocument,
    profile: int,
    output: int,
    mode: Seq<char>,
    profile_name: Seq<char>,
    output_index: nat,
)
    requires
        has_output(document, profile, output),
    ensures
        update_target(Some(with_mode(document, profile, output, mode)), profile_name, output_index)
            == update_target(Some(document), profile_name, output_index),
{
    lemma_names_stay(document, profile, output, mode, profile_name, 0);
    lemma_profile_at(document.profiles->0, profile_name, 0);
}

proof fn lemma_names_stay(
    document: TomlDocument,
    profile: int,
    output: int,
    mode: Seq<char>,
    name: Seq<char>,
    from: int,
)
    requires
        has_output(document, profile, output),
        0 <= from,
    ensures
        profile_at(with_mode(document, profile, output, mode).profiles->0, name, from) == profile_at(
            document.profiles->0,
            name,
            from,
        ),
    decreases document.profiles->0.len() - from,
{
    if from < document.profiles->0.len() {
        lemma_names_stay(document, profile, output, mode, name, from + 1);
    }
}

/// The number that a digit of hexadecimal notation, in lower case, stands for.
pub open spec fn hex_value(c: char) -> int {
    if '0' <= c <= '9' {
        c as int - '0' as int
    } else if 'a' <= c <= 'f' {
        c as int - 'a' as int + 10
    } else {
        -1
    }
}

/// Every byte is written as two hexadecimal digits in lower case, the higher one first, in order.
pub proof fn hex_writes_every_byte(bytes: Seq<u8>, i: int)
    requires
        0 <= i < bytes.len(),
    ensures
        hex(bytes).len() == 2 * bytes.len(),
        0 <= hex_value(hex(bytes)[2 * i]) < 16,
        0 <= hex_value(hex(bytes)[2 * i + 1]) < 16,
        hex_value(hex(bytes)[2 * i]) * 16 + hex_value(hex(bytes)[2 * i + 1]) == bytes[i],
    decreases bytes.len(),
{
    let shorter = bytes.drop_last();
    hex_tells_bytes_apart(bytes, bytes);
    hex_tells_bytes_apart(shorter, shorter);
    let n = hex(shorter).len() as int;
    if i < shorter.len() {
        hex_writes_every_byte(shorter, i);
        assert(hex(bytes)[2 * i] == hex(shorter)[2 * i]);
        assert(hex(bytes)[2 * i + 1] == hex(shorter)[2 * i + 1]);
        assert(bytes[i] == shorter[i]);
    } else {
        let byte = bytes.last() as nat;
        assert(hex(bytes)[n] == hex_digit(byte / 16));
        assert(hex(bytes)[n + 1] == hex_digit(byte % 16));
        lemma_hex_value(byte / 16);
        lemma_hex_value(byte % 16);
    }
}

proof fn lemma_hex_value(n: nat)
    requires
        n < 16,
    ensures
        hex_value(hex_digit(n)) == n,
{
}

} // verus!
