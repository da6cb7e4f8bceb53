//! The desktop configuration: its TOML schema, its validation rules, and the
//! validated model that the rest of the library reads.
use vstd::prelude::*;
use vstd::string::StringExecFns;

use crate::text::{
    count_char, debug_quoted, decimal, decimal_string, has_char, has_control, has_infix,
    has_outer_space, is_ascii_alnum, is_ascii_digit, is_ascii_lower, join3, join4, same_text,
    utf8_len, chars_of, byte_len, ascii_lower, ascii_digit, ascii_alnum, contains, count_of,
    outer_space, any_control, find_char, quoted, join2, key_lt,
};
use crate::toml_doc::{
    document_ordered, keys_ascending, parse_document, toml_document, TomlNode,
};

verus! {

pub const CONFIG_VERSION: u32 = 1;

#[derive(Debug, Clone, Copy, PartialEq, Eq, Structural)]
pub enum KeybindingAuthority {
    Local,
    Server,
}

#[derive(Debug, Clone, PartialEq, Eq)]
pub enum DesktopMode {
    Local,
    Remote { target: String, session: String, keybindings: KeybindingAuthority, app_name: String },
}

#[derive(Debug, Clone, PartialEq, Eq)]
pub struct Desktop {
    pub id: String,
    pub label: String,
    pub mode: DesktopMode,
}

/// A validated configuration. `desktops` is ordered by id.
#[derive(Debug, Clone, PartialEq, Eq)]
pub struct DesktopConfig {
    pub version: u32,
    pub default: String,
    pub desktops: Vec<Desktop>,
}

/// Why a configuration could not be had.
#[derive(Debug)]
pub enum ConfigError {
    Read { path: String, message: String },
    Toml { context: String, message: String },
    Validation(String),
}

/// The view of a `ConfigError`.
pub enum ConfigFailure {
    Read { path: Seq<char>, message: Seq<char> },
    Toml { context: Seq<char>, message: Seq<char> },
    Validation(Seq<char>),
}

impl View for ConfigError {
    type V = ConfigFailure;

    open spec fn view(&self) -> ConfigFailure {
        match self {
            ConfigError::Read { path, message } => ConfigFailure::Read {
                path: path@,
                message: message@,
            },
            ConfigError::Toml { context, message } => ConfigFailure::Toml {
                context: context@,
                message: message@,
            },
            ConfigError::Validation(message) => ConfigFailure::Validation(message@),
        }
    }
}

/// The text a `ConfigError` is shown as.
pub open spec fn failure_text(f: ConfigFailure) -> Seq<char> {
    match f {
        ConfigFailure::Read { path, message } => "could not read "@ + path + ": "@ + message,
        ConfigFailure::Toml { context, message } => "invalid TOML in "@ + context + ": "@
            + message,
        ConfigFailure::Validation(message) => message,
    }
}

impl ConfigError {
    /// The error as it is shown to the user.
    pub fn message(&self) -> (out: String)
        ensures
            out@ == failure_text(self@),
    {
        match self {
            ConfigError::Read { path, message } => join4(
                "could not read ",
                path.as_str(),
                ": ",
                message.as_str(),
            ),
            ConfigError::Toml { context, message } => join4(
                "invalid TOML in ",
                context.as_str(),
                ": ",
                message.as_str(),
            ),
            ConfigError::Validation(message) => message.clone(),
        }
    }
}

// ---------------------------------------------------------------------------
// The schema: what the document must hold before validation.
// ---------------------------------------------------------------------------
#[derive(Debug, Clone, Copy, PartialEq, Eq, Structural)]
pub enum RawMode {
    Local,
    Remote,
}

/// One `[desktops.<id>]` table, as the schema reads it.
#[derive(Debug, Clone)]
pub struct RawDesktop {
    pub mode: RawMode,
    pub label: String,
    pub target: Option<String>,
    pub session: Option<String>,
    pub keybindings: Option<KeybindingAuthority>,
    pub app_name: Option<String>,
}

/// The whole document, as the schema reads it; `desktops` in document order.
#[derive(Debug, Clone)]
pub struct RawConfig {
    pub version: u32,
    pub default: String,
    pub desktops: Vec<(String, RawDesktop)>,
}

/// How serde describes a value of the wrong type in an error message.
pub open spec fn kind_name(n: TomlNode) -> Seq<char> {
    match n {
        TomlNode::Text(s) => "string "@ + debug_quoted(s@),
        TomlNode::Integer(v) => "integer `"@ + decimal(v as int) + "`"@,
        TomlNode::Boolean(b) => if b {
            "boolean `true`"@
        } else {
            "boolean `false`"@
        },
        TomlNode::Array(_) => "sequence"@,
        TomlNode::Table(_) => "map"@,
        TomlNode::Float(description) => description@,
        TomlNode::Datetime(_) => "map"@,
    }
}

/// The TOML type of a value, as the parser names it.
pub open spec fn toml_type_name(n: TomlNode) -> Seq<char> {
    match n {
        TomlNode::Text(_) => "string"@,
        TomlNode::Integer(_) => "integer"@,
        TomlNode::Boolean(_) => "boolean"@,
        TomlNode::Array(_) => "array"@,
        TomlNode::Table(_) => "table"@,
        TomlNode::Float(_) => "float"@,
        TomlNode::Datetime(_) => "datetime"@,
    }
}

pub open spec fn invalid_type(n: TomlNode, expected: Seq<char>) -> Seq<char> {
    "invalid type: "@ + kind_name(n) + ", expected "@ + expected
}

/// `i` is the first index whose key is `key`.
pub open spec fn first_key_at(es: Seq<(String, TomlNode)>, key: Seq<char>, i: int) -> bool {
    0 <= i < es.len() && es[i].0@ == key && forall|j: int| 0 <= j < i ==> es[j].0@ != key
}

/// The index of the first entry keyed `key`.
pub open spec fn field_at(es: Seq<(String, TomlNode)>, key: Seq<char>) -> Option<int> {
    if exists|i: int| first_key_at(es, key, i) {
        Some(choose|i: int| first_key_at(es, key, i))
    } else {
        None
    }
}

/// `rest` continues the message after the field's name.
pub open spec fn unknown_field(key: Seq<char>, rest: Seq<char>) -> Seq<char> {
    "unknown field `"@ + key + rest
}

pub open spec fn missing_field(key: Seq<char>) -> Seq<char> {
    "missing field `"@ + key + "`"@
}

pub open spec fn decode_text(n: TomlNode) -> Result<String, Seq<char>> {
    match n {
        TomlNode::Text(s) => Ok(s),
        _ => Err(invalid_type(n, "a string"@)),
    }
}

pub open spec fn decode_u32(n: TomlNode) -> Result<u32, Seq<char>> {
    match n {
        TomlNode::Integer(v) => if 0 <= v <= u32::MAX {
            Ok(v as u32)
        } else {
            Err("invalid value: integer `"@ + decimal(v as int) + "`, expected u32"@)
        },
        _ => Err(invalid_type(n, "u32"@)),
    }
}

/// Which of two unit variants, named `first` and `second`, the name `s` picks:
/// `true` for the first.
pub open spec fn variant_named(s: Seq<char>, first: Seq<char>, second: Seq<char>) -> Result<
    bool,
    Seq<char>,
> {
    if s == first {
        Ok(true)
    } else if s == second {
        Ok(false)
    } else {
        Err("unknown variant `"@ + s + "`, expected `"@ + first + "` or `"@ + second + "`"@)
    }
}

/// What is wrong with the value under a unit variant's name, if anything:
/// only an empty array or an empty table carries nothing.
pub open spec fn unit_problem(n: TomlNode) -> Option<Seq<char>> {
    match n {
        TomlNode::Array(items) => if items@.len() == 0 {
            None
        } else {
            Some("expected empty array"@)
        },
        TomlNode::Table(entries) => if entries@.len() == 0 {
            None
        } else {
            Some("expected empty table"@)
        },
        _ => Some("expected table, found "@ + toml_type_name(n)),
    }
}

/// How an enum of two unit variants is read from a value: from the variant's
/// name, or from a table of one entry whose key is the name and whose value
/// is empty. `true` stands for the first variant.
pub open spec fn decode_variant(n: TomlNode, first: Seq<char>, second: Seq<char>) -> Result<
    bool,
    Seq<char>,
> {
    match n {
        TomlNode::Text(s) => variant_named(s@, first, second),
        TomlNode::Table(entries) => if entries@.len() == 0 {
            Err("wanted exactly 1 element, found 0 elements"@)
        } else if entries@.len() > 1 {
            Err("wanted exactly 1 element, more than 1 element"@)
        } else {
            match variant_named(entries@[0].0@, first, second) {
                Err(e) => Err(e),
                Ok(v) => match unit_problem(entries@[0].1) {
                    Some(e) => Err(e),
                    None => Ok(v),
                },
            }
        },
        _ => Err("wanted string or table"@),
    }
}

pub open spec fn decode_mode(n: TomlNode) -> Result<RawMode, Seq<char>> {
    match decode_variant(n, "local"@, "remote"@) {
        Ok(true) => Ok(RawMode::Local),
        Ok(false) => Ok(RawMode::Remote),
        Err(e) => Err(e),
    }
}

pub open spec fn decode_authority(n: TomlNode) -> Result<KeybindingAuthority, Seq<char>> {
    match decode_variant(n, "local"@, "server"@) {
        Ok(true) => Ok(KeybindingAuthority::Local),
        Ok(false) => Ok(KeybindingAuthority::Server),
        Err(e) => Err(e),
    }
}

/// An optional string field.
pub open spec fn optional_text(es: Seq<(String, TomlNode)>, key: Seq<char>) -> Result<
    Option<String>,
    Seq<char>,
> {
    match field_at(es, key) {
        None => Ok(None),
        Some(i) => match decode_text(es[i].1) {
            Ok(s) => Ok(Some(s)),
            Err(e) => Err(e),
        },
    }
}

/// A required string field.
pub open spec fn required_text(es: Seq<(String, TomlNode)>, key: Seq<char>) -> Result<
    String,
    Seq<char>,
> {
    match field_at(es, key) {
        None => Err(missing_field(key)),
        Some(i) => decode_text(es[i].1),
    }
}

/// What is wrong with one entry of a desktop table, read in table order: an
/// unknown key, or a value of the wrong type.
pub open spec fn desktop_entry_problem(e: (String, TomlNode)) -> Option<Seq<char>> {
    let k = e.0@;
    if k == "mode"@ {
        match decode_mode(e.1) {
            Err(m) => Some(m),
            Ok(_) => None,
        }
    } else if k == "keybindings"@ {
        match decode_authority(e.1) {
            Err(m) => Some(m),
            Ok(_) => None,
        }
    } else if k == "label"@ || k == "target"@ || k == "session"@ || k == "app_name"@ {
        match decode_text(e.1) {
            Err(m) => Some(m),
            Ok(_) => None,
        }
    } else {
        Some(unknown_field(k, desktop_fields_rest()))
    }
}

/// The problem of the first entry of a desktop table that has one.
pub open spec fn first_desktop_problem(es: Seq<(String, TomlNode)>) -> Option<Seq<char>>
    decreases es.len(),
{
    if es.len() == 0 {
        None
    } else {
        match first_desktop_problem(es.drop_last()) {
            Some(m) => Some(m),
            None => desktop_entry_problem(es.last()),
        }
    }
}

/// The end of the message for an unknown key of a desktop table.
pub open spec fn desktop_fields_rest() -> Seq<char> {
    "`, expected one of `mode`, `label`, `target`, `session`, `keybindings`, `app_name`"@
}

/// What the schema makes of one desktop table.
pub open spec fn decode_desktop_table(fs: Seq<(String, TomlNode)>) -> Result<RawDesktop, Seq<char>> {
    match first_desktop_problem(fs) {
        Some(m) => Err(m),
        None => match field_at(fs, "mode"@) {
            None => Err(missing_field("mode"@)),
            Some(m) => match decode_mode(fs[m].1) {
                Err(e) => Err(e),
                Ok(mode) => match required_text(fs, "label"@) {
                    Err(e) => Err(e),
                    Ok(label) => match optional_text(fs, "target"@) {
                        Err(e) => Err(e),
                        Ok(target) => match optional_text(fs, "session"@) {
                            Err(e) => Err(e),
                            Ok(session) => match desktop_authority(fs) {
                                Err(e) => Err(e),
                                Ok(keybindings) => match optional_text(fs, "app_name"@) {
                                    Err(e) => Err(e),
                                    Ok(app_name) => Ok(
                                        RawDesktop {
                                            mode,
                                            label,
                                            target,
                                            session,
                                            keybindings,
                                            app_name,
                                        },
                                    ),
                                },
                            },
                        },
                    },
                },
            },
        },
    }
}

/// The message for an array that ends after `count` of a desktop's fields.
pub open spec fn desktop_too_short(count: int) -> Seq<char> {
    "invalid length "@ + decimal(count) + ", expected struct RawDesktop with 6 elements"@
}

/// What the schema makes of a desktop written as an array: its fields in
/// declaration order, each present (so each optional one is `Some`); elements
/// after the sixth are not read.
pub open spec fn decode_desktop_seq(xs: Seq<TomlNode>) -> Result<RawDesktop, Seq<char>> {
    if xs.len() < 1 {
        Err(desktop_too_short(0))
    } else {
        match decode_mode(xs[0]) {
            Err(e) => Err(e),
            Ok(mode) => if xs.len() < 2 {
                Err(desktop_too_short(1))
            } else {
                match decode_text(xs[1]) {
                    Err(e) => Err(e),
                    Ok(label) => if xs.len() < 3 {
                        Err(desktop_too_short(2))
                    } else {
                        match decode_text(xs[2]) {
                            Err(e) => Err(e),
                            Ok(target) => if xs.len() < 4 {
                                Err(desktop_too_short(3))
                            } else {
                                match decode_text(xs[3]) {
                                    Err(e) => Err(e),
                                    Ok(session) => if xs.len() < 5 {
                                        Err(desktop_too_short(4))
                                    } else {
                                        match decode_authority(xs[4]) {
                                            Err(e) => Err(e),
                                            Ok(keybindings) => if xs.len() < 6 {
                                                Err(desktop_too_short(5))
                                            } else {
                                                match decode_text(xs[5]) {
                                                    Err(e) => Err(e),
                                                    Ok(app_name) => Ok(
                                                        RawDesktop {
                                                            mode,
                                                            label,
                                                            target: Some(target),
                                                            session: Some(session),
                                                            keybindings: Some(keybindings),
                                                            app_name: Some(app_name),
                                                        },
                                                    ),
                                                }
                                            },
                                        }
                                    },
                                }
                            },
                        }
                    },
                }
            },
        }
    }
}

/// The field name under which serde hands a TOML datetime to a struct.
pub open spec fn datetime_field() -> Seq<char> {
    "$__toml_private_datetime"@
}

/// What the schema makes of one desktop: a table, an array of its fields, or
/// an error. A datetime reaches the struct as a table with one private key.
pub open spec fn decode_desktop(n: TomlNode) -> Result<RawDesktop, Seq<char>> {
    match n {
        TomlNode::Table(fields) => decode_desktop_table(fields@),
        TomlNode::Array(items) => decode_desktop_seq(items@),
        TomlNode::Datetime(_) => Err(unknown_field(datetime_field(), desktop_fields_rest())),
        _ => Err(invalid_type(n, "struct RawDesktop"@)),
    }
}

pub open spec fn desktop_authority(fs: Seq<(String, TomlNode)>) -> Result<
    Option<KeybindingAuthority>,
    Seq<char>,
> {
    match field_at(fs, "keybindings"@) {
        None => Ok(None),
        Some(k) => match decode_authority(fs[k].1) {
            Ok(a) => Ok(Some(a)),
            Err(e) => Err(e),
        },
    }
}

/// The desktop tables in document order, or the first one's error.
pub open spec fn decode_desktops(es: Seq<(String, TomlNode)>) -> Result<
    Seq<(String, RawDesktop)>,
    Seq<char>,
>
    decreases es.len(),
{
    if es.len() == 0 {
        Ok(Seq::empty())
    } else {
        match decode_desktops(es.drop_last()) {
            Err(e) => Err(e),
            Ok(done) => match decode_desktop(es.last().1) {
                Err(e) => Err(e),
                Ok(d) => Ok(done.push((es.last().0, d))),
            },
        }
    }
}

/// What the schema makes of the value under `desktops`: its desktops in
/// table order, or the first error. A datetime reaches the map as one entry
/// whose value is the datetime's text.
pub open spec fn decode_desktop_map(n: TomlNode) -> Result<Seq<(String, RawDesktop)>, Seq<char>> {
    match n {
        TomlNode::Table(ds) => decode_desktops(ds@),
        TomlNode::Datetime(t) => Err(invalid_type(TomlNode::Text(t), "struct RawDesktop"@)),
        _ => Err(invalid_type(n, "a map"@)),
    }
}

/// What is wrong with one top-level entry, read in table order: an unknown
/// key, or a value of the wrong type (for `desktops`, the first problem of
/// its tables).
pub open spec fn config_entry_problem(e: (String, TomlNode)) -> Option<Seq<char>> {
    let k = e.0@;
    if k == "version"@ {
        match decode_u32(e.1) {
            Err(m) => Some(m),
            Ok(_) => None,
        }
    } else if k == "default"@ {
        match decode_text(e.1) {
            Err(m) => Some(m),
            Ok(_) => None,
        }
    } else if k == "desktops"@ {
        match decode_desktop_map(e.1) {
            Err(m) => Some(m),
            Ok(_) => None,
        }
    } else {
        Some(unknown_field(k, "`, expected one of `version`, `default`, `desktops`"@))
    }
}

/// The problem of the first top-level entry that has one.
pub open spec fn first_config_problem(es: Seq<(String, TomlNode)>) -> Option<Seq<char>>
    decreases es.len(),
{
    if es.len() == 0 {
        None
    } else {
        match first_config_problem(es.drop_last()) {
            Some(m) => Some(m),
            None => config_entry_problem(es.last()),
        }
    }
}

/// What the schema makes of the whole document: version, default and the
/// desktop tables, or the message of the first schema error. Entries are read
/// in table order, each checked as it comes; a missing field is reported once
/// every entry was read, in the order the fields are declared.
pub open spec fn decode_config(doc: TomlNode) -> Result<
    (u32, String, Seq<(String, RawDesktop)>),
    Seq<char>,
> {
    match doc {
        TomlNode::Table(entries) => {
            let es = entries@;
            match first_config_problem(es) {
                Some(m) => Err(m),
                None => match field_at(es, "version"@) {
                    None => Err(missing_field("version"@)),
                    Some(v) => match decode_u32(es[v].1) {
                        Err(e) => Err(e),
                        Ok(version) => match required_text(es, "default"@) {
                            Err(e) => Err(e),
                            Ok(default) => match field_at(es, "desktops"@) {
                                None => Err(missing_field("desktops"@)),
                                Some(d) => match decode_desktop_map(es[d].1) {
                                    Err(e) => Err(e),
                                    Ok(desktops) => Ok((version, default, desktops)),
                                },
                            },
                        },
                    },
                },
            }
        },
        _ => Err(invalid_type(doc, "struct RawConfig"@)),
    }
}

// ---------------------------------------------------------------------------
// Exec side of the schema.
// ---------------------------------------------------------------------------
fn find_field(es: &Vec<(String, TomlNode)>, key: &str) -> (r: Option<usize>)
    ensures
        match r {
            Some(i) => field_at(es@, key@) == Some(i as int),
            None => field_at(es@, key@) is None,
        },
{
    let mut i: usize = 0;
    while i < es.len()
        invariant
            i <= es@.len(),
            forall|j: int| 0 <= j < i ==> es@[j].0@ != key@,
        decreases es.len() - i,
    {
        if same_text(es[i].0.as_str(), key) {
            assert(first_key_at(es@, key@, i as int));
            let ghost c = choose|c: int| first_key_at(es@, key@, c);
            assert(c == i as int) by {
                if c < i {
                } else if c > i {
                }
            }
            return Some(i);
        }
        i += 1;
    }
    assert(!exists|c: int| first_key_at(es@, key@, c));
    None
}

fn kind_of(n: &TomlNode) -> (out: String)
    ensures
        out@ == kind_name(*n),
{
    match n {
        TomlNode::Text(s) => {
            let shown = quoted(s.as_str());
            join2("string ", shown.as_str())
        },
        TomlNode::Integer(v) => {
            let digits = decimal_string(*v);
            join3("integer `", digits.as_str(), "`")
        },
        TomlNode::Boolean(b) => if *b {
            String::from_str("boolean `true`")
        } else {
            String::from_str("boolean `false`")
        },
        TomlNode::Array(_) => String::from_str("sequence"),
        TomlNode::Table(_) => String::from_str("map"),
        TomlNode::Float(description) => description.clone(),
        TomlNode::Datetime(_) => String::from_str("map"),
    }
}

fn toml_type_name_of(n: &TomlNode) -> (out: String)
    ensures
        out@ == toml_type_name(*n),
{
    match n {
        TomlNode::Text(_) => String::from_str("string"),
        TomlNode::Integer(_) => String::from_str("integer"),
        TomlNode::Boolean(_) => String::from_str("boolean"),
        TomlNode::Array(_) => String::from_str("array"),
        TomlNode::Table(_) => String::from_str("table"),
        TomlNode::Float(_) => String::from_str("float"),
        TomlNode::Datetime(_) => String::from_str("datetime"),
    }
}

fn type_error(n: &TomlNode, expected: &str) -> (out: String)
    ensures
        out@ == invalid_type(*n, expected@),
{
    let kind = kind_of(n);
    join4("invalid type: ", kind.as_str(), ", expected ", expected)
}

fn text_field(n: &TomlNode) -> (r: Result<String, String>)
    ensures
        match r {
            Ok(s) => decode_text(*n) == Ok::<String, Seq<char>>(s),
            Err(e) => decode_text(*n) == Err::<String, Seq<char>>(e@),
        },
{
    match n {
        TomlNode::Text(s) => Ok(s.clone()),
        _ => Err(type_error(n, "a string")),
    }
}

fn u32_field(n: &TomlNode) -> (r: Result<u32, String>)
    ensures
        match r {
            Ok(v) => decode_u32(*n) == Ok::<u32, Seq<char>>(v),
            Err(e) => decode_u32(*n) == Err::<u32, Seq<char>>(e@),
        },
{
    match n {
        TomlNode::Integer(v) => {
            if 0 <= *v && *v <= 4294967295i64 {
                Ok(*v as u32)
            } else {
                let digits = decimal_string(*v);
                Err(join3("invalid value: integer `", digits.as_str(), "`, expected u32"))
            }
        },
        _ => Err(type_error(n, "u32")),
    }
}

fn variant_name_of(s: &str, first: &str, second: &str) -> (r: Result<bool, String>)
    ensures
        match r {
            Ok(v) => variant_named(s@, first@, second@) == Ok::<bool, Seq<char>>(v),
            Err(e) => variant_named(s@, first@, second@) == Err::<bool, Seq<char>>(e@),
        },
{
    if same_text(s, first) {
        Ok(true)
    } else if same_text(s, second) {
        Ok(false)
    } else {
        let head = join4("unknown variant `", s, "`, expected `", first);
        let out = join4(head.as_str(), "` or `", second, "`");
        assert(out@ =~= "unknown variant `"@ + s@ + "`, expected `"@ + first@ + "` or `"@ + second@
            + "`"@);
        Err(out)
    }
}

fn unit_check(n: &TomlNode) -> (r: Option<String>)
    ensures
        match r {
            Some(m) => unit_problem(*n) == Some(m@),
            None => unit_problem(*n) is None,
        },
{
    match n {
        TomlNode::Array(items) => if items.len() == 0 {
            None
        } else {
            Some(String::from_str("expected empty array"))
        },
        TomlNode::Table(entries) => if entries.len() == 0 {
            None
        } else {
            Some(String::from_str("expected empty table"))
        },
        _ => {
            let found = toml_type_name_of(n);
            Some(join2("expected table, found ", found.as_str()))
        },
    }
}

fn variant_field(n: &TomlNode, first: &str, second: &str) -> (r: Result<bool, String>)
    ensures
        match r {
            Ok(v) => decode_variant(*n, first@, second@) == Ok::<bool, Seq<char>>(v),
            Err(e) => decode_variant(*n, first@, second@) == Err::<bool, Seq<char>>(e@),
        },
{
    match n {
        TomlNode::Text(s) => variant_name_of(s.as_str(), first, second),
        TomlNode::Table(entries) => {
            if entries.len() == 0 {
                Err(String::from_str("wanted exactly 1 element, found 0 elements"))
            } else if entries.len() > 1 {
                Err(String::from_str("wanted exactly 1 element, more than 1 element"))
            } else {
                let v = variant_name_of(entries[0].0.as_str(), first, second)?;
                match unit_check(&entries[0].1) {
                    Some(e) => Err(e),
                    None => Ok(v),
                }
            }
        },
        _ => Err(String::from_str("wanted string or table")),
    }
}

fn mode_field(n: &TomlNode) -> (r: Result<RawMode, String>)
    ensures
        match r {
            Ok(v) => decode_mode(*n) == Ok::<RawMode, Seq<char>>(v),
            Err(e) => decode_mode(*n) == Err::<RawMode, Seq<char>>(e@),
        },
{
    match variant_field(n, "local", "remote") {
        Ok(true) => Ok(RawMode::Local),
        Ok(false) => Ok(RawMode::Remote),
        Err(e) => Err(e),
    }
}

fn authority_field(n: &TomlNode) -> (r: Result<KeybindingAuthority, String>)
    ensures
        match r {
            Ok(v) => decode_authority(*n) == Ok::<KeybindingAuthority, Seq<char>>(v),
            Err(e) => decode_authority(*n) == Err::<KeybindingAuthority, Seq<char>>(e@),
        },
{
    match variant_field(n, "local", "server") {
        Ok(true) => Ok(KeybindingAuthority::Local),
        Ok(false) => Ok(KeybindingAuthority::Server),
        Err(e) => Err(e),
    }
}

fn missing(key: &str) -> (out: String)
    ensures
        out@ == missing_field(key@),
{
    join3("missing field `", key, "`")
}

fn optional_text_field(es: &Vec<(String, TomlNode)>, key: &str) -> (r: Result<
    Option<String>,
    String,
>)
    ensures
        match r {
            Ok(v) => optional_text(es@, key@) == Ok::<Option<String>, Seq<char>>(v),
            Err(e) => optional_text(es@, key@) == Err::<Option<String>, Seq<char>>(e@),
        },
{
    match find_field(es, key) {
        None => Ok(None),
        Some(i) => match text_field(&es[i].1) {
            Ok(s) => Ok(Some(s)),
            Err(e) => Err(e),
        },
    }
}

fn required_text_field(es: &Vec<(String, TomlNode)>, key: &str) -> (r: Result<String, String>)
    ensures
        match r {
            Ok(v) => required_text(es@, key@) == Ok::<String, Seq<char>>(v),
            Err(e) => required_text(es@, key@) == Err::<String, Seq<char>>(e@),
        },
{
    match find_field(es, key) {
        None => Err(missing(key)),
        Some(i) => text_field(&es[i].1),
    }
}

fn too_short(count: usize) -> (out: String)
    requires
        count <= 5,
    ensures
        out@ == desktop_too_short(count as int),
{
    let digits = decimal_string(count as i64);
    join3("invalid length ", digits.as_str(), ", expected struct RawDesktop with 6 elements")
}

fn raw_desktop_seq(xs: &Vec<TomlNode>) -> (r: Result<RawDesktop, String>)
    ensures
        match r {
            Ok(v) => decode_desktop_seq(xs@) == Ok::<RawDesktop, Seq<char>>(v),
            Err(e) => decode_desktop_seq(xs@) == Err::<RawDesktop, Seq<char>>(e@),
        },
{
    if xs.len() < 1 {
        return Err(too_short(0));
    }
    let mode = mode_field(&xs[0])?;
    if xs.len() < 2 {
        return Err(too_short(1));
    }
    let label = text_field(&xs[1])?;
    if xs.len() < 3 {
        return Err(too_short(2));
    }
    let target = text_field(&xs[2])?;
    if xs.len() < 4 {
        return Err(too_short(3));
    }
    let session = text_field(&xs[3])?;
    if xs.len() < 5 {
        return Err(too_short(4));
    }
    let keybindings = authority_field(&xs[4])?;
    if xs.len() < 6 {
        return Err(too_short(5));
    }
    let app_name = text_field(&xs[5])?;
    Ok(
        RawDesktop {
            mode,
            label,
            target: Some(target),
            session: Some(session),
            keybindings: Some(keybindings),
            app_name: Some(app_name),
        },
    )
}

fn raw_desktop(n: &TomlNode) -> (r: Result<RawDesktop, String>)
    ensures
        match r {
            Ok(v) => decode_desktop(*n) == Ok::<RawDesktop, Seq<char>>(v),
            Err(e) => decode_desktop(*n) == Err::<RawDesktop, Seq<char>>(e@),
        },
{
    let fields = match n {
        TomlNode::Table(fields) => fields,
        TomlNode::Array(items) => {
            return raw_desktop_seq(items);
        },
        TomlNode::Datetime(_) => {
            return Err(
                join3(
                    "unknown field `",
                    "$__toml_private_datetime",
                    "`, expected one of `mode`, `label`, `target`, `session`, `keybindings`, `app_name`",
                ),
            );
        },
        _ => {
            return Err(type_error(n, "struct RawDesktop"));
        },
    };
    if let Some(m) = first_desktop_check(fields) {
        return Err(m);
    }
    let mode = match find_field(fields, "mode") {
        None => {
            return Err(missing("mode"));
        },
        Some(m) => mode_field(&fields[m].1)?,
    };
    let label = required_text_field(fields, "label")?;
    let target = optional_text_field(fields, "target")?;
    let session = optional_text_field(fields, "session")?;
    let keybindings = match find_field(fields, "keybindings") {
        None => None,
        Some(k) => Some(authority_field(&fields[k].1)?),
    };
    let app_name = optional_text_field(fields, "app_name")?;
    Ok(RawDesktop { mode, label, target, session, keybindings, app_name })
}

fn raw_desktops(es: &Vec<(String, TomlNode)>) -> (r: Result<Vec<(String, RawDesktop)>, String>)
    ensures
        match r {
            Ok(v) => decode_desktops(es@) == Ok::<Seq<(String, RawDesktop)>, Seq<char>>(v@),
            Err(e) => decode_desktops(es@) == Err::<Seq<(String, RawDesktop)>, Seq<char>>(e@),
        },
{
    let mut out: Vec<(String, RawDesktop)> = Vec::new();
    let mut i: usize = 0;
    while i < es.len()
        invariant
            i <= es@.len(),
            decode_desktops(es@.take(i as int)) == Ok::<Seq<(String, RawDesktop)>, Seq<char>>(
                out@,
            ),
        decreases es.len() - i,
    {
        assert(es@.take(i + 1).drop_last() =~= es@.take(i as int));
        let d = raw_desktop(&es[i].1);
        match d {
            Err(e) => {
                proof {
                    lemma_decode_desktops_prefix_error(es@, (i + 1) as int);
                }
                return Err(e);
            },
            Ok(d) => {
                out.push((es[i].0.clone(), d));
            },
        }
        i += 1;
    }
    assert(es@.take(es@.len() as int) =~= es@);
    Ok(out)
}

/// Once a prefix fails to decode, every longer prefix fails the same way.
proof fn lemma_decode_desktops_prefix_error(es: Seq<(String, TomlNode)>, n: int)
    requires
        0 <= n <= es.len(),
        decode_desktops(es.take(n)) is Err,
    ensures
        decode_desktops(es) == decode_desktops(es.take(n)),
    decreases es.len() - n,
{
    if n < es.len() {
        assert(es.take(n + 1).drop_last() =~= es.take(n));
        lemma_decode_desktops_prefix_error(es, n + 1);
    } else {
        assert(es.take(n) =~= es);
    }
}

fn desktop_map(n: &TomlNode) -> (r: Result<Vec<(String, RawDesktop)>, String>)
    ensures
        match r {
            Ok(v) => decode_desktop_map(*n) == Ok::<Seq<(String, RawDesktop)>, Seq<char>>(v@),
            Err(e) => decode_desktop_map(*n) == Err::<Seq<(String, RawDesktop)>, Seq<char>>(e@),
        },
{
    match n {
        TomlNode::Table(ds) => raw_desktops(ds),
        TomlNode::Datetime(t) => Err(type_error(&TomlNode::Text(t.clone()), "struct RawDesktop")),
        _ => Err(type_error(n, "a map")),
    }
}

fn desktop_entry_check(e: &(String, TomlNode)) -> (r: Option<String>)
    ensures
        match r {
            Some(m) => desktop_entry_problem(*e) == Some(m@),
            None => desktop_entry_problem(*e) is None,
        },
{
    let k = e.0.as_str();
    proof {
        reveal_strlit("mode");
        reveal_strlit("label");
        reveal_strlit("target");
        reveal_strlit("session");
        reveal_strlit("keybindings");
        reveal_strlit("app_name");
    }
    if same_text(k, "mode") {
        match mode_field(&e.1) {
            Err(m) => Some(m),
            Ok(_) => None,
        }
    } else if same_text(k, "keybindings") {
        match authority_field(&e.1) {
            Err(m) => Some(m),
            Ok(_) => None,
        }
    } else if same_text(k, "label") || same_text(k, "target") || same_text(k, "session")
        || same_text(k, "app_name") {
        match text_field(&e.1) {
            Err(m) => Some(m),
            Ok(_) => None,
        }
    } else {
        Some(
            join3(
                "unknown field `",
                k,
                "`, expected one of `mode`, `label`, `target`, `session`, `keybindings`, `app_name`",
            ),
        )
    }
}

/// Once a prefix has a problem, the whole table has the same first problem.
proof fn lemma_first_desktop_problem_prefix(es: Seq<(String, TomlNode)>, n: int)
    requires
        0 <= n <= es.len(),
        first_desktop_problem(es.take(n)) is Some,
    ensures
        first_desktop_problem(es) == first_desktop_problem(es.take(n)),
    decreases es.len() - n,
{
    if n < es.len() {
        assert(es.take(n + 1).drop_last() =~= es.take(n));
        lemma_first_desktop_problem_prefix(es, n + 1);
    } else {
        assert(es.take(n) =~= es);
    }
}

fn first_desktop_check(es: &Vec<(String, TomlNode)>) -> (r: Option<String>)
    ensures
        match r {
            Some(m) => first_desktop_problem(es@) == Some(m@),
            None => first_desktop_problem(es@) is None,
        },
{
    let mut i: usize = 0;
    while i < es.len()
        invariant
            i <= es@.len(),
            first_desktop_problem(es@.take(i as int)) is None,
        decreases es.len() - i,
    {
        assert(es@.take(i + 1).drop_last() =~= es@.take(i as int));
        if let Some(m) = desktop_entry_check(&es[i]) {
            proof {
                lemma_first_desktop_problem_prefix(es@, (i + 1) as int);
            }
            return Some(m);
        }
        i += 1;
    }
    assert(es@.take(es@.len() as int) =~= es@);
    None
}

fn config_entry_check(e: &(String, TomlNode)) -> (r: Option<String>)
    ensures
        match r {
            Some(m) => config_entry_problem(*e) == Some(m@),
            None => config_entry_problem(*e) is None,
        },
{
    let k = e.0.as_str();
    proof {
        reveal_strlit("version");
        reveal_strlit("default");
        reveal_strlit("desktops");
    }
    if same_text(k, "version") {
        match u32_field(&e.1) {
            Err(m) => Some(m),
            Ok(_) => None,
        }
    } else if same_text(k, "default") {
        match text_field(&e.1) {
            Err(m) => Some(m),
            Ok(_) => None,
        }
    } else if same_text(k, "desktops") {
        match desktop_map(&e.1) {
            Err(m) => Some(m),
            Ok(_) => None,
        }
    } else {
        Some(join3("unknown field `", k, "`, expected one of `version`, `default`, `desktops`"))
    }
}

proof fn lemma_first_config_problem_prefix(es: Seq<(String, TomlNode)>, n: int)
    requires
        0 <= n <= es.len(),
        first_config_problem(es.take(n)) is Some,
    ensures
        first_config_problem(es) == first_config_problem(es.take(n)),
    decreases es.len() - n,
{
    if n < es.len() {
        assert(es.take(n + 1).drop_last() =~= es.take(n));
        lemma_first_config_problem_prefix(es, n + 1);
    } else {
        assert(es.take(n) =~= es);
    }
}

fn first_config_check(es: &Vec<(String, TomlNode)>) -> (r: Option<String>)
    ensures
        match r {
            Some(m) => first_config_problem(es@) == Some(m@),
            None => first_config_problem(es@) is None,
        },
{
    let mut i: usize = 0;
    while i < es.len()
        invariant
            i <= es@.len(),
            first_config_problem(es@.take(i as int)) is None,
        decreases es.len() - i,
    {
        assert(es@.take(i + 1).drop_last() =~= es@.take(i as int));
        if let Some(m) = config_entry_check(&es[i]) {
            proof {
                lemma_first_config_problem_prefix(es@, (i + 1) as int);
            }
            return Some(m);
        }
        i += 1;
    }
    assert(es@.take(es@.len() as int) =~= es@);
    None
}

/// Reads the document through the schema.
pub fn raw_config(doc: &TomlNode) -> (r: Result<RawConfig, String>)
    ensures
        match r {
            Ok(raw) => decode_config(*doc) == Ok::<
                (u32, String, Seq<(String, RawDesktop)>),
                Seq<char>,
            >((raw.version, raw.default, raw.desktops@)),
            Err(e) => decode_config(*doc) == Err::<
                (u32, String, Seq<(String, RawDesktop)>),
                Seq<char>,
            >(e@),
        },
{
    let entries = match doc {
        TomlNode::Table(entries) => entries,
        _ => {
            return Err(type_error(doc, "struct RawConfig"));
        },
    };
    if let Some(m) = first_config_check(entries) {
        return Err(m);
    }
    let version = match find_field(entries, "version") {
        None => {
            return Err(missing("version"));
        },
        Some(v) => u32_field(&entries[v].1)?,
    };
    let default = required_text_field(entries, "default")?;
    let desktops = match find_field(entries, "desktops") {
        None => {
            return Err(missing("desktops"));
        },
        Some(d) => desktop_map(&entries[d].1)?,
    };
    Ok(RawConfig { version, default, desktops })
}


// ---------------------------------------------------------------------------
// Validation rules.
// ---------------------------------------------------------------------------
pub open spec fn is_id_char(c: char) -> bool {
    is_ascii_lower(c) || is_ascii_digit(c) || c == '-' || c == '_'
}

pub open spec fn is_target_char(c: char) -> bool {
    is_ascii_alnum(c) || c == '.' || c == '_' || c == '-' || c == '@'
}

pub open spec fn is_session_char(c: char) -> bool {
    is_ascii_alnum(c) || c == '.' || c == '_' || c == '-'
}

pub open spec fn dot_dot() -> Seq<char> {
    seq!['.', '.']
}

/// Why `v` is not a desktop id, if it is not one.
pub open spec fn desktop_id_problem(v: Seq<char>) -> Option<Seq<char>> {
    if v.len() == 0 || utf8_len(v) > 64 {
        Some("use between 1 and 64 ASCII characters"@)
    } else if !(is_ascii_lower(v[0]) || is_ascii_digit(v[0])) {
        Some("start with a lowercase ASCII letter or digit"@)
    } else if exists|i: int| 1 <= i < v.len() && !is_id_char(#[trigger] v[i]) {
        Some("use only lowercase ASCII letters, digits, '-' and '_'"@)
    } else {
        None
    }
}

/// Why `v` is not an SSH target, if it is not one.
pub open spec fn target_problem(v: Seq<char>) -> Option<Seq<char>> {
    if v.len() == 0 || utf8_len(v) > 255 {
        Some("use between 1 and 255 ASCII characters"@)
    } else if v[0] == '-' {
        Some("must not begin with '-' because SSH would treat it as an option"@)
    } else if has_infix(v, dot_dot()) {
        Some("must not contain '..'"@)
    } else if exists|i: int| 0 <= i < v.len() && !is_target_char(#[trigger] v[i]) {
        Some("use only ASCII letters, digits, '.', '_', '-', and one optional '@'"@)
    } else if count_char(v, '@') > 1 || v[0] == '@' || v.last() == '@' {
        Some("use either an SSH alias/hostname or user@host"@)
    } else {
        None
    }
}

/// Why `v` is not a session name, if it is not one.
pub open spec fn session_problem(v: Seq<char>) -> Option<Seq<char>> {
    if v.len() == 0 || utf8_len(v) > 64 {
        Some("use between 1 and 64 ASCII characters"@)
    } else if v[0] == '-' {
        Some("must not begin with '-'"@)
    } else if has_infix(v, dot_dot()) {
        Some("must not contain '..'"@)
    } else if !is_ascii_alnum(v[0]) {
        Some("start with an ASCII letter or digit"@)
    } else if exists|i: int| 1 <= i < v.len() && !is_session_char(#[trigger] v[i]) {
        Some("use only ASCII letters, digits, '.', '_', and '-'"@)
    } else {
        None
    }
}

/// Why `v` is not an app name, if it is not one.
pub open spec fn app_name_problem(v: Seq<char>) -> Option<Seq<char>> {
    if v.len() == 0 || v.len() > 64 {
        Some("use between 1 and 64 characters"@)
    } else if has_outer_space(v) {
        Some("must not have leading or trailing whitespace"@)
    } else if has_control(v) {
        Some("must not contain control characters"@)
    } else if v[0] == '.' || v[0] == '-' {
        Some("must not begin with '.' or '-'"@)
    } else if has_char(v, '/') {
        Some("must not contain '/'"@)
    } else if has_infix(v, dot_dot()) {
        Some("must not contain '..'"@)
    } else {
        None
    }
}

/// The message for a bad label of desktop `id`, if `label` is bad.
pub open spec fn label_problem(id: Seq<char>, label: Seq<char>) -> Option<Seq<char>> {
    if label.len() == 0 || label.len() > 80 {
        Some("desktop "@ + debug_quoted(id) + " label must contain between 1 and 80 characters"@)
    } else if has_outer_space(label) {
        Some(
            "desktop "@ + debug_quoted(id) + " label must not have leading or trailing whitespace"@,
        )
    } else if has_control(label) {
        Some("desktop "@ + debug_quoted(id) + " label must not contain control characters"@)
    } else {
        None
    }
}

pub open spec fn name_if(present: bool, name: Seq<char>) -> Seq<Seq<char>> {
    if present {
        seq![name]
    } else {
        Seq::empty()
    }
}

/// The remote-only fields that a local desktop defines, in declaration order.
pub open spec fn local_forbidden(raw: RawDesktop) -> Seq<Seq<char>> {
    name_if(raw.target is Some, "target"@) + name_if(raw.session is Some, "session"@) + name_if(
        raw.keybindings is Some,
        "keybindings"@,
    ) + name_if(raw.app_name is Some, "app_name"@)
}

/// `names` joined by ", ".
pub open spec fn join_names(names: Seq<Seq<char>>) -> Seq<char>
    decreases names.len(),
{
    if names.len() == 0 {
        Seq::empty()
    } else if names.len() == 1 {
        names[0]
    } else {
        join_names(names.drop_last()) + ", "@ + names.last()
    }
}

/// The app name a remote desktop resolves to: `app_name`, else its label.
pub open spec fn effective_app_name(raw: RawDesktop) -> String {
    match raw.app_name {
        Some(a) => a,
        None => raw.label,
    }
}

/// What a `mode = "remote"` table becomes.
pub open spec fn remote_mode(id: Seq<char>, raw: RawDesktop) -> Result<DesktopMode, Seq<char>> {
    let q = debug_quoted(id);
    match raw.target {
        None => Err("remote desktop "@ + q + " must define target"@),
        Some(target) => match target_problem(target@) {
            Some(r) => Err(
                "remote desktop "@ + q + " has invalid target "@ + debug_quoted(target@) + ": "@ + r,
            ),
            None => match raw.session {
                None => Err("remote desktop "@ + q + " must define session"@),
                Some(session) => match session_problem(session@) {
                    Some(r) => Err(
                        "remote desktop "@ + q + " has invalid session "@ + debug_quoted(session@)
                            + ": "@ + r,
                    ),
                    None => match raw.keybindings {
                        None => Err(
                            "remote desktop "@ + q
                                + " must define keybindings as local or server"@,
                        ),
                        Some(keybindings) => {
                            let app_name = effective_app_name(raw);
                            match app_name_problem(app_name@) {
                                Some(r) => Err(
                                    "remote desktop "@ + q + " has invalid app name "@
                                        + debug_quoted(app_name@) + ": "@ + r,
                                ),
                                None => Ok(
                                    DesktopMode::Remote { target, session, keybindings, app_name },
                                ),
                            }
                        },
                    },
                },
            },
        },
    }
}

/// What one desktop table becomes once validated.
pub open spec fn build_desktop(id: String, raw: RawDesktop) -> Result<Desktop, Seq<char>> {
    match desktop_id_problem(id@) {
        Some(r) => Err("invalid desktop id "@ + debug_quoted(id@) + ": "@ + r),
        None => match label_problem(id@, raw.label@) {
            Some(m) => Err(m),
            None => match raw.mode {
                RawMode::Local => if local_forbidden(raw).len() > 0 {
                    Err(
                        "local desktop "@ + debug_quoted(id@) + " must not define "@ + join_names(
                            local_forbidden(raw),
                        ),
                    )
                } else {
                    Ok(Desktop { id, label: raw.label, mode: DesktopMode::Local })
                },
                RawMode::Remote => match remote_mode(id@, raw) {
                    Err(e) => Err(e),
                    Ok(mode) => Ok(Desktop { id, label: raw.label, mode }),
                },
            },
        },
    }
}

/// The validated desktops, in order, or the first desktop's error.
pub open spec fn build_desktops(es: Seq<(String, RawDesktop)>) -> Result<Seq<Desktop>, Seq<char>>
    decreases es.len(),
{
    if es.len() == 0 {
        Ok(Seq::empty())
    } else {
        match build_desktops(es.drop_last()) {
            Err(e) => Err(e),
            Ok(done) => match build_desktop(es.last().0, es.last().1) {
                Err(e) => Err(e),
                Ok(d) => Ok(done.push(d)),
            },
        }
    }
}

pub open spec fn app_name_of(d: Desktop) -> Option<Seq<char>> {
    match d.mode {
        DesktopMode::Remote { app_name, .. } => Some(app_name@),
        DesktopMode::Local => None,
    }
}

/// Desktop `j` comes before the last desktop and resolves to its app name.
pub open spec fn clashes_with_last(ds: Seq<Desktop>, j: int) -> bool {
    0 <= j < ds.len() - 1 && app_name_of(ds[j]) is Some && app_name_of(ds[j]) == app_name_of(
        ds.last(),
    )
}

/// The first pair of remote desktops (earlier, later) that resolve to the same
/// app name, scanning in order.
pub open spec fn first_app_clash(ds: Seq<Desktop>) -> Option<(int, int)>
    decreases ds.len(),
{
    if ds.len() == 0 {
        None
    } else {
        match first_app_clash(ds.drop_last()) {
            Some(p) => Some(p),
            None => if exists|j: int| clashes_with_last(ds, j) {
                Some((choose|j: int| clashes_with_last(ds, j), ds.len() - 1))
            } else {
                None
            },
        }
    }
}

pub open spec fn has_key(es: Seq<(String, RawDesktop)>, key: Seq<char>) -> bool {
    exists|i: int| 0 <= i < es.len() && #[trigger] es[i].0@ == key
}

/// What validation makes of what the schema read: the desktops, or the
/// message of the first rule broken.
pub open spec fn validate_outcome(
    version: u32,
    default: String,
    es: Seq<(String, RawDesktop)>,
) -> Result<Seq<Desktop>, Seq<char>> {
    if version != CONFIG_VERSION {
        Err(
            "unsupported desktop configuration version "@ + decimal(version as int)
                + "; expected 1"@,
        )
    } else if es.len() == 0 {
        Err("desktop configuration must define at least one desktop"@)
    } else {
        match desktop_id_problem(default@) {
            Some(r) => Err("invalid default desktop id "@ + debug_quoted(default@) + ": "@ + r),
            None => if !has_key(es, default@) {
                Err("default desktop "@ + debug_quoted(default@) + " is not defined"@)
            } else {
                match build_desktops(es) {
                    Err(e) => Err(e),
                    Ok(ds) => match first_app_clash(ds) {
                        Some((j, k)) => Err(
                            "remote desktops "@ + debug_quoted(ds[j].id@) + " and "@
                                + debug_quoted(ds[k].id@) + " both resolve to app name "@
                                + debug_quoted(app_name_of(ds[k]).unwrap())
                                + "; app names must be unique"@,
                        ),
                        None => Ok(ds),
                    },
                }
            },
        }
    }
}

/// What parsing `source` yields: version, default and validated desktops, or
/// the failure, where `context` names the source in TOML errors.
pub open spec fn parse_outcome(source: Seq<char>, context: Seq<char>) -> Result<
    (u32, String, Seq<Desktop>),
    ConfigFailure,
> {
    match toml_document(source) {
        Err(m) => Err(ConfigFailure::Toml { context, message: m }),
        Ok(doc) => match decode_config(doc) {
            Err(m) => Err(ConfigFailure::Toml { context, message: m }),
            Ok((version, default, es)) => match validate_outcome(version, default, es) {
                Err(m) => Err(ConfigFailure::Validation(m)),
                Ok(ds) => Ok((version, default, ds)),
            },
        },
    }
}

/// Every rule that a desktop of a loaded configuration obeys.
pub open spec fn desktop_valid(d: Desktop) -> bool {
    &&& desktop_id_problem(d.id@) is None
    &&& label_problem(d.id@, d.label@) is None
    &&& match d.mode {
        DesktopMode::Local => true,
        DesktopMode::Remote { target, session, app_name, .. } => {
            &&& target_problem(target@) is None
            &&& session_problem(session@) is None
            &&& app_name_problem(app_name@) is None
        },
    }
}

impl DesktopConfig {
    /// Every rule that a loaded configuration obeys: supported version, at
    /// least one desktop, a valid and defined default, valid desktops ordered
    /// by id, and distinct app names among remote desktops.
    pub open spec fn is_valid(&self) -> bool {
        let ds = self.desktops@;
        &&& self.version == CONFIG_VERSION
        &&& ds.len() > 0
        &&& desktop_id_problem(self.default@) is None
        &&& exists|i: int| 0 <= i < ds.len() && #[trigger] ds[i].id@ == self.default@
        &&& forall|i: int| 0 <= i < ds.len() ==> desktop_valid(#[trigger] ds[i])
        &&& forall|i: int, j: int|
            0 <= i < j < ds.len() ==> key_lt(#[trigger] ds[i].id@, #[trigger] ds[j].id@)
        &&& forall|i: int, j: int|
            0 <= i < ds.len() && 0 <= j < ds.len() && i != j && app_name_of(#[trigger] ds[i])
                is Some ==> app_name_of(ds[i]) != app_name_of(#[trigger] ds[j])
    }
}


// ---------------------------------------------------------------------------
// Exec side of validation.
// ---------------------------------------------------------------------------
/// Checks a desktop id; the error is the rule it breaks.
#[verifier::loop_isolation(false)]
pub fn validate_desktop_id(value: &str) -> (r: Result<(), &'static str>)
    ensures
        match r {
            Ok(()) => desktop_id_problem(value@) is None,
            Err(reason) => desktop_id_problem(value@) == Some(reason@),
        },
{
    let v = chars_of(value);
    if v.len() == 0 || byte_len(v.as_slice()) > 64 {
        return Err("use between 1 and 64 ASCII characters");
    }
    if !ascii_lower(v[0]) && !ascii_digit(v[0]) {
        return Err("start with a lowercase ASCII letter or digit");
    }
    let mut i: usize = 1;
    while i < v.len()
        invariant
            1 <= i <= v@.len(),
            forall|j: int| 1 <= j < i ==> is_id_char(#[trigger] v@[j]),
            v@ == value@,
        decreases v.len() - i,
    {
        let c = v[i];
        if !(ascii_lower(c) || ascii_digit(c) || c == '-' || c == '_') {
            assert(1 <= i < value@.len() && !is_id_char(value@[i as int]));
            return Err("use only lowercase ASCII letters, digits, '-' and '_'");
        }
        i += 1;
    }
    Ok(())
}

/// Whether `value` is a valid desktop id.
pub fn is_valid_desktop_id(value: &str) -> (r: bool)
    ensures
        r == (desktop_id_problem(value@) is None),
{
    validate_desktop_id(value).is_ok()
}

proof fn lemma_utf8_len_ascii(v: Seq<char>)
    requires
        forall|i: int| 0 <= i < v.len() ==> (#[trigger] v[i] as u32) < 0x80,
    ensures
        utf8_len(v) == v.len(),
    decreases v.len(),
{
    if v.len() > 0 {
        let w = v.drop_last();
        assert forall|i: int| 0 <= i < w.len() implies (#[trigger] w[i] as u32) < 0x80 by {
            assert(w[i] == v[i]);
        }
        lemma_utf8_len_ascii(w);
        assert((v.last() as u32) < 0x80) by {
            assert(v.last() == v[v.len() - 1]);
        }
    }
}

proof fn lemma_count_char_none(v: Seq<char>, c: char)
    requires
        forall|i: int| 0 <= i < v.len() ==> #[trigger] v[i] != c,
    ensures
        count_char(v, c) == 0,
    decreases v.len(),
{
    if v.len() > 0 {
        let w = v.drop_last();
        assert forall|i: int| 0 <= i < w.len() implies #[trigger] w[i] != c by {
            assert(w[i] == v[i]);
        }
        lemma_count_char_none(w, c);
        assert(v.last() == v[v.len() - 1]);
    }
}

proof fn lemma_count_char_at_most_one(v: Seq<char>, c: char)
    requires
        forall|i: int, j: int| 0 <= i < j < v.len() && #[trigger] v[i] == c ==> #[trigger] v[j] != c,
    ensures
        count_char(v, c) <= 1,
    decreases v.len(),
{
    if v.len() > 0 {
        let w = v.drop_last();
        assert forall|i: int, j: int| 0 <= i < j < w.len() && #[trigger] w[i] == c implies #[trigger] w[j] != c by {
            assert(w[i] == v[i] && w[j] == v[j]);
        }
        lemma_count_char_at_most_one(w, c);
        if v.last() == c {
            assert forall|i: int| 0 <= i < w.len() implies #[trigger] w[i] != c by {
                assert(w[i] == v[i]);
                assert(v[v.len() - 1] == c);
            }
            lemma_count_char_none(w, c);
        }
    }
}

proof fn lemma_count_char_two(v: Seq<char>, c: char, i: int, j: int)
    requires
        0 <= i < j < v.len(),
        v[i] == c,
        v[j] == c,
    ensures
        count_char(v, c) >= 2,
    decreases v.len(),
{
    let w = v.drop_last();
    if j < v.len() - 1 {
        assert(w[i] == v[i] && w[j] == v[j]);
        lemma_count_char_two(w, c, i, j);
    } else {
        assert(w[i] == v[i]);
        lemma_count_char_one(w, c, i);
        assert(v.last() == v[j]);
    }
}

proof fn lemma_count_char_one(v: Seq<char>, c: char, i: int)
    requires
        0 <= i < v.len(),
        v[i] == c,
    ensures
        count_char(v, c) >= 1,
    decreases v.len(),
{
    let w = v.drop_last();
    if i < v.len() - 1 {
        assert(w[i] == v[i]);
        lemma_count_char_one(w, c, i);
    } else {
        assert(v.last() == v[i]);
    }
}

/// `v` holds `..` exactly when two neighbouring characters are both `.`.
proof fn lemma_dot_dot(v: Seq<char>)
    ensures
        has_infix(v, dot_dot()) <==> exists|i: int| 0 <= i < v.len() - 1 && #[trigger] v[i] == '.' && v[i + 1] == '.',
{
    if has_infix(v, dot_dot()) {
        let i = choose|i: int| #[trigger] crate::text::occurs_at(v, dot_dot(), i);
        assert(v.subrange(i, i + 2)[0] == v[i]);
        assert(v.subrange(i, i + 2)[1] == v[i + 1]);
    }
    if exists|i: int| 0 <= i < v.len() - 1 && #[trigger] v[i] == '.' && v[i + 1] == '.' {
        let i = choose|i: int| 0 <= i < v.len() - 1 && #[trigger] v[i] == '.' && v[i + 1] == '.';
        assert(v.subrange(i, i + 2) =~= dot_dot());
        assert(crate::text::occurs_at(v, dot_dot(), i));
    }
}

/// The SSH targets accepted are exactly the aliases and `user@host` forms of
/// the documented shape: 1 to 255 ASCII letters, digits, `.`, `_`, `-` and at
/// most one `@`, not beginning with `-`, neither beginning nor ending with
/// `@`, and without `..`.
pub proof fn law_documented_targets_are_valid(v: Seq<char>)
    ensures
        target_problem(v) is None <==> {
            &&& 1 <= v.len() <= 255
            &&& forall|i: int|
                0 <= i < v.len() ==> {
                    let c = #[trigger] v[i];
                    ('a' <= c <= 'z') || ('A' <= c <= 'Z') || ('0' <= c <= '9') || c == '.' || c
                        == '_' || c == '-' || c == '@'
                }
            &&& v[0] != '-'
            &&& v[0] != '@'
            &&& v[v.len() - 1] != '@'
            &&& forall|i: int, j: int|
                0 <= i < j < v.len() && #[trigger] v[i] == '@' ==> #[trigger] v[j] != '@'
            &&& forall|i: int| 0 <= i < v.len() - 1 ==> !(#[trigger] v[i] == '.' && v[i + 1] == '.')
        },
{
    lemma_dot_dot(v);
    let chars_ok = forall|i: int|
        0 <= i < v.len() ==> {
            let c = #[trigger] v[i];
            ('a' <= c <= 'z') || ('A' <= c <= 'Z') || ('0' <= c <= '9') || c == '.' || c == '_'
                || c == '-' || c == '@'
        };
    if chars_ok || forall|i: int| 0 <= i < v.len() ==> is_target_char(#[trigger] v[i]) {
        assert forall|i: int| 0 <= i < v.len() implies (#[trigger] v[i] as u32) < 0x80 by {
            let c = v[i];
            if chars_ok {
                assert(('a' <= c <= 'z') || ('A' <= c <= 'Z') || ('0' <= c <= '9') || c == '.'
                    || c == '_' || c == '-' || c == '@');
            } else {
                assert(is_target_char(c));
            }
        }
        lemma_utf8_len_ascii(v);
    }
    if forall|i: int, j: int| 0 <= i < j < v.len() && #[trigger] v[i] == '@' ==> #[trigger] v[j] != '@' {
        lemma_count_char_at_most_one(v, '@');
    } else {
        let (i, j) = choose|i: int, j: int| 0 <= i < j < v.len() && #[trigger] v[i] == '@' && #[trigger] v[j] == '@';
        lemma_count_char_two(v, '@', i, j);
    }
    assert forall|i: int| 0 <= i < v.len() implies is_target_char(#[trigger] v[i]) == {
        let c = v[i];
        ('a' <= c <= 'z') || ('A' <= c <= 'Z') || ('0' <= c <= '9') || c == '.' || c == '_' || c
            == '-' || c == '@'
    } by {}
    if v.len() > 0 {
        assert(v.last() == v[v.len() - 1]);
    }
}

/// The desktop ids accepted are exactly 1 to 64 lowercase ASCII letters,
/// digits, `-` and `_` that begin with a letter or a digit.
pub proof fn law_desktop_ids(v: Seq<char>)
    ensures
        desktop_id_problem(v) is None <==> {
            &&& 1 <= v.len() <= 64
            &&& ('a' <= v[0] <= 'z' || '0' <= v[0] <= '9')
            &&& forall|i: int|
                1 <= i < v.len() ==> {
                    let c = #[trigger] v[i];
                    ('a' <= c <= 'z') || ('0' <= c <= '9') || c == '-' || c == '_'
                }
        },
{
    let first_ok = v.len() > 0 && ('a' <= v[0] <= 'z' || '0' <= v[0] <= '9');
    let rest_ok = forall|i: int| 1 <= i < v.len() ==> is_id_char(#[trigger] v[i]);
    if first_ok && rest_ok {
        assert forall|i: int| 0 <= i < v.len() implies (#[trigger] v[i] as u32) < 0x80 by {
            if i > 0 {
                assert(is_id_char(v[i]));
            }
        }
        lemma_utf8_len_ascii(v);
    }
}

/// The session names accepted are exactly 1 to 64 ASCII letters, digits,
/// `.`, `_` and `-` that begin with a letter or a digit and hold no `..`.
pub proof fn law_session_names(v: Seq<char>)
    ensures
        session_problem(v) is None <==> {
            &&& 1 <= v.len() <= 64
            &&& ('a' <= v[0] <= 'z' || 'A' <= v[0] <= 'Z' || '0' <= v[0] <= '9')
            &&& forall|i: int|
                1 <= i < v.len() ==> {
                    let c = #[trigger] v[i];
                    ('a' <= c <= 'z') || ('A' <= c <= 'Z') || ('0' <= c <= '9') || c == '.' || c
                        == '_' || c == '-'
                }
            &&& forall|i: int| 0 <= i < v.len() - 1 ==> !(#[trigger] v[i] == '.' && v[i + 1] == '.')
        },
{
    lemma_dot_dot(v);
    let first_ok = v.len() > 0 && is_ascii_alnum(v[0]);
    let rest_ok = forall|i: int| 1 <= i < v.len() ==> is_session_char(#[trigger] v[i]);
    if first_ok && rest_ok {
        assert forall|i: int| 0 <= i < v.len() implies (#[trigger] v[i] as u32) < 0x80 by {
            if i > 0 {
                assert(is_session_char(v[i]));
            }
        }
        lemma_utf8_len_ascii(v);
    }
}

/// The labels accepted are exactly those of 1 to 80 characters that neither
/// begin nor end with white space and hold no control character.
pub proof fn law_labels(id: Seq<char>, v: Seq<char>)
    ensures
        label_problem(id, v) is None <==> {
            &&& 1 <= v.len() <= 80
            &&& !crate::text::is_space(v[0])
            &&& !crate::text::is_space(v[v.len() - 1])
            &&& forall|i: int| 0 <= i < v.len() ==> !crate::text::is_control(#[trigger] v[i])
        },
{
    if v.len() > 0 {
        assert(v.last() == v[v.len() - 1]);
    }
}

/// The app names accepted are exactly those of 1 to 64 characters that
/// neither begin nor end with white space, hold no control character and no
/// `/`, do not begin with `.` or `-`, and hold no `..`.
pub proof fn law_app_names(v: Seq<char>)
    ensures
        app_name_problem(v) is None <==> {
            &&& 1 <= v.len() <= 64
            &&& !crate::text::is_space(v[0])
            &&& !crate::text::is_space(v[v.len() - 1])
            &&& forall|i: int| 0 <= i < v.len() ==> !crate::text::is_control(#[trigger] v[i])
            &&& v[0] != '.'
            &&& v[0] != '-'
            &&& forall|i: int| 0 <= i < v.len() ==> #[trigger] v[i] != '/'
            &&& forall|i: int| 0 <= i < v.len() - 1 ==> !(#[trigger] v[i] == '.' && v[i + 1] == '.')
        },
{
    lemma_dot_dot(v);
    if v.len() > 0 {
        assert(v.last() == v[v.len() - 1]);
    }
}

/// Checks an SSH target; the error is the rule it breaks.
#[verifier::loop_isolation(false)]
pub fn validate_target(value: &str) -> (r: Result<(), &'static str>)
    ensures
        match r {
            Ok(()) => target_problem(value@) is None,
            Err(reason) => target_problem(value@) == Some(reason@),
        },
{
    let v = chars_of(value);
    if v.len() == 0 || byte_len(v.as_slice()) > 255 {
        return Err("use between 1 and 255 ASCII characters");
    }
    if v[0] == '-' {
        return Err("must not begin with '-' because SSH would treat it as an option");
    }
    let dots: [char; 2] = ['.', '.'];
    assert(dots@ =~= dot_dot());
    if contains(v.as_slice(), dots.as_slice()) {
        return Err("must not contain '..'");
    }
    let mut i: usize = 0;
    while i < v.len()
        invariant
            i <= v@.len(),
            forall|j: int| 0 <= j < i ==> is_target_char(#[trigger] v@[j]),
            v@ == value@,
        decreases v.len() - i,
    {
        let c = v[i];
        if !(ascii_alnum(c) || c == '.' || c == '_' || c == '-' || c == '@') {
            assert(0 <= i < value@.len() && !is_target_char(value@[i as int]));
            return Err("use only ASCII letters, digits, '.', '_', '-', and one optional '@'");
        }
        i += 1;
    }
    if count_of(v.as_slice(), '@') > 1 || v[0] == '@' || v[v.len() - 1] == '@' {
        return Err("use either an SSH alias/hostname or user@host");
    }
    Ok(())
}

/// Checks a session name; the error is the rule it breaks.
#[verifier::loop_isolation(false)]
pub fn validate_session(value: &str) -> (r: Result<(), &'static str>)
    ensures
        match r {
            Ok(()) => session_problem(value@) is None,
            Err(reason) => session_problem(value@) == Some(reason@),
        },
{
    let v = chars_of(value);
    if v.len() == 0 || byte_len(v.as_slice()) > 64 {
        return Err("use between 1 and 64 ASCII characters");
    }
    if v[0] == '-' {
        return Err("must not begin with '-'");
    }
    let dots: [char; 2] = ['.', '.'];
    assert(dots@ =~= dot_dot());
    if contains(v.as_slice(), dots.as_slice()) {
        return Err("must not contain '..'");
    }
    if !ascii_alnum(v[0]) {
        return Err("start with an ASCII letter or digit");
    }
    let mut i: usize = 1;
    while i < v.len()
        invariant
            1 <= i <= v@.len(),
            forall|j: int| 1 <= j < i ==> is_session_char(#[trigger] v@[j]),
            v@ == value@,
        decreases v.len() - i,
    {
        let c = v[i];
        if !(ascii_alnum(c) || c == '.' || c == '_' || c == '-') {
            assert(1 <= i < value@.len() && !is_session_char(value@[i as int]));
            return Err("use only ASCII letters, digits, '.', '_', and '-'");
        }
        i += 1;
    }
    Ok(())
}

/// Checks an app name; the error is the rule it breaks.
pub fn validate_app_name(value: &str) -> (r: Result<(), &'static str>)
    ensures
        match r {
            Ok(()) => app_name_problem(value@) is None,
            Err(reason) => app_name_problem(value@) == Some(reason@),
        },
{
    let v = chars_of(value);
    if v.len() == 0 || v.len() > 64 {
        return Err("use between 1 and 64 characters");
    }
    if outer_space(v.as_slice()) {
        return Err("must not have leading or trailing whitespace");
    }
    if any_control(v.as_slice()) {
        return Err("must not contain control characters");
    }
    if v[0] == '.' || v[0] == '-' {
        return Err("must not begin with '.' or '-'");
    }
    if find_char(v.as_slice(), '/') {
        return Err("must not contain '/'");
    }
    let dots: [char; 2] = ['.', '.'];
    assert(dots@ =~= dot_dot());
    if contains(v.as_slice(), dots.as_slice()) {
        return Err("must not contain '..'");
    }
    Ok(())
}

/// Checks the label of desktop `id`; the error is the full message.
fn validate_label(id: &str, label: String) -> (r: Result<String, String>)
    ensures
        match r {
            Ok(l) => label_problem(id@, label@) is None && l == label,
            Err(m) => label_problem(id@, label@) == Some(m@),
        },
{
    let v = chars_of(label.as_str());
    let q = quoted(id);
    if v.len() == 0 || v.len() > 80 {
        return Err(join3("desktop ", q.as_str(), " label must contain between 1 and 80 characters"));
    }
    if outer_space(v.as_slice()) {
        return Err(
            join3("desktop ", q.as_str(), " label must not have leading or trailing whitespace"),
        );
    }
    if any_control(v.as_slice()) {
        return Err(join3("desktop ", q.as_str(), " label must not contain control characters"));
    }
    Ok(label)
}

/// `names` joined by ", ".
fn join_comma(names: &Vec<&str>) -> (out: String)
    ensures
        out@ == join_names(names@.map_values(|n: &str| n@)),
{
    let ghost all = names@.map_values(|n: &str| n@);
    let mut out = String::new();
    let mut i: usize = 0;
    while i < names.len()
        invariant
            i <= names@.len(),
            all == names@.map_values(|n: &str| n@),
            out@ == join_names(all.take(i as int)),
        decreases names.len() - i,
    {
        assert(all.take(i + 1).drop_last() =~= all.take(i as int));
        if i == 0 {
            out = String::from_str(names[i]);
            assert(all.take(1) =~= seq![all[0]]);
        } else {
            out = join3(out.as_str(), ", ", names[i]);
        }
        i += 1;
    }
    assert(all.take(names@.len() as int) =~= all);
    out
}

/// A local desktop must define none of the remote fields.
fn validate_local(id: &str, raw: &RawDesktop) -> (r: Result<DesktopMode, String>)
    requires
        raw.mode == RawMode::Local,
    ensures
        match r {
            Ok(mode) => local_forbidden(*raw).len() == 0 && mode == DesktopMode::Local,
            Err(m) => local_forbidden(*raw).len() > 0 && m@ == "local desktop "@ + debug_quoted(
                id@,
            ) + " must not define "@ + join_names(local_forbidden(*raw)),
        },
{
    let mut forbidden: Vec<&str> = Vec::new();
    proof {
        reveal_strlit("target");
        reveal_strlit("session");
        reveal_strlit("keybindings");
        reveal_strlit("app_name");
    }
    if raw.target.is_some() {
        forbidden.push("target");
    }
    let ghost after_target = forbidden@.map_values(|n: &str| n@);
    assert(after_target =~= name_if(raw.target is Some, "target"@));
    if raw.session.is_some() {
        forbidden.push("session");
    }
    let ghost after_session = forbidden@.map_values(|n: &str| n@);
    assert(after_session =~= name_if(raw.target is Some, "target"@) + name_if(
        raw.session is Some,
        "session"@,
    ));
    if raw.keybindings.is_some() {
        forbidden.push("keybindings");
    }
    let ghost after_keys = forbidden@.map_values(|n: &str| n@);
    assert(after_keys =~= name_if(raw.target is Some, "target"@) + name_if(
        raw.session is Some,
        "session"@,
    ) + name_if(raw.keybindings is Some, "keybindings"@));
    if raw.app_name.is_some() {
        forbidden.push("app_name");
    }
    assert(forbidden@.map_values(|n: &str| n@) =~= local_forbidden(*raw));
    if forbidden.len() > 0 {
        let q = quoted(id);
        let names = join_comma(&forbidden);
        return Err(join4("local desktop ", q.as_str(), " must not define ", names.as_str()));
    }
    Ok(DesktopMode::Local)
}

fn required_remote_field(id: &str, rest: &str, value: &Option<String>) -> (r: Result<String, String>)
    ensures
        match r {
            Ok(v) => *value == Some(v),
            Err(m) => value is None && m@ == "remote desktop "@ + debug_quoted(id@) + rest@,
        },
{
    match value {
        Some(v) => Ok(v.clone()),
        None => {
            let q = quoted(id);
            Err(join3("remote desktop ", q.as_str(), rest))
        },
    }
}

/// `"remote desktop {id:?}{middle}{value:?}: {reason}"`.
fn invalid_remote_field(id: &str, middle: &str, value: &str, reason: &str) -> (out: String)
    ensures
        out@ == "remote desktop "@ + debug_quoted(id@) + middle@ + debug_quoted(value@) + ": "@
            + reason@,
{
    let q = quoted(id);
    let v = quoted(value);
    let head = join3("remote desktop ", q.as_str(), middle);
    let tail = join3(v.as_str(), ": ", reason);
    let out = join2(head.as_str(), tail.as_str());
    assert(out@ =~= "remote desktop "@ + debug_quoted(id@) + middle@ + debug_quoted(value@) + ": "@
        + reason@);
    out
}

/// A remote desktop must define a valid target, session, keybinding
/// authority, and resolve to a valid app name.
fn validate_remote(id: &str, raw: &RawDesktop) -> (r: Result<DesktopMode, String>)
    ensures
        match r {
            Ok(mode) => remote_mode(id@, *raw) == Ok::<DesktopMode, Seq<char>>(mode),
            Err(m) => remote_mode(id@, *raw) == Err::<DesktopMode, Seq<char>>(m@),
        },
{
    let target = required_remote_field(id, " must define target", &raw.target)?;
    if let Err(reason) = validate_target(target.as_str()) {
        return Err(invalid_remote_field(id, " has invalid target ", target.as_str(), reason));
    }
    let session = required_remote_field(id, " must define session", &raw.session)?;
    if let Err(reason) = validate_session(session.as_str()) {
        return Err(invalid_remote_field(id, " has invalid session ", session.as_str(), reason));
    }
    let keybindings = match raw.keybindings {
        Some(k) => k,
        None => {
            let q = quoted(id);
            return Err(
                join3("remote desktop ", q.as_str(), " must define keybindings as local or server"),
            );
        },
    };
    let app_name = match &raw.app_name {
        Some(a) => a.clone(),
        None => raw.label.clone(),
    };
    if let Err(reason) = validate_app_name(app_name.as_str()) {
        return Err(invalid_remote_field(id, " has invalid app name ", app_name.as_str(), reason));
    }
    Ok(DesktopMode::Remote { target, session, keybindings, app_name })
}

/// Validates one desktop table.
fn validate_desktop(id: &String, raw: &RawDesktop) -> (r: Result<Desktop, String>)
    ensures
        match r {
            Ok(d) => build_desktop(*id, *raw) == Ok::<Desktop, Seq<char>>(d),
            Err(m) => build_desktop(*id, *raw) == Err::<Desktop, Seq<char>>(m@),
        },
{
    if let Err(reason) = validate_desktop_id(id.as_str()) {
        let q = quoted(id.as_str());
        return Err(join4("invalid desktop id ", q.as_str(), ": ", reason));
    }
    let label = validate_label(id.as_str(), raw.label.clone())?;
    let mode = match raw.mode {
        RawMode::Local => validate_local(id.as_str(), raw)?,
        RawMode::Remote => validate_remote(id.as_str(), raw)?,
    };
    Ok(Desktop { id: id.clone(), label, mode })
}

proof fn lemma_build_desktops_prefix_error(es: Seq<(String, RawDesktop)>, n: int)
    requires
        0 <= n <= es.len(),
        build_desktops(es.take(n)) is Err,
    ensures
        build_desktops(es) == build_desktops(es.take(n)),
    decreases es.len() - n,
{
    if n < es.len() {
        assert(es.take(n + 1).drop_last() =~= es.take(n));
        lemma_build_desktops_prefix_error(es, n + 1);
    } else {
        assert(es.take(n) =~= es);
    }
}

fn validate_desktops(es: &Vec<(String, RawDesktop)>) -> (r: Result<Vec<Desktop>, String>)
    ensures
        match r {
            Ok(ds) => build_desktops(es@) == Ok::<Seq<Desktop>, Seq<char>>(ds@),
            Err(m) => build_desktops(es@) == Err::<Seq<Desktop>, Seq<char>>(m@),
        },
{
    let mut out: Vec<Desktop> = Vec::new();
    let mut i: usize = 0;
    while i < es.len()
        invariant
            i <= es@.len(),
            build_desktops(es@.take(i as int)) == Ok::<Seq<Desktop>, Seq<char>>(out@),
        decreases es.len() - i,
    {
        assert(es@.take(i + 1).drop_last() =~= es@.take(i as int));
        match validate_desktop(&es[i].0, &es[i].1) {
            Err(m) => {
                proof {
                    lemma_build_desktops_prefix_error(es@, (i + 1) as int);
                }
                return Err(m);
            },
            Ok(d) => out.push(d),
        }
        i += 1;
    }
    assert(es@.take(es@.len() as int) =~= es@);
    Ok(out)
}

/// With no clash among `ds`, remote desktops resolve to pairwise distinct app
/// names.
proof fn lemma_no_clash_distinct(ds: Seq<Desktop>)
    requires
        first_app_clash(ds) is None,
    ensures
        forall|i: int, j: int|
            0 <= i < ds.len() && 0 <= j < ds.len() && i != j && app_name_of(#[trigger] ds[i])
                is Some ==> app_name_of(ds[i]) != app_name_of(#[trigger] ds[j]),
    decreases ds.len(),
{
    if ds.len() > 0 {
        lemma_no_clash_distinct(ds.drop_last());
        assert forall|i: int, j: int|
            0 <= i < ds.len() && 0 <= j < ds.len() && i != j && app_name_of(#[trigger] ds[i])
                is Some implies app_name_of(ds[i]) != app_name_of(#[trigger] ds[j]) by {
            if i < ds.len() - 1 && j < ds.len() - 1 {
                assert(ds.drop_last()[i] == ds[i]);
                assert(ds.drop_last()[j] == ds[j]);
            } else if j == ds.len() - 1 {
                assert(!clashes_with_last(ds, i));
            } else {
                assert(!clashes_with_last(ds, j));
            }
        }
    }
}

proof fn lemma_clash_prefix(ds: Seq<Desktop>, n: int)
    requires
        0 <= n <= ds.len(),
        first_app_clash(ds.take(n)) is Some,
    ensures
        first_app_clash(ds) == first_app_clash(ds.take(n)),
    decreases ds.len() - n,
{
    if n < ds.len() {
        assert(ds.take(n + 1).drop_last() =~= ds.take(n));
        lemma_clash_prefix(ds, n + 1);
    } else {
        assert(ds.take(n) =~= ds);
    }
}

proof fn lemma_clash_shape(ds: Seq<Desktop>)
    requires
        first_app_clash(ds) is Some,
    ensures
        ({
            let (j, k) = first_app_clash(ds).unwrap();
            &&& 0 <= j < k < ds.len()
            &&& app_name_of(ds[j]) is Some
            &&& app_name_of(ds[j]) == app_name_of(ds[k])
        }),
    decreases ds.len(),
{
    if first_app_clash(ds.drop_last()) is Some {
        lemma_clash_shape(ds.drop_last());
    } else {
        let j = choose|j: int| clashes_with_last(ds, j);
    }
}

/// The first pair of remote desktops that resolve to one app name.
fn find_app_clash(ds: &Vec<Desktop>) -> (r: Option<(usize, usize)>)
    ensures
        match r {
            Some((j, k)) => first_app_clash(ds@) == Some((j as int, k as int)) && j < k < ds@.len(),
            None => first_app_clash(ds@) is None,
        },
{
    let mut k: usize = 0;
    while k < ds.len()
        invariant
            k <= ds@.len(),
            first_app_clash(ds@.take(k as int)) is None,
        decreases ds.len() - k,
    {
        let ghost pre = ds@.take(k as int + 1);
        assert(pre.drop_last() =~= ds@.take(k as int));
        if let DesktopMode::Remote { app_name, .. } = &ds[k].mode {
            let mut j: usize = 0;
            while j < k
                invariant
                    j <= k < ds@.len(),
                    pre == ds@.take(k as int + 1),
                    first_app_clash(pre.drop_last()) is None,
                    app_name_of(ds@[k as int]) == Some(app_name@),
                    forall|i: int| 0 <= i < j ==> !clashes_with_last(pre, i),
                decreases k - j,
            {
                assert(pre[j as int] == ds@[j as int]);
                if let DesktopMode::Remote { app_name: other, .. } = &ds[j].mode {
                    if same_text(other.as_str(), app_name.as_str()) {
                        proof {
                            assert(clashes_with_last(pre, j as int));
                            lemma_no_clash_distinct(pre.drop_last());
                            let c = choose|c: int| clashes_with_last(pre, c);
                            if c != j {
                                assert(pre.drop_last()[c] == pre[c]);
                                assert(pre.drop_last()[j as int] == pre[j as int]);
                            }
                            assert(first_app_clash(pre) == Some((j as int, k as int)));
                            lemma_clash_prefix(ds@, k as int + 1);
                        }
                        return Some((j, k));
                    }
                }
                j += 1;
            }
            assert(!exists|i: int| clashes_with_last(pre, i));
        } else {
            assert(!exists|i: int| clashes_with_last(pre, i));
        }
        k += 1;
    }
    assert(ds@.take(ds@.len() as int) =~= ds@);
    None
}

fn has_desktop_key(es: &Vec<(String, RawDesktop)>, key: &str) -> (r: bool)
    ensures
        r == has_key(es@, key@),
{
    let mut i: usize = 0;
    while i < es.len()
        invariant
            i <= es@.len(),
            forall|j: int| 0 <= j < i ==> es@[j].0@ != key@,
        decreases es.len() - i,
    {
        if same_text(es[i].0.as_str(), key) {
            return true;
        }
        i += 1;
    }
    false
}

/// Applies the configuration rules to what the schema read.
pub fn validate(raw: RawConfig) -> (r: Result<DesktopConfig, ConfigError>)
    ensures
        match r {
            Ok(config) => validate_outcome(raw.version, raw.default, raw.desktops@) == Ok::<
                Seq<Desktop>,
                Seq<char>,
            >(config.desktops@) && config.version == raw.version && config.default
                == raw.default,
            Err(e) => e is Validation && validate_outcome(raw.version, raw.default, raw.desktops@)
                == Err::<Seq<Desktop>, Seq<char>>(failure_text(e@)),
        },
{
    if raw.version != CONFIG_VERSION {
        let v = decimal_string(raw.version as i64);
        return Err(
            ConfigError::Validation(
                join3("unsupported desktop configuration version ", v.as_str(), "; expected 1"),
            ),
        );
    }
    if raw.desktops.len() == 0 {
        return Err(
            ConfigError::Validation(
                String::from_str("desktop configuration must define at least one desktop"),
            ),
        );
    }
    if let Err(reason) = validate_desktop_id(raw.default.as_str()) {
        let q = quoted(raw.default.as_str());
        return Err(
            ConfigError::Validation(join4("invalid default desktop id ", q.as_str(), ": ", reason)),
        );
    }
    if !has_desktop_key(&raw.desktops, raw.default.as_str()) {
        let q = quoted(raw.default.as_str());
        return Err(
            ConfigError::Validation(join3("default desktop ", q.as_str(), " is not defined")),
        );
    }
    let desktops = match validate_desktops(&raw.desktops) {
        Ok(ds) => ds,
        Err(m) => {
            return Err(ConfigError::Validation(m));
        },
    };
    if let Some((j, k)) = find_app_clash(&desktops) {
        proof {
            lemma_clash_shape(desktops@);
        }
        let first = quoted(desktops[j].id.as_str());
        let second = quoted(desktops[k].id.as_str());
        let name = match &desktops[k].mode {
            DesktopMode::Remote { app_name, .. } => quoted(app_name.as_str()),
            DesktopMode::Local => String::new(),
        };
        let head = join4("remote desktops ", first.as_str(), " and ", second.as_str());
        let tail = join3(" both resolve to app name ", name.as_str(), "; app names must be unique");
        let message = join2(head.as_str(), tail.as_str());
        assert(message@ =~= "remote desktops "@ + debug_quoted(desktops@[j as int].id@) + " and "@
            + debug_quoted(desktops@[k as int].id@) + " both resolve to app name "@ + debug_quoted(
            app_name_of(desktops@[k as int]).unwrap(),
        ) + "; app names must be unique"@);
        return Err(ConfigError::Validation(message));
    }
    Ok(DesktopConfig { version: raw.version, default: raw.default, desktops })
}


// ---------------------------------------------------------------------------
// Entry points and the laws of a loaded configuration.
// ---------------------------------------------------------------------------
proof fn lemma_decode_desktops_keys(es: Seq<(String, TomlNode)>)
    requires
        decode_desktops(es) is Ok,
    ensures
        decode_desktops(es)->Ok_0.len() == es.len(),
        forall|i: int|
            0 <= i < es.len() ==> (#[trigger] decode_desktops(es)->Ok_0[i]).0 == es[i].0,
    decreases es.len(),
{
    if es.len() > 0 {
        lemma_decode_desktops_keys(es.drop_last());
        assert forall|i: int| 0 <= i < es.len() implies (
        #[trigger] decode_desktops(es)->Ok_0[i]).0 == es[i].0 by {
            if i < es.len() - 1 {
                assert(es.drop_last()[i] == es[i]);
            }
        }
    }
}

proof fn lemma_build_desktops_shape(es: Seq<(String, RawDesktop)>)
    requires
        build_desktops(es) is Ok,
    ensures
        build_desktops(es)->Ok_0.len() == es.len(),
        forall|i: int|
            0 <= i < es.len() ==> (#[trigger] build_desktops(es)->Ok_0[i]).id == es[i].0
                && desktop_valid(build_desktops(es)->Ok_0[i]),
    decreases es.len(),
{
    if es.len() > 0 {
        lemma_build_desktops_shape(es.drop_last());
        let d = build_desktop(es.last().0, es.last().1)->Ok_0;
        assert(desktop_valid(d));
        assert forall|i: int| 0 <= i < es.len() implies (
        #[trigger] build_desktops(es)->Ok_0[i]).id == es[i].0 && desktop_valid(
            build_desktops(es)->Ok_0[i],
        ) by {
            if i < es.len() - 1 {
                assert(es.drop_last()[i] == es[i]);
            }
        }
    }
}

/// What validation returns keeps the schema's desktops, one for each key and
/// in the same order, and obeys every rule: supported version, at least one
/// desktop, a valid default that names one of them, valid desktops, and
/// pairwise distinct app names among remote desktops. When the keys ascend
/// (as the keys of a TOML table do), so do the ids.
pub proof fn law_validated_desktops_keep_keys_and_rules(
    version: u32,
    default: String,
    es: Seq<(String, RawDesktop)>,
)
    requires
        validate_outcome(version, default, es) is Ok,
    ensures
        ({
            let ds = validate_outcome(version, default, es)->Ok_0;
            &&& version == CONFIG_VERSION
            &&& ds.len() == es.len()
            &&& ds.len() > 0
            &&& forall|i: int| 0 <= i < ds.len() ==> (#[trigger] ds[i]).id == es[i].0
            &&& forall|i: int| 0 <= i < ds.len() ==> desktop_valid(#[trigger] ds[i])
            &&& desktop_id_problem(default@) is None
            &&& exists|i: int| 0 <= i < ds.len() && #[trigger] ds[i].id@ == default@
            &&& forall|i: int, j: int|
                0 <= i < ds.len() && 0 <= j < ds.len() && i != j && app_name_of(#[trigger] ds[i])
                    is Some ==> app_name_of(ds[i]) != app_name_of(#[trigger] ds[j])
            &&& (forall|i: int, j: int|
                0 <= i < j < es.len() ==> key_lt(#[trigger] es[i].0@, #[trigger] es[j].0@))
                ==> forall|i: int, j: int|
                0 <= i < j < ds.len() ==> key_lt(#[trigger] ds[i].id@, #[trigger] ds[j].id@)
        }),
{
    let ds = validate_outcome(version, default, es)->Ok_0;
    lemma_build_desktops_shape(es);
    lemma_no_clash_distinct(ds);
    let k = choose|i: int| 0 <= i < es.len() && #[trigger] es[i].0@ == default@;
    assert(ds[k].id@ == default@);
    if forall|i: int, j: int|
        0 <= i < j < es.len() ==> key_lt(#[trigger] es[i].0@, #[trigger] es[j].0@) {
        assert forall|i: int, j: int| 0 <= i < j < ds.len() implies key_lt(
            #[trigger] ds[i].id@,
            #[trigger] ds[j].id@,
        ) by {
            assert(ds[i].id == es[i].0);
            assert(ds[j].id == es[j].0);
        }
    }
}

/// A configuration that parses obeys every rule of `DesktopConfig::is_valid`.
proof fn lemma_parsed_config_is_valid(source: Seq<char>, context: Seq<char>)
    requires
        parse_outcome(source, context) is Ok,
        document_ordered(toml_document(source)->Ok_0),
    ensures
        ({
            let (version, default, ds) = parse_outcome(source, context)->Ok_0;
            &&& version == CONFIG_VERSION
            &&& ds.len() > 0
            &&& desktop_id_problem(default@) is None
            &&& exists|i: int| 0 <= i < ds.len() && #[trigger] ds[i].id@ == default@
            &&& forall|i: int| 0 <= i < ds.len() ==> desktop_valid(#[trigger] ds[i])
            &&& forall|i: int, j: int|
                0 <= i < j < ds.len() ==> key_lt(#[trigger] ds[i].id@, #[trigger] ds[j].id@)
            &&& forall|i: int, j: int|
                0 <= i < ds.len() && 0 <= j < ds.len() && i != j && app_name_of(#[trigger] ds[i])
                    is Some ==> app_name_of(ds[i]) != app_name_of(#[trigger] ds[j])
        }),
{
    let doc = toml_document(source)->Ok_0;
    let (version, default, es) = decode_config(doc)->Ok_0;
    let entries = match doc {
        TomlNode::Table(entries) => entries@,
        _ => Seq::empty(),
    };
    let d = field_at(entries, "desktops"@).unwrap();
    let table = match entries[d].1 {
        TomlNode::Table(t) => t@,
        _ => Seq::empty(),
    };
    assert(first_key_at(entries, "desktops"@, d));
    assert(keys_ascending(table)) by {
        let e = entries[d].1;
        assert(match e {
            TomlNode::Table(inner) => keys_ascending(inner@),
            _ => true,
        });
    }
    lemma_decode_desktops_keys(table);
    assert forall|i: int, j: int| 0 <= i < j < es.len() implies key_lt(
        #[trigger] es[i].0@,
        #[trigger] es[j].0@,
    ) by {
        assert(es[i].0 == table[i].0);
        assert(es[j].0 == table[j].0);
    }
    law_validated_desktops_keep_keys_and_rules(version, default, es);
}

/// Reads `source` as a desktop configuration; `context` names the source in
/// TOML errors.
pub fn parse_with_context(source: &str, context: &str) -> (r: Result<DesktopConfig, ConfigError>)
    ensures
        match r {
            Ok(config) => parse_outcome(source@, context@) == Ok::<
                (u32, String, Seq<Desktop>),
                ConfigFailure,
            >((config.version, config.default, config.desktops@)) && config.is_valid(),
            Err(e) => parse_outcome(source@, context@) == Err::<
                (u32, String, Seq<Desktop>),
                ConfigFailure,
            >(e@),
        },
{
    let doc = match parse_document(source) {
        Ok(doc) => doc,
        Err(message) => {
            return Err(ConfigError::Toml { context: String::from_str(context), message });
        },
    };
    let raw = match raw_config(&doc) {
        Ok(raw) => raw,
        Err(message) => {
            return Err(ConfigError::Toml { context: String::from_str(context), message });
        },
    };
    let r = validate(raw);
    proof {
        if r is Ok {
            lemma_parsed_config_is_valid(source@, context@);
        }
    }
    r
}

/// Reads `source` as a desktop configuration.
pub fn parse_str(source: &str) -> (r: Result<DesktopConfig, ConfigError>)
    ensures
        match r {
            Ok(config) => parse_outcome(source@, "desktop configuration"@) == Ok::<
                (u32, String, Seq<Desktop>),
                ConfigFailure,
            >((config.version, config.default, config.desktops@)) && config.is_valid(),
            Err(e) => parse_outcome(source@, "desktop configuration"@) == Err::<
                (u32, String, Seq<Desktop>),
                ConfigFailure,
            >(e@),
        },
{
    parse_with_context(source, "desktop configuration")
}

/// The configuration at `path`, from what reading the file gave: its text, or
/// the reason it could not be read.
pub fn load_from(path: &str, read: Result<String, String>) -> (r: Result<DesktopConfig, ConfigError>)
    ensures
        match read {
            Err(message) => r matches Err(e) && e@ == ConfigFailure::Read {
                path: path@,
                message: message@,
            },
            Ok(source) => match r {
                Ok(config) => parse_outcome(source@, path@) == Ok::<
                    (u32, String, Seq<Desktop>),
                    ConfigFailure,
                >((config.version, config.default, config.desktops@)) && config.is_valid(),
                Err(e) => parse_outcome(source@, path@) == Err::<
                    (u32, String, Seq<Desktop>),
                    ConfigFailure,
                >(e@),
            },
        },
{
    match read {
        Err(message) => Err(ConfigError::Read { path: String::from_str(path), message }),
        Ok(source) => parse_with_context(source.as_str(), path),
    }
}

/// `i` is the first desktop with id `id`.
pub open spec fn first_desktop_at(ds: Seq<Desktop>, id: Seq<char>, i: int) -> bool {
    0 <= i < ds.len() && ds[i].id@ == id && forall|j: int| 0 <= j < i ==> ds[j].id@ != id
}

impl DesktopConfig {
    /// The desktop with id `id`, if the configuration defines one.
    pub fn desktop(&self, id: &str) -> (r: Option<&Desktop>)
        ensures
            match r {
                Some(d) => exists|i: int| first_desktop_at(self.desktops@, id@, i) && *d
                    == self.desktops@[i],
                None => forall|i: int|
                    0 <= i < self.desktops@.len() ==> (#[trigger] self.desktops@[i]).id@ != id@,
            },
    {
        let mut i: usize = 0;
        while i < self.desktops.len()
            invariant
                i <= self.desktops@.len(),
                forall|j: int| 0 <= j < i ==> (#[trigger] self.desktops@[j]).id@ != id@,
            decreases self.desktops.len() - i,
        {
            if same_text(self.desktops[i].id.as_str(), id) {
                assert(first_desktop_at(self.desktops@, id@, i as int));
                return Some(&self.desktops[i]);
            }
            i += 1;
        }
        None
    }
}

} // verus!
